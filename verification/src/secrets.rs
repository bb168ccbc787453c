//! Token storage: an encrypted vault file, or memory only.
//!
//! The vault is ChaCha20-Poly1305 under a key that Argon2id derives from a
//! machine-bound value plus an optional passphrase. Its bytes are the magic,
//! a fresh salt, a fresh nonce, and the sealed token; the magic is
//! authenticated as associated data, so a rewritten header fails to open.

use vstd::prelude::*;
use vstd::utf8::{encode_utf8, decode_utf8, valid_utf8, encode_utf8_decode_utf8};
use crate::text::{owned, push_str, push_char, join, views, push_joined};
use crate::state::{join_name, joined};
use crate::auth::wipe;
use chacha20poly1305::aead::{Aead, KeyInit, Payload};
use chacha20poly1305::aead::rand_core::RngCore;

verus! {

broadcast use vstd::seq_lib::group_seq_properties;

/// File name of the vault inside the workspace.
pub const VAULT_FILE: &'static str = "secrets.vault";

/// Length of the random salt.
pub const SALT_LEN: usize = 32;

/// Length of the random nonce.
pub const NONCE_LEN: usize = 12;

/// The magic bytes that open a vault file: `GRVLT`, then 0, 1, 0.
pub open spec fn magic() -> Seq<u8> {
    seq![71u8, 82u8, 86u8, 76u8, 84u8, 0u8, 1u8, 0u8]
}

/// The magic bytes.
pub fn magic_bytes() -> (res: Vec<u8>)
    ensures
        res@ == magic(),
{
    let res = vec![71u8, 82u8, 86u8, 76u8, 84u8, 0u8, 1u8, 0u8];
    assert(res@ =~= magic());
    res
}

/// The message when a file is not a vault this version can read.
pub open spec fn unreadable_text() -> Seq<char> {
    "The saved credential file is not readable by this version of the app. Sign in again to replace it."@
}

/// The message when the tag does not verify.
pub open spec fn locked_text() -> Seq<char> {
    "Could not unlock the saved credential. If you set a vault passphrase, check it \u{2014} otherwise the file may belong to another machine or user account."@
}

/// The message when the plaintext is not UTF-8.
pub open spec fn corrupt_text() -> Seq<char> {
    "the stored credential is corrupt"@
}

// ---------------------------------------------------------------------------
// The primitives
// ---------------------------------------------------------------------------

/// Argon2id's memory cost, in KiB: 64 MiB, deliberately slow enough to
/// matter.
pub const ARGON_MEM_KIB: u32 = 65536;

/// Argon2id's passes.
pub const ARGON_PASSES: u32 = 3;

/// Argon2id's lanes.
pub const ARGON_LANES: u32 = 1;

/// The key length.
pub const KEY_LEN: usize = 32;

/// The `out_len`-byte key Argon2id (version 0x13) derives from `password`
/// and `salt` at the given memory, time and lane costs.
pub uninterp spec fn argon2id_key(m_cost: u32, t_cost: u32, p_cost: u32, out_len: usize, password: Seq<u8>, salt: Seq<u8>) -> Seq<u8>;

/// The key the vault derives.
pub open spec fn vault_key(password: Seq<u8>, salt: Seq<u8>) -> Seq<u8> {
    argon2id_key(ARGON_MEM_KIB, ARGON_PASSES, ARGON_LANES, KEY_LEN, password, salt)
}

/// Argon2id through the `argon2` crate: `Params::new(m_cost, t_cost,
/// p_cost, Some(out_len))`, `Argon2::new(Algorithm::Argon2id,
/// Version::V0x13, ..)`, then `hash_password_into` a buffer of `out_len`
/// bytes. The crate refuses costs below its minimums (8 KiB of memory and 8
/// per lane, one pass, one lane), a key length outside 4 to `u32::MAX`, a
/// salt under 8 bytes and inputs over `u32::MAX` bytes, and nothing else;
/// the error text is the crate's.
#[verifier::external_body]
fn argon2id(m_cost: u32, t_cost: u32, p_cost: u32, out_len: usize, password: &[u8], salt: &[u8]) -> (res: Result<Vec<u8>, String>)
    requires
        p_cost <= 0xFF_FFFF,
    ensures
        res is Ok <==> (m_cost >= 8 && m_cost >= p_cost * 8 && t_cost >= 1 && p_cost >= 1 && 4 <= out_len <= 0xFFFF_FFFF
            && 8 <= salt@.len() <= 0xFFFF_FFFF && password@.len() <= 0xFFFF_FFFF),
        res matches Ok(k) ==> k@ == argon2id_key(m_cost, t_cost, p_cost, out_len, password@, salt@) && k@.len() == out_len,
{
    let params = argon2::Params::new(m_cost, t_cost, p_cost, Some(out_len)).map_err(|e| format!("bad Argon2 parameters: {e}"))?;
    let argon = argon2::Argon2::new(argon2::Algorithm::Argon2id, argon2::Version::V0x13, params);
    let mut out = vec![0u8; out_len];
    argon.hash_password_into(password, salt, &mut out).map_err(|e| format!("key derivation failed: {e}"))?;
    Ok(out)
}

/// The ciphertext and tag ChaCha20-Poly1305 gives for `msg` with `aad`.
pub uninterp spec fn chacha_seal(key: Seq<u8>, nonce: Seq<u8>, msg: Seq<u8>, aad: Seq<u8>) -> Seq<u8>;

/// The plaintext ChaCha20-Poly1305 recovers from `sealed` with `aad`, or
/// `None` when the tag does not verify.
pub uninterp spec fn chacha_open(key: Seq<u8>, nonce: Seq<u8>, sealed: Seq<u8>, aad: Seq<u8>) -> Option<Seq<u8>>;

/// `ChaCha20Poly1305::encrypt` with a `Payload` of `msg` and `aad`. It fails
/// only for a message of 2^32 - 1 blocks or more; the output is the message
/// length plus a 16-byte tag, and decrypting it with the same key, nonce and
/// `aad` gives the message back.
#[verifier::external_body]
fn chacha_encrypt(key: &[u8], nonce: &[u8], msg: &[u8], aad: &[u8]) -> (res: Option<Vec<u8>>)
    requires
        key@.len() == 32,
        nonce@.len() == 12,
    ensures
        res is Some <==> msg@.len() / 64 < 0xFFFF_FFFF,
        res matches Some(c) ==> c@ == chacha_seal(key@, nonce@, msg@, aad@) && c@.len() == msg@.len() + 16
            && chacha_open(key@, nonce@, c@, aad@) == Some(msg@),
{
    let cipher = chacha20poly1305::ChaCha20Poly1305::new(chacha20poly1305::Key::from_slice(key));
    cipher.encrypt(chacha20poly1305::Nonce::from_slice(nonce), Payload { msg, aad }).ok()
}

/// `ChaCha20Poly1305::decrypt` with a `Payload` of `sealed` and `aad`.
#[verifier::external_body]
fn chacha_decrypt(key: &[u8], nonce: &[u8], sealed: &[u8], aad: &[u8]) -> (res: Option<Vec<u8>>)
    requires
        key@.len() == 32,
        nonce@.len() == 12,
    ensures
        match res {
            Some(p) => chacha_open(key@, nonce@, sealed@, aad@) == Some(p@),
            None => chacha_open(key@, nonce@, sealed@, aad@) is None,
        },
{
    let cipher = chacha20poly1305::ChaCha20Poly1305::new(chacha20poly1305::Key::from_slice(key));
    cipher.decrypt(chacha20poly1305::Nonce::from_slice(nonce), Payload { msg: sealed, aad }).ok()
}

/// `n` bytes from the OS random number generator (`OsRng::try_fill_bytes`,
/// as the `aead` crate re-exports it); the error text is the generator's.
#[verifier::external_body]
fn random_bytes(n: usize) -> (res: Result<Vec<u8>, String>)
    ensures
        res matches Ok(v) ==> v@.len() == n,
{
    let mut buf = vec![0u8; n];
    chacha20poly1305::aead::OsRng
        .try_fill_bytes(&mut buf)
        .map_err(|e| format!("the OS random number generator failed: {e}"))?;
    Ok(buf)
}

/// `String::from_utf8`: the bytes as a string when they are UTF-8.
#[verifier::external_body]
fn utf8_string(bytes: Vec<u8>) -> (res: Option<String>)
    ensures
        match res {
            Some(s) => valid_utf8(bytes@) && s@ == decode_utf8(bytes@),
            None => !valid_utf8(bytes@),
        },
{
    String::from_utf8(bytes).ok()
}

/// The UTF-8 bytes of a string.
fn utf8_bytes(s: &str) -> (res: Vec<u8>)
    ensures
        res@ == encode_utf8(s@),
{
    let b = s.as_bytes();
    let mut out: Vec<u8> = Vec::new();
    let mut i: usize = 0;
    while i < b.len()
        invariant
            i <= b@.len(),
            b@ == encode_utf8(s@),
            out@ == b@.subrange(0, i as int),
        decreases b.len() - i,
    {
        out.push(b[i]);
        i = i + 1;
    }
    out
}

/// A copy of `v[from..to]`.
fn byte_range(v: &[u8], from: usize, to: usize) -> (res: Vec<u8>)
    requires
        from <= to <= v@.len(),
    ensures
        res@ == v@.subrange(from as int, to as int),
{
    let mut out: Vec<u8> = Vec::new();
    let mut i: usize = from;
    while i < to
        invariant
            from <= i <= to,
            to <= v@.len(),
            out@ == v@.subrange(from as int, i as int),
        decreases to - i,
    {
        out.push(v[i]);
        i = i + 1;
    }
    out
}

/// Appends the bytes of `other`.
fn push_bytes(out: &mut Vec<u8>, other: &[u8])
    ensures
        final(out)@ == old(out)@ + other@,
{
    let ghost start = out@;
    let mut i: usize = 0;
    while i < other.len()
        invariant
            i <= other@.len(),
            out@ == start + other@.subrange(0, i as int),
        decreases other.len() - i,
    {
        out.push(other[i]);
        i = i + 1;
    }
}

// ---------------------------------------------------------------------------
// The vault format
// ---------------------------------------------------------------------------

/// The bytes of a vault holding `token`, sealed under the key derived from
/// `material` and `salt`.
pub open spec fn sealed_vault(token: Seq<char>, material: Seq<char>, salt: Seq<u8>, nonce: Seq<u8>) -> Seq<u8> {
    magic() + salt + nonce + chacha_seal(vault_key(encode_utf8(material), salt), nonce, encode_utf8(token), magic())
}

/// What opening vault bytes with `material` gives: the token, or the
/// message why not. `None` stands for a key derivation the crate refused,
/// whose message is its own.
pub open spec fn opened_vault(raw: Seq<u8>, material: Seq<char>) -> Option<Result<Seq<char>, Seq<char>>> {
    let header = 8 + SALT_LEN + NONCE_LEN;
    if raw.len() < header || raw.subrange(0, 8) != magic() {
        Some(Err(unreadable_text()))
    } else if encode_utf8(material).len() > 0xFFFF_FFFF {
        None
    } else {
        let salt = raw.subrange(8, 8 + SALT_LEN);
        let nonce = raw.subrange(8 + SALT_LEN, header as int);
        let sealed = raw.subrange(header as int, raw.len() as int);
        match chacha_open(vault_key(encode_utf8(material), salt), nonce, sealed, magic()) {
            None => Some(Err(locked_text())),
            Some(p) => if valid_utf8(p) { Some(Ok(decode_utf8(p))) } else { Some(Err(corrupt_text())) },
        }
    }
}

/// Seals `token` into vault bytes with the given salt and nonce.
pub fn seal_vault(token: &str, material: &str, salt: &[u8], nonce: &[u8]) -> (res: Result<Vec<u8>, String>)
    requires
        salt@.len() == SALT_LEN,
        nonce@.len() == NONCE_LEN,
    ensures
        (encode_utf8(material@).len() <= 0xFFFF_FFFF && encode_utf8(token@).len() / 64 < 0xFFFF_FFFF) ==> res is Ok,
        res matches Ok(raw) ==> raw@ == sealed_vault(token@, material@, salt@, nonce@)
            && opened_vault(raw@, material@) == Some(Ok::<Seq<char>, Seq<char>>(token@)),
{
    let password = utf8_bytes(material);
    let key = argon2id(ARGON_MEM_KIB, ARGON_PASSES, ARGON_LANES, KEY_LEN, password.as_slice(), salt);
    let key = match key {
        Ok(k) => k,
        Err(e) => return Err(e),
    };
    let msg = utf8_bytes(token);
    let aad = magic_bytes();
    let sealed = match chacha_encrypt(key.as_slice(), nonce, msg.as_slice(), aad.as_slice()) {
        Some(c) => c,
        None => return Err(owned("encryption failed")),
    };
    let mut out = magic_bytes();
    push_bytes(&mut out, salt);
    push_bytes(&mut out, nonce);
    push_bytes(&mut out, sealed.as_slice());
    proof {
        lemma_vault_round_trip(token@, material@, salt@, nonce@);
    }
    Ok(out)
}

/// Seals `token` under a fresh random salt and nonce: reusing a nonce under
/// one key would break ChaCha20-Poly1305.
pub fn seal_fresh_vault(token: &str, material: &str) -> (res: Result<Vec<u8>, String>)
    ensures
        res matches Ok(raw) ==> (exists|salt: Seq<u8>, nonce: Seq<u8>| salt.len() == SALT_LEN && nonce.len() == NONCE_LEN
            && raw@ == #[trigger] sealed_vault(token@, material@, salt, nonce))
            && opened_vault(raw@, material@) == Some(Ok::<Seq<char>, Seq<char>>(token@)),
{
    let salt = random_bytes(SALT_LEN)?;
    let nonce = random_bytes(NONCE_LEN)?;
    let raw = seal_vault(token, material, salt.as_slice(), nonce.as_slice())?;
    assert(raw@ == sealed_vault(token@, material@, salt@, nonce@));
    Ok(raw)
}

/// Opens vault bytes: the header is checked before any cryptography runs,
/// then the key is derived from `material` and the file's salt, and the
/// sealed token is opened and decoded.
pub fn open_vault(raw: &[u8], material: &str) -> (res: Result<String, String>)
    ensures
        match opened_vault(raw@, material@) {
            Some(Ok(t)) => res matches Ok(s) && s@ == t,
            Some(Err(m)) => res matches Err(e) && e@ == m,
            None => res is Err,
        },
{
    let header: usize = 8 + SALT_LEN + NONCE_LEN;
    let m = magic_bytes();
    if raw.len() < header {
        return Err(owned("The saved credential file is not readable by this version of the app. Sign in again to replace it."));
    }
    let head = byte_range(raw, 0, 8);
    let mut same = true;
    let mut i: usize = 0;
    assert(head@.subrange(0, 0) =~= m@.subrange(0, 0));
    while i < 8
        invariant
            i <= 8,
            head@.len() == 8,
            m@ == magic(),
            same == (head@.subrange(0, i as int) == m@.subrange(0, i as int)),
        decreases 8 - i,
    {
        let ghost before = same;
        if head[i] != m[i] {
            same = false;
        }
        proof {
            assert(head@.subrange(0, i + 1) =~= head@.subrange(0, i as int).push(head@[i as int]));
            assert(m@.subrange(0, i + 1) =~= m@.subrange(0, i as int).push(m@[i as int]));
            if !before {
                assert(head@.subrange(0, i as int) != m@.subrange(0, i as int));
                if head@.subrange(0, i + 1) == m@.subrange(0, i + 1) {
                    assert(head@.subrange(0, i + 1).drop_last() =~= head@.subrange(0, i as int));
                    assert(m@.subrange(0, i + 1).drop_last() =~= m@.subrange(0, i as int));
                }
            }
            if head@[i as int] != m@[i as int] {
                assert(head@.subrange(0, i + 1).last() != m@.subrange(0, i + 1).last());
            }
        }
        i = i + 1;
    }
    assert(head@.subrange(0, 8) =~= head@);
    assert(m@.subrange(0, 8) =~= m@);
    if !same {
        return Err(owned("The saved credential file is not readable by this version of the app. Sign in again to replace it."));
    }
    let salt = byte_range(raw, 8, 8 + SALT_LEN);
    let nonce = byte_range(raw, 8 + SALT_LEN, header);
    let sealed = byte_range(raw, header, raw.len());
    let password = utf8_bytes(material);
    let key = argon2id(ARGON_MEM_KIB, ARGON_PASSES, ARGON_LANES, KEY_LEN, password.as_slice(), salt.as_slice())?;
    let plain = match chacha_decrypt(key.as_slice(), nonce.as_slice(), sealed.as_slice(), m.as_slice()) {
        Some(p) => p,
        None => return Err(owned(
            "Could not unlock the saved credential. If you set a vault passphrase, check it \u{2014} otherwise the file may belong to another machine or user account.",
        )),
    };
    match utf8_string(plain) {
        Some(s) => Ok(s),
        None => Err(owned("the stored credential is corrupt")),
    }
}

/// Opening what sealing wrote gives the token back, whatever salt and nonce
/// were drawn, provided the key material is one Argon2 accepts and the
/// cipher opens what it sealed.
proof fn lemma_vault_round_trip(token: Seq<char>, material: Seq<char>, salt: Seq<u8>, nonce: Seq<u8>)
    requires
        salt.len() == SALT_LEN,
        nonce.len() == NONCE_LEN,
        encode_utf8(material).len() <= 0xFFFF_FFFF,
        chacha_open(vault_key(encode_utf8(material), salt), nonce,
            chacha_seal(vault_key(encode_utf8(material), salt), nonce, encode_utf8(token), magic()), magic())
            == Some(encode_utf8(token)),
    ensures
        opened_vault(sealed_vault(token, material, salt, nonce), material) == Some(Ok::<Seq<char>, Seq<char>>(token)),
{
    let raw = sealed_vault(token, material, salt, nonce);
    let key = vault_key(encode_utf8(material), salt);
    let sealed = chacha_seal(key, nonce, encode_utf8(token), magic());
    assert(raw.subrange(0, 8) =~= magic());
    assert(raw.subrange(8, 40) =~= salt);
    assert(raw.subrange(40, 52) =~= nonce);
    assert(raw.subrange(52, raw.len() as int) =~= sealed);
    vstd::utf8::encode_utf8_valid_utf8(token);
    encode_utf8_decode_utf8(token);
}

// ---------------------------------------------------------------------------
// Stores
// ---------------------------------------------------------------------------

/// Storage for the access token.
pub trait SecretStore {
    fn save(&mut self, token: &str) -> Result<(), String>;
    fn load(&self) -> Result<Option<String>, String>;
    fn clear(&mut self) -> Result<(), String>;
    /// True when this store keeps anything beyond the process.
    fn is_persistent(&self) -> bool;
}

/// Holds the token for the life of the process only: nothing is written.
pub struct MemoryStore {
    token: Option<String>,
}

impl Default for MemoryStore {
    fn default() -> (res: Self)
        ensures
            res.held() is None,
    {
        MemoryStore { token: None }
    }
}

impl MemoryStore {
    /// The token held, if any.
    pub closed spec fn held(&self) -> Option<Seq<char>> {
        match self.token {
            Some(t) => Some(t@),
            None => None,
        }
    }
}

impl SecretStore for MemoryStore {
    fn save(&mut self, token: &str) -> (res: Result<(), String>)
        ensures
            res is Ok,
            final(self).held() == Some(token@),
    {
        self.token = Some(owned(token));
        Ok(())
    }

    fn load(&self) -> (res: Result<Option<String>, String>)
        ensures
            match self.held() {
                Some(t) => res matches Ok(Some(s)) && s@ == t,
                None => res matches Ok(None),
            },
    {
        match &self.token {
            Some(t) => Ok(Some(t.clone())),
            None => Ok(None),
        }
    }

    fn clear(&mut self) -> (res: Result<(), String>)
        ensures
            res is Ok,
            final(self).held() is None,
    {
        let taken = self.token.take();
        match taken {
            Some(t) => {
                let mut t = t;
                wipe(&mut t);
            },
            None => {},
        }
        Ok(())
    }

    fn is_persistent(&self) -> (res: bool)
        ensures
            !res,
    {
        false
    }
}

/// An encrypted vault file in the workspace.
pub struct EncryptedFileVault {
    path: String,
    /// The user's passphrase; absent means machine-bound only.
    passphrase: Option<String>,
}

/// The key material: the passphrase (or the app's name), a unit separator,
/// and the machine identifier.
pub open spec fn key_material_text(passphrase: Option<Seq<char>>, machine_id: Seq<char>) -> Seq<char> {
    match passphrase {
        Some(p) => p,
        None => "github-importer"@,
    }.push('\u{1f}') + machine_id
}

/// The environment variables a machine identifier is built from, in order.
pub open spec fn machine_id_var_names() -> Seq<Seq<char>> {
    seq!["COMPUTERNAME"@, "HOSTNAME"@, "USERNAME"@, "USER"@, "USERDOMAIN"@]
}

/// The environment variables a machine identifier is built from, in order.
pub fn machine_id_vars() -> (res: Vec<&'static str>)
    ensures
        res@.map_values(|s: &str| s@) == machine_id_var_names(),
{
    let res = vec!["COMPUTERNAME", "HOSTNAME", "USERNAME", "USER", "USERDOMAIN"];
    assert(res@.map_values(|s: &str| s@) =~= machine_id_var_names());
    res
}

/// The values that are set and non-empty, in order.
pub open spec fn present_values(values: Seq<Option<String>>) -> Seq<Seq<char>>
    decreases values.len(),
{
    if values.len() == 0 {
        Seq::empty()
    } else {
        let rest = present_values(values.drop_last());
        match values.last() {
            Some(v) => if v@.len() > 0 { rest.push(v@) } else { rest },
            None => rest,
        }
    }
}

/// A stable identifier for this machine and user: the values of
/// [`machine_id_vars`] that are set, joined by `|`, or `unknown-host`. Not a
/// secret; it only has to differ between machines.
pub fn machine_id_from(values: &[Option<String>]) -> (res: String)
    ensures
        res@ == if present_values(values@).len() == 0 { "unknown-host"@ } else { join(present_values(values@), "|"@) },
{
    let mut parts: Vec<String> = Vec::new();
    let mut i: usize = 0;
    while i < values.len()
        invariant
            i <= values@.len(),
            views(parts@) == present_values(values@.subrange(0, i as int)),
        decreases values.len() - i,
    {
        let ghost before = parts@;
        proof {
            let s = values@.subrange(0, i + 1);
            assert(s.drop_last() =~= values@.subrange(0, i as int));
            assert(s.last() == values@[i as int]);
        }
        match &values[i] {
            Some(v) => {
                if v.unicode_len() > 0 {
                    parts.push(v.clone());
                    assert(views(parts@) =~= views(before).push(v@));
                }
            },
            None => {},
        }
        i = i + 1;
    }
    assert(values@.subrange(0, values@.len() as int) =~= values@);
    if parts.len() == 0 {
        return owned("unknown-host");
    }
    let mut out = String::new();
    push_joined(&mut out, parts.as_slice(), "|");
    out
}

impl EncryptedFileVault {
    /// The vault of a workspace.
    pub fn new(workspace_dir: &str, passphrase: Option<String>) -> (res: Self)
        ensures
            joined(res.path_spec(), workspace_dir@, VAULT_FILE@),
            res.passphrase_spec() == match passphrase { Some(p) => Some(p@), None => None },
    {
        EncryptedFileVault { path: join_name(workspace_dir, VAULT_FILE), passphrase }
    }

    /// Where the vault file is.
    pub closed spec fn path_spec(&self) -> Seq<char> {
        self.path@
    }

    /// The passphrase, if one was given.
    pub closed spec fn passphrase_spec(&self) -> Option<Seq<char>> {
        match self.passphrase {
            Some(p) => Some(p@),
            None => None,
        }
    }

    /// Where the vault file is.
    pub fn path(&self) -> (res: &str)
        ensures
            res@ == self.path_spec(),
    {
        self.path.as_str()
    }

    /// The key material for this vault on the machine `machine_id` names.
    pub fn key_material(&self, machine_id: &str) -> (res: String)
        ensures
            res@ == key_material_text(self.passphrase_spec(), machine_id@),
    {
        let mut m = match &self.passphrase {
            Some(p) => p.clone(),
            None => owned("github-importer"),
        };
        push_char(&mut m, '\u{1f}');
        push_str(&mut m, machine_id);
        m
    }

    /// The bytes to write for `token`, under a fresh salt and nonce.
    pub fn seal_token(&self, token: &str, machine_id: &str) -> (res: Result<Vec<u8>, String>)
        ensures
            res matches Ok(raw) ==> (exists|salt: Seq<u8>, nonce: Seq<u8>| salt.len() == SALT_LEN && nonce.len() == NONCE_LEN
                && raw@ == #[trigger] sealed_vault(token@, key_material_text(self.passphrase_spec(), machine_id@), salt, nonce))
                && opened_vault(raw@, key_material_text(self.passphrase_spec(), machine_id@)) == Some(Ok::<Seq<char>, Seq<char>>(token@)),
    {
        let mut material = self.key_material(machine_id);
        let res = seal_fresh_vault(token, material.as_str());
        wipe(&mut material);
        res
    }

    /// The token held in vault bytes read from the file.
    pub fn open_bytes(&self, raw: &[u8], machine_id: &str) -> (res: Result<String, String>)
        ensures
            match opened_vault(raw@, key_material_text(self.passphrase_spec(), machine_id@)) {
                Some(Ok(t)) => res matches Ok(s) && s@ == t,
                Some(Err(m)) => res matches Err(e) && e@ == m,
                None => res is Err,
            },
    {
        let mut material = self.key_material(machine_id);
        let res = open_vault(raw, material.as_str());
        wipe(&mut material);
        res
    }
}

/// The store a preference picks.
pub enum Store {
    /// "Remember me": the encrypted vault.
    Vault(EncryptedFileVault),
    /// Memory only: nothing is written anywhere.
    Memory(MemoryStore),
}

impl Store {
    /// True when the store keeps the token beyond the process.
    pub fn is_persistent(&self) -> (res: bool)
        ensures
            res == (*self is Vault),
    {
        match self {
            Store::Vault(_) => true,
            Store::Memory(_) => false,
        }
    }
}

/// Picks the store for the current preferences.
pub fn store_for(workspace_dir: &str, remember: bool, passphrase: Option<String>) -> (res: Store)
    ensures
        remember ==> (res matches Store::Vault(v) && joined(v.path_spec(), workspace_dir@, VAULT_FILE@)
            && v.passphrase_spec() == match passphrase { Some(p) => Some(p@), None => None }),
        !remember ==> (res matches Store::Memory(m) && m.held() is None),
{
    if remember {
        Store::Vault(EncryptedFileVault::new(workspace_dir, passphrase))
    } else {
        Store::Memory(MemoryStore::default())
    }
}

} // verus!
