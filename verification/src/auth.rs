//! Authentication: the OAuth device flow, personal access tokens, and a
//! token taken over from the `gh` CLI.
//!
//! The device code and any access token stay in this process; a user sees a
//! user code and a status, never a credential.

use vstd::prelude::*;
use crate::json::{JsonValue, field, as_str_spec, as_u64_spec};
use crate::github::{GithubError, error_text};
use crate::text::{owned, push_str, str_chars, string_from_range, strip_trailing, strip_trailing_bound, trim, trim_str,
    split_on, split_chars, views, lowercase, to_lowercase, str_contains, has_infix, contains_string, string_from_chars, str_eq};

verus! {

broadcast use vstd::seq_lib::group_seq_properties;

/// Scopes the importer needs: `repo` for issues and labels, `project` for
/// the board, `read:org` to list an organisation's boards.
pub const REQUIRED_SCOPES: &'static str = "repo project read:org";

/// GitHub's OAuth host, which is the web host rather than the API host.
pub const DEFAULT_OAUTH_BASE: &'static str = "https://github.com";

/// The device-code endpoint, the one the poller posts to, and the page where
/// the user enters the code.
#[derive(Debug, Clone)]
pub struct OAuthEndpoints {
    pub device_code_url: String,
    pub access_token_url: String,
    pub verification_uri: String,
}

impl OAuthEndpoints {
    /// The endpoints of an OAuth host; trailing slashes are ignored.
    pub fn for_host(host: &str) -> (res: Self)
        ensures
            res.device_code_url@ == strip_trailing(host@, '/') + "/login/device/code"@,
            res.access_token_url@ == strip_trailing(host@, '/') + "/login/oauth/access_token"@,
            res.verification_uri@ == strip_trailing(host@, '/') + "/login/device"@,
    {
        let cs = str_chars(host);
        let e = strip_trailing_bound(cs.as_slice(), 0, cs.len(), '/');
        assert(cs@.subrange(0, cs@.len() as int) =~= cs@);
        let base = string_from_range(cs.as_slice(), 0, e);
        let mut device_code_url = base.clone();
        push_str(&mut device_code_url, "/login/device/code");
        let mut access_token_url = base.clone();
        push_str(&mut access_token_url, "/login/oauth/access_token");
        let mut verification_uri = base;
        push_str(&mut verification_uri, "/login/device");
        OAuthEndpoints { device_code_url, access_token_url, verification_uri }
    }

    /// github.com's endpoints.
    pub fn github() -> (res: Self)
        ensures
            res.device_code_url@ == strip_trailing(DEFAULT_OAUTH_BASE@, '/') + "/login/device/code"@,
            res.access_token_url@ == strip_trailing(DEFAULT_OAUTH_BASE@, '/') + "/login/oauth/access_token"@,
            res.verification_uri@ == strip_trailing(DEFAULT_OAUTH_BASE@, '/') + "/login/device"@,
    {
        Self::for_host(DEFAULT_OAUTH_BASE)
    }
}

/// Why signing in failed.
#[derive(Debug)]
pub enum AuthError {
    /// The transport failed; the message is the transport's own.
    Http(String),
    Github(GithubError),
    NoClientId,
    Expired,
    Denied,
    DeviceFlowDisabled,
    BadClientId,
    RateLimited,
    Other(String),
}

/// The text an [`AuthError`] displays.
pub open spec fn auth_error_text(e: AuthError) -> Seq<char> {
    match e {
        AuthError::Http(m) => m@,
        AuthError::Github(g) => error_text(g),
        AuthError::NoClientId => "no OAuth App client id is configured"@,
        AuthError::Expired => "the device code expired before it was approved"@,
        AuthError::Denied => "authorization was denied"@,
        AuthError::DeviceFlowDisabled =>
            "device flow is disabled for this OAuth App. Enable it in the app's settings, or paste a personal access token instead."@,
        AuthError::BadClientId => "GitHub rejected the client id"@,
        AuthError::RateLimited =>
            "GitHub's device-flow limit was hit (50 authorizations per hour across all users of this app). Wait, or paste a personal access token instead."@,
        AuthError::Other(m) => m@,
    }
}

impl AuthError {
    /// The error's text, as it is displayed.
    pub fn message(&self) -> (res: String)
        ensures
            res@ == auth_error_text(*self),
    {
        match self {
            AuthError::Http(m) => m.clone(),
            AuthError::Github(g) => g.message(),
            AuthError::NoClientId => owned("no OAuth App client id is configured"),
            AuthError::Expired => owned("the device code expired before it was approved"),
            AuthError::Denied => owned("authorization was denied"),
            AuthError::DeviceFlowDisabled => owned(
                "device flow is disabled for this OAuth App. Enable it in the app's settings, or paste a personal access token instead.",
            ),
            AuthError::BadClientId => owned("GitHub rejected the client id"),
            AuthError::RateLimited => owned(
                "GitHub's device-flow limit was hit (50 authorizations per hour across all users of this app). Wait, or paste a personal access token instead.",
            ),
            AuthError::Other(m) => m.clone(),
        }
    }
}

/// What is shown while the user approves the request.
#[derive(Debug, Clone)]
pub struct DeviceCodeInfo {
    /// The code the user types at `verification_uri`.
    pub user_code: String,
    pub verification_uri: String,
    /// Seconds until the code expires.
    pub expires_in: u64,
    /// Seconds the poller waits between attempts.
    pub interval: u64,
    pub client_id: String,
}

#[verifier::external_type_specification]
#[verifier::external_body]
pub struct ExInstant(std::time::Instant);

/// `now.duration_since(earlier)` as whole seconds and the nanoseconds past
/// them (zero when `now` is the earlier of the two).
#[verifier::external_body]
fn elapsed_parts(earlier: std::time::Instant, now: std::time::Instant) -> (res: (u64, u32))
    ensures
        res.1 < 1_000_000_000,
{
    let d = now.duration_since(earlier);
    (d.as_secs(), d.subsec_nanos())
}

/// A window of `expires_in` seconds is over once `elapsed` reaches it.
pub open spec fn window_over(expires_in: u64, secs: u64, nanos: u32) -> bool {
    secs >= expires_in
}

/// Whole seconds left of a window of `expires_in` seconds after `secs`
/// seconds and `nanos` nanoseconds, rounded down; zero once it is over.
pub open spec fn window_left(expires_in: u64, secs: u64, nanos: u32) -> u64 {
    if secs >= expires_in {
        0
    } else if nanos > 0 {
        (expires_in - secs - 1) as u64
    } else {
        (expires_in - secs) as u64
    }
}

/// Has a window of `expires_in` seconds closed after the elapsed time?
pub fn window_expired(expires_in: u64, secs: u64, nanos: u32) -> (res: bool)
    requires
        nanos < 1_000_000_000,
    ensures
        res == window_over(expires_in, secs, nanos),
{
    secs >= expires_in
}

/// The whole seconds left of a window after the elapsed time.
pub fn window_remaining(expires_in: u64, secs: u64, nanos: u32) -> (res: u64)
    requires
        nanos < 1_000_000_000,
    ensures
        res == window_left(expires_in, secs, nanos),
{
    if secs >= expires_in {
        0
    } else if nanos > 0 {
        expires_in - secs - 1
    } else {
        expires_in - secs
    }
}

/// A device flow in progress. The device code never leaves this process.
#[derive(Debug)]
pub struct PendingDeviceFlow {
    pub info: DeviceCodeInfo,
    device_code: String,
    started_at: std::time::Instant,
    pub interval: u64,
}

impl PendingDeviceFlow {
    /// A flow that started at `started_at`, polling at the interval GitHub
    /// gave.
    pub fn new(info: DeviceCodeInfo, device_code: String, started_at: std::time::Instant) -> (res: Self)
        ensures
            res.info_spec() == info,
            res.device_code_spec()@ == device_code@,
            res.interval_spec() == info.interval,
            res.started_at_spec() == started_at,
    {
        let interval = info.interval;
        PendingDeviceFlow { info, device_code, started_at, interval }
    }

    /// A copy of the flow, for a poller that must not hold the original.
    pub fn duplicate(&self) -> (res: Self)
        ensures
            res.info_spec().user_code@ == self.info_spec().user_code@,
            res.info_spec().verification_uri@ == self.info_spec().verification_uri@,
            res.info_spec().expires_in == self.info_spec().expires_in,
            res.info_spec().interval == self.info_spec().interval,
            res.info_spec().client_id@ == self.info_spec().client_id@,
            res.device_code_spec()@ == self.device_code_spec()@,
            res.interval_spec() == self.interval_spec(),
            res.started_at_spec() == self.started_at_spec(),
    {
        PendingDeviceFlow {
            info: DeviceCodeInfo {
                user_code: self.info.user_code.clone(),
                verification_uri: self.info.verification_uri.clone(),
                expires_in: self.info.expires_in,
                interval: self.info.interval,
                client_id: self.info.client_id.clone(),
            },
            device_code: self.device_code.clone(),
            started_at: self.started_at,
            interval: self.interval,
        }
    }

    /// When the flow started.
    pub closed spec fn started_at_spec(&self) -> std::time::Instant {
        self.started_at
    }

    /// What is shown to the user.
    pub closed spec fn info_spec(&self) -> DeviceCodeInfo {
        self.info
    }

    /// The current polling interval.
    pub closed spec fn interval_spec(&self) -> u64 {
        self.interval
    }

    /// The device code, which the poller sends.
    pub closed spec fn device_code_spec(&self) -> String {
        self.device_code
    }

    /// The device code, which the poller sends.
    pub fn device_code(&self) -> (res: &str)
        ensures
            res@ == self.device_code_spec()@,
    {
        self.device_code.as_str()
    }

    /// Has the code outlived its window at `now`? The window closes exactly
    /// at `expires_in` seconds.
    pub fn is_expired(&self, now: std::time::Instant) -> (res: bool)
        ensures
            exists|secs: u64, nanos: u32| nanos < 1_000_000_000 && res == window_over(self.info_spec().expires_in, secs, nanos),
    {
        let (secs, nanos) = elapsed_parts(self.started_at, now);
        let res = window_expired(self.info.expires_in, secs, nanos);
        assert(nanos < 1_000_000_000 && res == window_over(self.info_spec().expires_in, secs, nanos));
        res
    }

    /// Whole seconds left at `now`; zero once expired.
    pub fn seconds_remaining(&self, now: std::time::Instant) -> (res: u64)
        ensures
            exists|secs: u64, nanos: u32| nanos < 1_000_000_000 && res == window_left(self.info_spec().expires_in, secs, nanos),
    {
        let (secs, nanos) = elapsed_parts(self.started_at, now);
        let res = window_remaining(self.info.expires_in, secs, nanos);
        assert(nanos < 1_000_000_000 && res == window_left(self.info_spec().expires_in, secs, nanos));
        res
    }

    /// Wipes the device code when the flow ends.
    pub fn clear(&mut self)
        ensures
            final(self).device_code_spec()@ == Seq::<char>::empty(),
            final(self).info_spec() == old(self).info_spec(),
            final(self).interval_spec() == old(self).interval_spec(),
            final(self).started_at_spec() == old(self).started_at_spec(),
    {
        wipe(&mut self.device_code);
    }

    /// GitHub's remedy for `slow_down`: five more seconds between polls.
    pub fn slow_down(&mut self)
        requires
            old(self).interval_spec() <= u64::MAX - 5,
        ensures
            final(self).interval_spec() == old(self).interval_spec() + 5,
            final(self).info_spec() == old(self).info_spec(),
            final(self).started_at_spec() == old(self).started_at_spec(),
            final(self).device_code_spec() == old(self).device_code_spec(),
    {
        self.interval = self.interval + 5;
    }
}

/// Overwrites a string's bytes with zeros and empties it, by
/// `zeroize::Zeroize::zeroize`.
#[verifier::external_body]
pub(crate) fn wipe(s: &mut String)
    ensures
        final(s)@ == Seq::<char>::empty(),
{
    zeroize::Zeroize::zeroize(s);
}

/// One poll attempt's outcome.
#[derive(Debug)]
pub enum PollOutcome {
    /// Not approved yet; keep polling.
    Pending,
    /// GitHub asked the poller to slow down.
    SlowDown,
    /// Approved, with this token.
    Token(String),
    /// Terminal failure.
    Failed(AuthError),
}

/// A token. It has no `Debug` that could print it.
pub struct SecretToken(String);

impl SecretToken {
    /// Wraps a token.
    pub fn new(s: &str) -> (res: Self)
        ensures
            res.expose_spec()@ == s@,
    {
        SecretToken(owned(s))
    }

    /// The token held.
    pub closed spec fn expose_spec(&self) -> String {
        self.0
    }

    /// The token, for the one place that sends it.
    pub fn expose(&self) -> (res: &str)
        ensures
            res@ == self.expose_spec()@,
    {
        self.0.as_str()
    }

    /// What a debug print shows: never the token.
    pub fn debug_text(&self) -> (res: &'static str)
        ensures
            res@ == "SecretToken(***)"@,
    {
        "SecretToken(***)"
    }

    /// Zeroes the token in memory, for when its holder is dropped.
    pub fn wipe(&mut self)
        ensures
            final(self).expose_spec()@ == Seq::<char>::empty(),
    {
        wipe(&mut self.0);
    }
}

// ---------------------------------------------------------------------------
// The device flow's answers
// ---------------------------------------------------------------------------

/// A client id is needed before anything is sent.
pub fn require_client_id(client_id: &str) -> (res: Result<(), AuthError>)
    ensures
        res is Ok <==> trim(client_id@).len() > 0,
        res matches Err(e) ==> e is NoClientId,
{
    let t = trim_str(client_id);
    if t.unicode_len() == 0 { Err(AuthError::NoClientId) } else { Ok(()) }
}

/// Does a device-code answer report the app-wide rate limit?
pub open spec fn device_rate_limited(status: u16, text: Seq<char>) -> bool {
    status == 429 || has_infix(lowercase(text), "rate limit"@)
}

/// The error a device-code answer's `error` field names.
pub open spec fn device_code_error(code: Seq<char>, e: AuthError) -> bool {
    if code == "device_flow_disabled"@ {
        e is DeviceFlowDisabled
    } else if code == "incorrect_client_credentials"@ {
        e is BadClientId
    } else {
        e matches AuthError::Other(m) && m@ == "GitHub rejected the device code request: "@ + code
    }
}

/// Reads the answer to the device-code request: the rate limit first, then
/// the body (`parsed` is its JSON, or the parser's message), an `error`
/// field, and the two codes; missing timings default to GitHub's documented
/// 900 s and 5 s.
pub fn read_device_code(
    status: u16,
    text: &str,
    parsed: Result<&JsonValue, String>,
    endpoints: &OAuthEndpoints,
    client_id: &str,
) -> (res: Result<(DeviceCodeInfo, String), AuthError>)
    ensures
        device_rate_limited(status, text@) ==> (res matches Err(e) && e is RateLimited),
        !device_rate_limited(status, text@) ==> match parsed {
            Err(m) => res matches Err(e) && e matches AuthError::Other(t) && t@ == "unexpected device-code response: "@ + m@,
            Ok(v) => match as_str_spec(field(*v, "error"@)) {
                Some(code) => res matches Err(e) && device_code_error(code, e),
                None => match (as_str_spec(field(*v, "user_code"@)), as_str_spec(field(*v, "device_code"@))) {
                    (None, _) => res matches Err(e) && e matches AuthError::Other(t) && t@ == "device code response had no user_code"@,
                    (Some(_), None) => res matches Err(e) && e matches AuthError::Other(t) && t@ == "device code response had no device_code"@,
                    (Some(u), Some(d)) => res matches Ok((info, code)) && {
                        &&& info.user_code@ == u
                        &&& code@ == d
                        &&& info.verification_uri@ == match as_str_spec(field(*v, "verification_uri"@)) {
                            Some(x) => x,
                            None => endpoints.verification_uri@,
                        }
                        &&& info.expires_in == match as_u64_spec(field(*v, "expires_in"@)) { Some(n) => n, None => 900u64 }
                        &&& info.interval == match as_u64_spec(field(*v, "interval"@)) { Some(n) => n, None => 5u64 }
                        &&& info.client_id@ == client_id@
                    },
                },
            },
        },
{
    let lower = to_lowercase(text);
    if status == 429 || str_contains(lower.as_str(), "rate limit") {
        return Err(AuthError::RateLimited);
    }
    let v = match parsed {
        Ok(v) => v,
        Err(m) => {
            let mut t = owned("unexpected device-code response: ");
            push_str(&mut t, m.as_str());
            return Err(AuthError::Other(t));
        },
    };
    match v.get("error") {
        Some(JsonValue::Str(code)) => {
            if str_eq(code.as_str(), "device_flow_disabled") {
                return Err(AuthError::DeviceFlowDisabled);
            } else if str_eq(code.as_str(), "incorrect_client_credentials") {
                return Err(AuthError::BadClientId);
            } else {
                let mut t = owned("GitHub rejected the device code request: ");
                push_str(&mut t, code.as_str());
                return Err(AuthError::Other(t));
            }
        },
        _ => {},
    }
    let user_code = match v.get("user_code") {
        Some(JsonValue::Str(u)) => u.clone(),
        _ => return Err(AuthError::Other(owned("device code response had no user_code"))),
    };
    let device_code = match v.get("device_code") {
        Some(JsonValue::Str(d)) => d.clone(),
        _ => return Err(AuthError::Other(owned("device code response had no device_code"))),
    };
    let verification_uri = match v.get("verification_uri") {
        Some(JsonValue::Str(x)) => x.clone(),
        _ => endpoints.verification_uri.clone(),
    };
    let expires_in = match v.get("expires_in") {
        Some(n) => match n.as_u64() {
            Some(x) => x,
            None => 900,
        },
        None => 900,
    };
    let interval = match v.get("interval") {
        Some(n) => match n.as_u64() {
            Some(x) => x,
            None => 5,
        },
        None => 5,
    };
    Ok((DeviceCodeInfo { user_code, verification_uri, expires_in, interval, client_id: owned(client_id) }, device_code))
}

/// What an `error` code in a token answer means.
pub open spec fn poll_error_outcome(code: Seq<char>, o: PollOutcome) -> bool {
    if code == "authorization_pending"@ {
        o is Pending
    } else if code == "slow_down"@ {
        o is SlowDown
    } else if code == "expired_token"@ {
        o matches PollOutcome::Failed(e) && e is Expired
    } else if code == "access_denied"@ {
        o matches PollOutcome::Failed(e) && e is Denied
    } else if code == "device_flow_disabled"@ {
        o matches PollOutcome::Failed(e) && e is DeviceFlowDisabled
    } else if code == "incorrect_client_credentials"@ {
        o matches PollOutcome::Failed(e) && e is BadClientId
    } else {
        o matches PollOutcome::Failed(e) && e matches AuthError::Other(m)
            && m@ == "GitHub rejected the token request: "@ + code
    }
}

/// Reads one token answer (`parsed` is its JSON, or the parser's message):
/// a non-empty `access_token` is the token; otherwise its `error` code (none
/// read as the empty code) decides.
pub fn read_poll_response(parsed: Result<&JsonValue, String>) -> (res: PollOutcome)
    ensures
        match parsed {
            Err(m) => res matches PollOutcome::Failed(e) && e matches AuthError::Other(t)
                && t@ == "unexpected token response: "@ + m@,
            Ok(v) => match as_str_spec(field(*v, "access_token"@)) {
                Some(t) if t.len() > 0 => res matches PollOutcome::Token(s) && s@ == t,
                _ => poll_error_outcome(
                    match as_str_spec(field(*v, "error"@)) { Some(c) => c, None => Seq::empty() },
                    res,
                ),
            },
        },
{
    let v = match parsed {
        Ok(v) => v,
        Err(m) => {
            let mut t = owned("unexpected token response: ");
            push_str(&mut t, m.as_str());
            return PollOutcome::Failed(AuthError::Other(t));
        },
    };
    match v.get("access_token") {
        Some(JsonValue::Str(t)) => {
            if t.unicode_len() > 0 {
                return PollOutcome::Token(t.clone());
            }
        },
        _ => {},
    }
    let code: &str = match v.get("error") {
        Some(JsonValue::Str(c)) => c.as_str(),
        _ => "",
    };
    proof {
        reveal_strlit("");
        assert(code@ == match as_str_spec(field(*v, "error"@)) { Some(c) => c, None => Seq::<char>::empty() });
    }
    if str_eq(code, "authorization_pending") {
        PollOutcome::Pending
    } else if str_eq(code, "slow_down") {
        PollOutcome::SlowDown
    } else if str_eq(code, "expired_token") {
        PollOutcome::Failed(AuthError::Expired)
    } else if str_eq(code, "access_denied") {
        PollOutcome::Failed(AuthError::Denied)
    } else if str_eq(code, "device_flow_disabled") {
        PollOutcome::Failed(AuthError::DeviceFlowDisabled)
    } else if str_eq(code, "incorrect_client_credentials") {
        PollOutcome::Failed(AuthError::BadClientId)
    } else {
        let mut t = owned("GitHub rejected the token request: ");
        push_str(&mut t, code);
        PollOutcome::Failed(AuthError::Other(t))
    }
}

/// A poll whose request never got an answer: a timeout or a failed connect
/// keeps the flow alive; anything else ends it.
pub fn poll_transport_failure(transient: bool, message: String) -> (res: PollOutcome)
    ensures
        transient ==> res is Pending,
        !transient ==> (res matches PollOutcome::Failed(e) && e == AuthError::Http(message)),
{
    if transient { PollOutcome::Pending } else { PollOutcome::Failed(AuthError::Http(message)) }
}

// ---------------------------------------------------------------------------
// Accounts
// ---------------------------------------------------------------------------

/// The account a token belongs to.
#[derive(Debug, Clone)]
pub struct Account {
    pub login: String,
    pub name: Option<String>,
    /// Scopes GitHub reported. Fine-grained tokens report none, so an empty
    /// list is not evidence of missing scopes.
    pub scopes: Vec<String>,
}

/// The required scopes, as `REQUIRED_SCOPES` lists them.
pub open spec fn required_scopes() -> Seq<Seq<char>> {
    split_on(REQUIRED_SCOPES@, ' ')
}

/// The items of `needed` absent from `have`, in order.
pub open spec fn absent(needed: Seq<Seq<char>>, have: Seq<Seq<char>>) -> Seq<Seq<char>>
    decreases needed.len(),
{
    if needed.len() == 0 {
        Seq::empty()
    } else {
        let rest = absent(needed.drop_last(), have);
        if have.contains(needed.last()) { rest } else { rest.push(needed.last()) }
    }
}

impl Account {
    /// The required scopes the token lacks; none when it reports no scopes
    /// at all, as such a token's scopes are unknown rather than missing.
    pub fn missing_scopes(&self) -> (res: Vec<String>)
        ensures
            self.scopes@.len() == 0 ==> res@.len() == 0,
            self.scopes@.len() > 0 ==> views(res@) == absent(required_scopes(), views(self.scopes@)),
    {
        let mut out: Vec<String> = Vec::new();
        if self.scopes.len() == 0 {
            return out;
        }
        let cs = str_chars(REQUIRED_SCOPES);
        let parts = split_chars(cs.as_slice(), ' ');
        let ghost ps = parts@.map_values(|v: Vec<char>| v@);
        assert(ps == required_scopes());
        let mut i: usize = 0;
        while i < parts.len()
            invariant
                i <= parts@.len(),
                ps == parts@.map_values(|v: Vec<char>| v@),
                views(out@) == absent(ps.subrange(0, i as int), views(self.scopes@)),
            decreases parts.len() - i,
        {
            let ghost before = out@;
            proof {
                let s = ps.subrange(0, i + 1);
                assert(s.drop_last() =~= ps.subrange(0, i as int));
                assert(s.last() == parts@[i as int]@);
            }
            let name = string_from_chars(parts[i].as_slice());
            if !contains_string(self.scopes.as_slice(), &name) {
                out.push(name);
                assert(views(out@) =~= views(before).push(parts@[i as int]@));
            }
            i = i + 1;
        }
        assert(ps.subrange(0, ps.len() as int) =~= ps);
        out
    }
}

/// Reads the account from `GET /user`: a `login` is required, a `name` is
/// kept when it is a string.
pub fn account_from_user(user: &JsonValue, scopes: Vec<String>) -> (res: Result<Account, AuthError>)
    ensures
        match as_str_spec(field(*user, "login"@)) {
            Some(l) => res matches Ok(a) && a.login@ == l && a.scopes == scopes
                && match as_str_spec(field(*user, "name"@)) {
                    Some(n) => a.name matches Some(x) && x@ == n,
                    None => a.name is None,
                },
            None => res matches Err(e) && e matches AuthError::Other(m) && m@ == "token is not associated with an account"@,
        },
{
    let login = match user.get("login") {
        Some(JsonValue::Str(l)) => l.clone(),
        _ => return Err(AuthError::Other(owned("token is not associated with an account"))),
    };
    let name = match user.get("name") {
        Some(JsonValue::Str(n)) => Some(n.clone()),
        _ => None,
    };
    Ok(Account { login, name, scopes })
}

/// Reads `gh auth token`'s result (its output already decoded): a failed
/// run reports its trimmed stderr, or a hint when that is empty; an empty
/// token is an error too.
pub fn gh_token_from_output(success: bool, stdout: &str, stderr: &str) -> (res: Result<String, AuthError>)
    ensures
        !success ==> (res matches Err(e) && e matches AuthError::Other(m) && m@ == if trim(stderr@).len() == 0 {
            "`gh auth token` failed; run `gh auth login` first"@
        } else {
            trim(stderr@)
        }),
        success && trim(stdout@).len() == 0 ==> (res matches Err(e) && e matches AuthError::Other(m)
            && m@ == "`gh auth token` returned nothing; run `gh auth login` first"@),
        success && trim(stdout@).len() > 0 ==> (res matches Ok(t) && t@ == trim(stdout@)),
{
    if !success {
        let err = trim_str(stderr);
        if err.unicode_len() == 0 {
            return Err(AuthError::Other(owned("`gh auth token` failed; run `gh auth login` first")));
        }
        return Err(AuthError::Other(err));
    }
    let token = trim_str(stdout);
    if token.unicode_len() == 0 {
        return Err(AuthError::Other(owned("`gh auth token` returned nothing; run `gh auth login` first")));
    }
    Ok(token)
}

/// How the current session was established.
#[derive(Debug, Clone, Copy, PartialEq, Eq, Structural)]
pub enum AuthMethod {
    DeviceFlow,
    PersonalAccessToken,
    GhCli,
}

/// The label a sign-in method is shown with.
pub open spec fn method_label(m: AuthMethod) -> Seq<char> {
    match m {
        AuthMethod::DeviceFlow => "GitHub device flow"@,
        AuthMethod::PersonalAccessToken => "Personal access token"@,
        AuthMethod::GhCli => "Imported from the gh CLI"@,
    }
}

impl AuthMethod {
    /// The human-readable label of the method.
    pub fn label(&self) -> (res: &'static str)
        ensures
            res@ == method_label(*self),
    {
        match self {
            AuthMethod::DeviceFlow => "GitHub device flow",
            AuthMethod::PersonalAccessToken => "Personal access token",
            AuthMethod::GhCli => "Imported from the gh CLI",
        }
    }
}

} // verus!

verus! {

/// Once the window is over nothing is left of it, and before that what is
/// left never reaches past its end.
pub proof fn lemma_window_consistent(expires_in: u64, secs: u64, nanos: u32)
    requires
        nanos < 1_000_000_000,
    ensures
        window_over(expires_in, secs, nanos) ==> window_left(expires_in, secs, nanos) == 0,
        !window_over(expires_in, secs, nanos) ==> window_left(expires_in, secs, nanos) + secs <= expires_in,
        nanos == 0 && !window_over(expires_in, secs, nanos) ==> window_left(expires_in, secs, nanos) + secs == expires_in,
{
}

/// The scopes reported missing are exactly the required ones the token
/// lacks, in the order they are required.
pub proof fn lemma_absent_is_exact(needed: Seq<Seq<char>>, have: Seq<Seq<char>>)
    ensures
        forall|x: Seq<char>| #[trigger] absent(needed, have).contains(x) <==> (needed.contains(x) && !have.contains(x)),
    decreases needed.len(),
{
    if needed.len() > 0 {
        let rest = needed.drop_last();
        lemma_absent_is_exact(rest, have);
        let r = absent(needed, have);
        let b = absent(rest, have);
        assert forall|x: Seq<char>| #[trigger] r.contains(x) <==> (needed.contains(x) && !have.contains(x)) by {
            if r.contains(x) {
                let k = choose|k: int| 0 <= k < r.len() && r[k] == x;
                if k < b.len() {
                    assert(b[k] == x);
                    assert(b.contains(x));
                    let j = choose|j: int| 0 <= j < rest.len() && rest[j] == x;
                    assert(needed[j] == x);
                } else {
                    assert(needed[needed.len() - 1] == x);
                }
            }
            if needed.contains(x) && !have.contains(x) {
                let j = choose|j: int| 0 <= j < needed.len() && needed[j] == x;
                if j < needed.len() - 1 {
                    assert(rest[j] == x);
                    assert(b.contains(x));
                    let k = choose|k: int| 0 <= k < b.len() && b[k] == x;
                    assert(r[k] == x);
                } else {
                    assert(r[r.len() - 1] == x);
                }
            }
        }
    }
}

} // verus!
