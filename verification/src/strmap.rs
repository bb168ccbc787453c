//! A map keyed by strings that keeps its keys in code point order, as
//! `BTreeMap<String, V>` does.

use vstd::prelude::*;
use crate::text::{lex_le, lemma_lex_antisym, lemma_lex_total, lemma_lex_trans, string_le, str_chars, chars_eq};

verus! {

/// `a` sorts strictly before `b`.
pub open spec fn lex_lt(a: Seq<char>, b: Seq<char>) -> bool {
    lex_le(a, b) && a != b
}

pub proof fn lemma_lex_lt_trans(a: Seq<char>, b: Seq<char>, c: Seq<char>)
    requires
        lex_le(a, b),
        lex_lt(b, c),
    ensures
        lex_lt(a, c),
{
    lemma_lex_trans(a, b, c);
    if a == c {
        lemma_lex_antisym(b, c);
    }
}

/// Are the keys of `entries` strictly increasing?
pub open spec fn strictly_sorted<V>(entries: Seq<(String, V)>) -> bool {
    forall|i: int, j: int| 0 <= i < j < entries.len() ==> lex_lt(#[trigger] entries[i].0@, #[trigger] entries[j].0@)
}

/// `entries` lists exactly the contents of `contents`, keys ascending.
pub closed spec fn consistent<V>(entries: Seq<(String, V)>, contents: Map<Seq<char>, V>) -> bool {
    &&& strictly_sorted(entries)
    &&& forall|i: int| 0 <= i < entries.len() ==> #[trigger] contents.contains_key(entries[i].0@)
        && contents[entries[i].0@] == entries[i].1
    &&& forall|k: Seq<char>| #[trigger] contents.contains_key(k) ==> exists|i: int| 0 <= i < entries.len()
        && entries[i].0@ == k
}

/// A string-keyed map, iterated in key order.
pub struct StrMap<V> {
    entries: Vec<(String, V)>,
    contents: Ghost<Map<Seq<char>, V>>,
}

impl<V> View for StrMap<V> {
    type V = Map<Seq<char>, V>;

    closed spec fn view(&self) -> Map<Seq<char>, V> {
        self.contents@
    }
}

impl<V> StrMap<V> {
    #[verifier::type_invariant]
    closed spec fn inv(self) -> bool {
        consistent(self.entries@, self.contents@)
    }

    /// The entries in key order.
    pub closed spec fn ordered(self) -> Seq<(String, V)> {
        self.entries@
    }

    /// The ordered entries hold exactly the map's contents, keys ascending.
    proof fn lemma_ordered(&self)
        requires
            self.inv(),
        ensures
            strictly_sorted(self.ordered()),
            self.ordered().len() == self@.dom().len(),
            self@.dom().finite(),
            forall|i: int| 0 <= i < self.ordered().len() ==> #[trigger] self@.contains_key(self.ordered()[i].0@)
                && self@[self.ordered()[i].0@] == self.ordered()[i].1,
            forall|k: Seq<char>| #[trigger] self@.contains_key(k) ==> exists|i: int| 0 <= i < self.ordered().len()
                && self.ordered()[i].0@ == k,
    {
        let keys = self.entries@.map_values(|e: (String, V)| e.0@);
        assert(keys.no_duplicates()) by {
            assert forall|i: int, j: int| 0 <= i < keys.len() && 0 <= j < keys.len() && i != j implies keys[i] != keys[j] by {
                if i < j {
                    assert(lex_lt(self.entries@[i].0@, self.entries@[j].0@));
                } else {
                    assert(lex_lt(self.entries@[j].0@, self.entries@[i].0@));
                }
            }
        }
        assert(keys.to_set() =~= self@.dom()) by {
            assert forall|k: Seq<char>| keys.to_set().contains(k) <==> self@.dom().contains(k) by {
                if self@.dom().contains(k) {
                    assert(self@.contains_key(k));
                    let i = choose|i: int| 0 <= i < self.entries@.len() && self.entries@[i].0@ == k;
                    assert(keys[i] == k);
                }
                if keys.to_set().contains(k) {
                    let i = choose|i: int| 0 <= i < keys.len() && keys[i] == k;
                    assert(self@.contains_key(self.entries@[i].0@));
                }
            }
        }
        keys.unique_seq_to_set();
    }

    /// An empty map.
    pub fn new() -> (res: Self)
        ensures
            res@ == Map::<Seq<char>, V>::empty(),
    {
        StrMap { entries: Vec::new(), contents: Ghost(Map::empty()) }
    }

    /// The number of entries.
    pub fn len(&self) -> (res: usize)
        ensures
            res == self@.dom().len(),
    {
        proof {
            use_type_invariant(self);
            self.lemma_ordered();
        }
        self.entries.len()
    }

    /// The entries, in key order.
    pub fn entries(&self) -> (res: &Vec<(String, V)>)
        ensures
            res@ == self.ordered(),
            strictly_sorted(res@),
            res@.len() == self@.dom().len(),
            self@.dom().finite(),
            forall|i: int| 0 <= i < res@.len() ==> #[trigger] self@.contains_key(res@[i].0@)
                && self@[res@[i].0@] == res@[i].1,
            forall|k: Seq<char>| #[trigger] self@.contains_key(k) ==> exists|i: int| 0 <= i < res@.len()
                && res@[i].0@ == k,
    {
        proof {
            use_type_invariant(self);
            self.lemma_ordered();
            assert forall|i: int| 0 <= i < self.entries@.len() implies #[trigger] self@.contains_key(self.entries@[i].0@)
                && self@[self.entries@[i].0@] == self.entries@[i].1 by {
                assert(self.contents@.contains_key(self.entries@[i].0@));
            }
        }
        &self.entries
    }

    /// The position of `key` among the entries, if it is there.
    fn position(&self, key: &str) -> (res: Option<usize>)
        ensures
            match res {
                Some(i) => i < self.ordered().len() && self.ordered()[i as int].0@ == key@,
                None => !self@.contains_key(key@),
            },
    {
        proof { use_type_invariant(self); }
        let k = str_chars(key);
        let mut i: usize = 0;
        while i < self.entries.len()
            invariant
                i <= self.entries@.len(),
                k@ == key@,
                forall|j: int| 0 <= j < i ==> self.entries@[j].0@ != key@,
            decreases self.entries.len() - i,
        {
            let name = str_chars(self.entries[i].0.as_str());
            if chars_eq(name.as_slice(), k.as_slice()) {
                return Some(i);
            }
            i = i + 1;
        }
        proof {
            if self@.contains_key(key@) {
                let j = choose|j: int| 0 <= j < self.entries@.len() && self.entries@[j].0@ == key@;
                assert(self.entries@[j].0@ != key@);
            }
        }
        None
    }

    /// The value for `key`.
    pub fn get(&self, key: &str) -> (res: Option<&V>)
        ensures
            match res {
                Some(v) => self@.contains_key(key@) && self@[key@] == *v,
                None => !self@.contains_key(key@),
            },
    {
        proof { use_type_invariant(self); }
        match self.position(key) {
            Some(i) => {
                assert(self@.contains_key(self.entries@[i as int].0@));
                Some(&self.entries[i].1)
            },
            None => None,
        }
    }

    /// Is `key` present?
    pub fn contains_key(&self, key: &str) -> (res: bool)
        ensures
            res == self@.contains_key(key@),
    {
        self.get(key).is_some()
    }

    /// Sets `key` to `value`, replacing any earlier value.
    #[verifier::rlimit(40)]
    pub fn insert(&mut self, key: String, value: V)
        ensures
            final(self)@ == old(self)@.insert(key@, value),
    {
        proof { use_type_invariant(&*self); }
        let ghost old_map = self@;
        let mut taken = StrMap::new();
        std::mem::swap(self, &mut taken);
        proof { use_type_invariant(&taken); }
        assert(taken@ == old_map);
        let StrMap { entries, contents } = taken;
        let mut entries = entries;
        let ghost old_entries = entries@;
        let mut p: usize = 0;
        while p < entries.len() && string_le(&entries[p].0, &key) && !(entries[p].0 == key)
            invariant
                p <= entries@.len(),
                entries@ == old_entries,
                forall|q: int| 0 <= q < p ==> lex_lt(#[trigger] entries@[q].0@, key@),
            decreases entries.len() - p,
        {
            p = p + 1;
        }
        let ghost new_map = contents@.insert(key@, value);
        if p < entries.len() && entries[p].0 == key {
            let _ = entries.remove(p);
            entries.insert(p, (key, value));
            proof {
                assert forall|i: int| 0 <= i < entries@.len() implies #[trigger] new_map.contains_key(entries@[i].0@)
                    && new_map[entries@[i].0@] == entries@[i].1 by {
                    if i != p {
                        assert(entries@[i] == old_entries[i]);
                        assert(contents@.contains_key(old_entries[i].0@));
                        assert(old_entries[i].0@ != old_entries[p as int].0@) by {
                            if i < p { assert(lex_lt(old_entries[i].0@, old_entries[p as int].0@)); }
                            else { assert(lex_lt(old_entries[p as int].0@, old_entries[i].0@)); }
                        }
                    }
                }
                assert forall|k: Seq<char>| #[trigger] new_map.contains_key(k) implies exists|i: int| 0 <= i < entries@.len()
                    && entries@[i].0@ == k by {
                    if k != key@ {
                        assert(contents@.contains_key(k));
                        let i = choose|i: int| 0 <= i < old_entries.len() && old_entries[i].0@ == k;
                        assert(entries@[i] == old_entries[i] || i == p);
                    } else {
                        assert(entries@[p as int].0@ == k);
                    }
                }
                assert(strictly_sorted(entries@)) by {
                    assert forall|i: int, j: int| 0 <= i < j < entries@.len() implies lex_lt(#[trigger] entries@[i].0@, #[trigger] entries@[j].0@) by {
                        assert(entries@[i].0@ == old_entries[i].0@);
                        assert(entries@[j].0@ == old_entries[j].0@);
                    }
                }
            }
            assert(consistent(entries@, new_map));
            *self = StrMap { entries, contents: Ghost(new_map) };
        } else {
            proof {
                if p < entries@.len() {
                    lemma_lex_total(entries@[p as int].0@, key@);
                }
            }
            entries.insert(p, (key, value));
            proof {
                assert(!contents@.contains_key(key@)) by {
                    if contents@.contains_key(key@) {
                        let i = choose|i: int| 0 <= i < old_entries.len() && old_entries[i].0@ == key@;
                        if i < p {
                            assert(lex_lt(old_entries[i].0@, key@));
                        } else if i == p {
                        } else {
                            assert(lex_lt(old_entries[p as int].0@, old_entries[i].0@));
                            lemma_lex_antisym(old_entries[p as int].0@, key@);
                        }
                    }
                }
                assert forall|i: int| 0 <= i < entries@.len() implies #[trigger] new_map.contains_key(entries@[i].0@)
                    && new_map[entries@[i].0@] == entries@[i].1 by {
                    if i < p {
                        assert(entries@[i] == old_entries[i]);
                        assert(contents@.contains_key(old_entries[i].0@));
                    } else if i > p {
                        assert(entries@[i] == old_entries[i - 1]);
                        assert(contents@.contains_key(old_entries[i - 1].0@));
                    }
                }
                assert forall|k: Seq<char>| #[trigger] new_map.contains_key(k) implies exists|i: int| 0 <= i < entries@.len()
                    && entries@[i].0@ == k by {
                    if k != key@ {
                        assert(contents@.contains_key(k));
                        let i = choose|i: int| 0 <= i < old_entries.len() && old_entries[i].0@ == k;
                        if i < p {
                            assert(entries@[i] == old_entries[i]);
                        } else {
                            assert(entries@[i + 1] == old_entries[i]);
                        }
                    } else {
                        assert(entries@[p as int].0@ == k);
                    }
                }
                assert(strictly_sorted(entries@)) by {
                    assert forall|i: int, j: int| 0 <= i < j < entries@.len() implies lex_lt(#[trigger] entries@[i].0@, #[trigger] entries@[j].0@) by {
                        if j < p {
                            assert(entries@[i] == old_entries[i]);
                            assert(entries@[j] == old_entries[j]);
                        } else if j == p {
                            assert(entries@[i] == old_entries[i]);
                        } else if i < p {
                            assert(entries@[i] == old_entries[i]);
                            assert(entries@[j] == old_entries[j - 1]);
                            if p < j - 1 {
                                assert(lex_lt(old_entries[p as int].0@, old_entries[j - 1].0@));
                                lemma_lex_lt_trans(key@, old_entries[p as int].0@, old_entries[j - 1].0@);
                            }
                            lemma_lex_lt_trans(old_entries[i].0@, key@, old_entries[j - 1].0@);
                        } else if i == p {
                            assert(entries@[j] == old_entries[j - 1]);
                            if p < j - 1 {
                                assert(lex_lt(old_entries[p as int].0@, old_entries[j - 1].0@));
                                lemma_lex_lt_trans(key@, old_entries[p as int].0@, old_entries[j - 1].0@);
                            }
                        } else {
                            assert(entries@[i] == old_entries[i - 1]);
                            assert(entries@[j] == old_entries[j - 1]);
                        }
                    }
                }
            }
            assert(consistent(entries@, new_map));
            *self = StrMap { entries, contents: Ghost(new_map) };
        }
    }
}

} // verus!
