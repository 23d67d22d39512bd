//! A small string-to-string table: the interface strings and infobox labels.
//!
//! Each key appears once; the table is read as the map from keys to values.

use vstd::prelude::*;

use crate::text::str_eq;

verus! {

/// Key/value pairs with no key repeated.
#[derive(Debug)]
pub struct StringTable {
    entries: Vec<(String, String)>,
}

/// The map a list of pairs describes, later pairs taking precedence.
pub open spec fn pairs_map(s: Seq<(String, String)>) -> Map<Seq<char>, Seq<char>>
    decreases s.len(),
{
    if s.len() == 0 {
        Map::empty()
    } else {
        pairs_map(s.drop_last()).insert(s.last().0@, s.last().1@)
    }
}

pub open spec fn keys_distinct(s: Seq<(String, String)>) -> bool {
    forall|i: int, j: int| 0 <= i < j < s.len() ==> s[i].0@ != s[j].0@
}

/// What `pairs_map` holds: exactly the keys listed, each with its own value.
pub proof fn lemma_pairs_map(s: Seq<(String, String)>)
    requires
        keys_distinct(s),
    ensures
        pairs_map(s).dom().finite(),
        pairs_map(s).dom().len() == s.len(),
        forall|k: Seq<char>| #[trigger] pairs_map(s).contains_key(k) <==> exists|i: int| 0 <= i < s.len() && s[i].0@ == k,
        forall|i: int| 0 <= i < s.len() ==> #[trigger] pairs_map(s)[s[i].0@] == s[i].1@,
    decreases s.len(),
{
    if s.len() > 0 {
        let t = s.drop_last();
        assert(keys_distinct(t));
        lemma_pairs_map(t);
        let k = s.last().0@;
        assert(!pairs_map(t).contains_key(k)) by {
            if pairs_map(t).contains_key(k) {
                let i = choose|i: int| 0 <= i < t.len() && t[i].0@ == k;
                assert(s[i].0@ == s[s.len() - 1].0@);
            }
        }
        assert forall|kk: Seq<char>| #[trigger] pairs_map(s).contains_key(kk) <==> exists|i: int| 0 <= i < s.len() && s[i].0@ == kk by {
            if pairs_map(s).contains_key(kk) && kk != k {
                let i = choose|i: int| 0 <= i < t.len() && t[i].0@ == kk;
                assert(s[i].0@ == kk);
            }
            if kk == k {
                assert(s[s.len() - 1].0@ == kk);
            }
            if exists|i: int| 0 <= i < s.len() && s[i].0@ == kk {
                let i = choose|i: int| 0 <= i < s.len() && s[i].0@ == kk;
                if i < s.len() - 1 {
                    assert(t[i].0@ == kk);
                }
            }
        }
        assert forall|i: int| 0 <= i < s.len() implies #[trigger] pairs_map(s)[s[i].0@] == s[i].1@ by {
            if i < s.len() - 1 {
                assert(t[i] == s[i]);
                assert(s[i].0@ != k);
            }
        }
    }
}

impl StringTable {
    #[verifier::type_invariant]
    spec fn wf(self) -> bool {
        keys_distinct(self.entries@)
    }

    /// Position of `key`, if it is present.
    fn position(&self, key: &str) -> (r: Option<usize>)
        ensures
            r matches Some(i) ==> i < self.entries@.len() && self.entries@[i as int].0@ == key@,
            r is None ==> forall|i: int| 0 <= i < self.entries@.len() ==> self.entries@[i].0@ != key@,
    {
        let mut i: usize = 0;
        while i < self.entries.len()
            invariant
                i <= self.entries@.len(),
                forall|x: int| 0 <= x < i ==> self.entries@[x].0@ != key@,
            decreases self.entries@.len() - i,
        {
            if str_eq(self.entries[i].0.as_str(), key) {
                return Some(i);
            }
            i = i + 1;
        }
        None
    }

    /// An empty table.
    pub fn new() -> (t: Self)
        ensures
            t@ == Map::<Seq<char>, Seq<char>>::empty(),
    {
        StringTable { entries: Vec::new() }
    }

    /// The value stored under `key`.
    pub fn get(&self, key: &str) -> (r: Option<&str>)
        ensures
            r is Some <==> self@.contains_key(key@),
            r matches Some(v) ==> v@ == self@[key@],
    {
        proof {
            use_type_invariant(self);
            lemma_pairs_map(self.entries@);
        }
        match self.position(key) {
            Some(i) => Some(self.entries[i].1.as_str()),
            None => None,
        }
    }

    /// Whether `key` has a value.
    pub fn contains_key(&self, key: &str) -> (r: bool)
        ensures
            r == self@.contains_key(key@),
    {
        proof {
            use_type_invariant(self);
            lemma_pairs_map(self.entries@);
        }
        self.position(key).is_some()
    }

    /// How many keys have a value.
    pub fn len(&self) -> (r: usize)
        ensures
            r == self@.dom().len(),
    {
        proof {
            use_type_invariant(self);
            lemma_pairs_map(self.entries@);
        }
        self.entries.len()
    }

    /// Store `value` under `key`, replacing what was there.
    pub fn insert(&mut self, key: String, value: String)
        ensures
            final(self)@ == old(self)@.insert(key@, value@),
    {
        proof {
            use_type_invariant(&*self);
            lemma_pairs_map(self.entries@);
        }
        let ghost before = self.entries@;
        match self.position(key.as_str()) {
            Some(i) => {
                let mut entries: Vec<(String, String)> = Vec::new();
                std::mem::swap(&mut entries, &mut self.entries);
                entries.set(i, (key, value));
                proof {
                    let after = entries@;
                    assert(keys_distinct(after));
                    lemma_pairs_map(after);
                    assert(pairs_map(after) =~= pairs_map(before).insert(key@, value@)) by {
                        assert forall|k: Seq<char>| pairs_map(after).contains_key(k) <==> pairs_map(before).insert(key@, value@).contains_key(k) by {
                            if exists|x: int| 0 <= x < after.len() && after[x].0@ == k {
                                let x = choose|x: int| 0 <= x < after.len() && after[x].0@ == k;
                                if x != i {
                                    assert(before[x].0@ == k);
                                }
                            }
                            if exists|x: int| 0 <= x < before.len() && before[x].0@ == k {
                                let x = choose|x: int| 0 <= x < before.len() && before[x].0@ == k;
                                if x != i {
                                    assert(after[x].0@ == k);
                                } else {
                                    assert(after[i as int].0@ == k);
                                }
                            }
                            if k == key@ {
                                assert(after[i as int].0@ == k);
                            }
                        }
                        assert forall|k: Seq<char>| #[trigger] pairs_map(after).contains_key(k) implies pairs_map(after)[k] == pairs_map(before).insert(key@, value@)[k] by {
                            let x = choose|x: int| 0 <= x < after.len() && after[x].0@ == k;
                            assert(pairs_map(after)[after[x].0@] == after[x].1@);
                            if x != i {
                                assert(before[x] == after[x]);
                                assert(pairs_map(before)[before[x].0@] == before[x].1@);
                            }
                        }
                    }
                }
                self.entries = entries;
            },
            None => {
                let mut entries: Vec<(String, String)> = Vec::new();
                std::mem::swap(&mut entries, &mut self.entries);
                entries.push((key, value));
                proof {
                    let after = entries@;
                    assert(after.drop_last() =~= before);
                }
                self.entries = entries;
            },
        }
    }

    /// Store `value` under `key` only when `key` has no value yet.
    pub fn insert_if_absent(&mut self, key: String, value: String)
        ensures
            final(self)@ == (if old(self)@.contains_key(key@) {
                old(self)@
            } else {
                old(self)@.insert(key@, value@)
            }),
    {
        if !self.contains_key(key.as_str()) {
            self.insert(key, value);
        }
    }

    /// The keys, each once, in the order they were first stored.
    pub fn keys(&self) -> (r: Vec<String>)
        ensures
            r@.len() == self@.dom().len(),
            forall|i: int| 0 <= i < r@.len() ==> #[trigger] self@.contains_key(r@[i]@),
            forall|k: Seq<char>| #[trigger] self@.contains_key(k) ==> exists|i: int| 0 <= i < r@.len() && r@[i]@ == k,
            forall|i: int, j: int| 0 <= i < j < r@.len() ==> r@[i]@ != r@[j]@,
    {
        proof {
            use_type_invariant(self);
            lemma_pairs_map(self.entries@);
        }
        let mut out: Vec<String> = Vec::new();
        let mut i: usize = 0;
        while i < self.entries.len()
            invariant
                i <= self.entries@.len(),
                out@.len() == i,
                forall|x: int| 0 <= x < i ==> out@[x] == self.entries@[x].0,
            decreases self.entries@.len() - i,
        {
            out.push(self.entries[i].0.clone());
            i = i + 1;
        }
        proof {
            assert forall|k: Seq<char>| #[trigger] self@.contains_key(k) implies exists|x: int| 0 <= x < out@.len() && out@[x]@ == k by {
                let x = choose|x: int| 0 <= x < self.entries@.len() && self.entries@[x].0@ == k;
                assert(out@[x]@ == k);
            }
            assert forall|x: int| 0 <= x < out@.len() implies #[trigger] self@.contains_key(out@[x]@) by {
                assert(self.entries@[x].0@ == out@[x]@);
            }
        }
        out
    }

    /// The value stored under `key`, as an owned string.
    pub fn value_of(&self, key: &str) -> (r: Option<String>)
        ensures
            r is Some <==> self@.contains_key(key@),
            r matches Some(v) ==> v@ == self@[key@],
    {
        match self.get(key) {
            Some(v) => Some(v.to_owned()),
            None => None,
        }
    }
}

impl View for StringTable {
    type V = Map<Seq<char>, Seq<char>>;

    closed spec fn view(&self) -> Map<Seq<char>, Seq<char>> {
        pairs_map(self.entries@)
    }
}

impl Clone for StringTable {
    fn clone(&self) -> (r: Self)
        ensures
            r@ == self@,
    {
        proof {
            use_type_invariant(self);
        }
        let mut entries: Vec<(String, String)> = Vec::new();
        let mut i: usize = 0;
        while i < self.entries.len()
            invariant
                i <= self.entries@.len(),
                entries@.len() == i,
                forall|x: int| 0 <= x < i ==> entries@[x] == self.entries@[x],
            decreases self.entries@.len() - i,
        {
            let k = self.entries[i].0.clone();
            let v = self.entries[i].1.clone();
            entries.push((k, v));
            i = i + 1;
        }
        assert(entries@ =~= self.entries@);
        StringTable { entries }
    }
}

} // verus!
