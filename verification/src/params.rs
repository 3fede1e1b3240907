//! A map from parameter names to values, as the header parsers fill it.

use vstd::prelude::*;

verus! {

/// Parameter names mapped to values. Inserting a name that is present
/// replaces its value; every name occurs once.
#[derive(Debug)]
pub struct ParamMap {
    entries: Vec<(String, String)>,
}

impl ParamMap {
    spec fn key_at(self, i: int) -> Seq<char> {
        self.entries@[i].0@
    }

    spec fn has_key(self, k: Seq<char>) -> bool {
        exists|i: int| 0 <= i < self.entries@.len() && self.key_at(i) == k
    }

    #[verifier::type_invariant]
    spec fn keys_distinct(self) -> bool {
        forall|i: int, j: int|
            0 <= i < self.entries@.len() && 0 <= j < self.entries@.len() && i != j ==> self.key_at(
                i,
            ) != self.key_at(j)
    }

    /// The number of names in the map.
    pub closed spec fn spec_len(self) -> nat {
        self.entries@.len()
    }

    /// An empty map.
    pub fn new() -> (m: ParamMap)
        ensures
            m@ == Map::<Seq<char>, Seq<char>>::empty(),
    {
        let m = ParamMap { entries: Vec::new() };
        assert(m@ =~= Map::<Seq<char>, Seq<char>>::empty());
        m
    }

    /// Position of `key` among the entries.
    fn position(&self, key: &String) -> (r: Option<usize>)
        ensures
            match r {
                Some(i) => i < self.entries@.len() && self.key_at(i as int) == key@,
                None => !self.has_key(key@),
            },
    {
        let mut i: usize = 0;
        while i < self.entries.len()
            invariant
                i <= self.entries@.len(),
                forall|j: int| 0 <= j < i ==> self.key_at(j) != key@,
            decreases self.entries.len() - i,
        {
            if self.entries[i].0 == *key {
                return Some(i);
            }
            i += 1;
        }
        None
    }

    /// The value of `name`, if the map holds it.
    pub fn get(&self, name: &str) -> (r: Option<&str>)
        ensures
            match r {
                Some(v) => self@.contains_key(name@) && self@[name@] == v@,
                None => !self@.contains_key(name@),
            },
    {
        proof {
            use_type_invariant(self);
        }
        let key = name.to_owned();
        match self.position(&key) {
            Some(i) => {
                proof {
                    assert(self.has_key(name@));
                    let c = choose|j: int| 0 <= j < self.entries@.len() && self.key_at(j) == name@;
                    assert(c == i);
                }
                Some(self.entries[i].1.as_str())
            },
            None => None,
        }
    }

    /// Maps `key` to `value`, replacing any value it had.
    pub fn insert(&mut self, key: String, value: String)
        ensures
            final(self)@ == old(self)@.insert(key@, value@),
    {
        proof {
            use_type_invariant(&*self);
        }
        let ghost before = *self;
        let ghost k0 = key@;
        let ghost v0 = value@;
        let pos = self.position(&key);
        let mut entries = Vec::new();
        std::mem::swap(&mut entries, &mut self.entries);
        assert(entries@ == before.entries@);
        match pos {
            Some(i) => {
                entries.set(i, (key, value));
            },
            None => {
                entries.push((key, value));
            },
        }
        let ghost after = ParamMap { entries };
        proof {
            let n = before.entries@.len();
            assert forall|a: int, b: int|
                0 <= a < after.entries@.len() && 0 <= b < after.entries@.len() && a != b implies
                after.key_at(a) != after.key_at(b) by {
                match pos {
                    Some(i) => {
                        if a == i {
                            assert(after.key_at(b) == before.key_at(b));
                        } else if b == i {
                            assert(after.key_at(a) == before.key_at(a));
                        } else {
                            assert(after.key_at(a) == before.key_at(a));
                            assert(after.key_at(b) == before.key_at(b));
                        }
                    },
                    None => {
                        if a == n {
                            assert(after.key_at(b) == before.key_at(b));
                            assert(before.key_at(b) != k0);
                        } else if b == n {
                            assert(after.key_at(a) == before.key_at(a));
                            assert(before.key_at(a) != k0);
                        } else {
                            assert(after.key_at(a) == before.key_at(a));
                            assert(after.key_at(b) == before.key_at(b));
                        }
                    },
                }
            }
            assert forall|k: Seq<char>| after.has_key(k) == (before.has_key(k) || k == k0) by {
                if before.has_key(k) {
                    let j = choose|j: int| 0 <= j < n && before.key_at(j) == k;
                    if pos is Some && j == pos->0 {
                        assert(k == k0);
                    } else {
                        assert(after.key_at(j) == k);
                    }
                }
                if k == k0 {
                    match pos {
                        Some(i) => assert(after.key_at(i as int) == k0),
                        None => assert(after.key_at(n as int) == k0),
                    }
                }
                if after.has_key(k) {
                    let j = choose|j: int| 0 <= j < after.entries@.len() && after.key_at(j) == k;
                    if j < n && k != k0 {
                        assert(before.key_at(j) == k);
                    }
                }
            }
            assert forall|k: Seq<char>| #[trigger] after@.contains_key(k) implies after@[k]
                == before@.insert(k0, v0)[k] by {
                let j = choose|j: int| 0 <= j < after.entries@.len() && after.key_at(j) == k;
                if k != k0 {
                    assert(before.key_at(j) == k);
                    let jb = choose|jb: int| 0 <= jb < n && before.key_at(jb) == k;
                    assert(jb == j);
                } else {
                    match pos {
                        Some(i) => {
                            assert(after.key_at(i as int) == k0);
                            assert(j == i);
                        },
                        None => {
                            assert(after.key_at(n as int) == k0);
                            assert(j == n);
                        },
                    }
                }
            }
            assert(after@ =~= before@.insert(k0, v0));
        }
        self.entries = entries;
    }

    /// The `(name, value)` pairs of the map, each name once.
    pub fn to_pairs(&self) -> (pairs: Vec<(String, String)>)
        ensures
            pairs@.len() == self@.dom().len(),
            forall|i: int|
                0 <= i < pairs@.len() ==> self@.contains_key(#[trigger] pairs@[i].0@) && self@[pairs@[i].0@]
                    == pairs@[i].1@,
            forall|k: Seq<char>|
                #[trigger] self@.contains_key(k) ==> exists|i: int| 0 <= i < pairs@.len() && pairs@[i].0@ == k,
    {
        proof {
            use_type_invariant(self);
            self.lemma_dom_len();
        }
        let mut pairs: Vec<(String, String)> = Vec::new();
        let mut i: usize = 0;
        while i < self.entries.len()
            invariant
                i <= self.entries@.len(),
                self.keys_distinct(),
                pairs@ == self.entries@.take(i as int),
            decreases self.entries.len() - i,
        {
            pairs.push((self.entries[i].0.clone(), self.entries[i].1.clone()));
            assert(pairs@ =~= self.entries@.take(i + 1));
            i += 1;
        }
        assert(pairs@ =~= self.entries@);
        assert forall|i: int| 0 <= i < pairs@.len() implies self@.contains_key(#[trigger] pairs@[i].0@)
            && self@[pairs@[i].0@] == pairs@[i].1@ by {
            assert(self.key_at(i) == pairs@[i].0@);
            assert(self.has_key(pairs@[i].0@));
            let c = choose|c: int| 0 <= c < self.entries@.len() && self.key_at(c) == pairs@[i].0@;
            assert(c == i);
        }
        assert forall|k: Seq<char>| #[trigger] self@.contains_key(k) implies exists|i: int|
            0 <= i < pairs@.len() && pairs@[i].0@ == k by {
            let j = choose|j: int| 0 <= j < self.entries@.len() && self.key_at(j) == k;
            assert(pairs@[j].0@ == k);
        }
        pairs
    }

    /// The number of names in the map.
    pub fn len(&self) -> (n: usize)
        ensures
            n == self@.dom().len(),
    {
        proof {
            use_type_invariant(self);
            self.lemma_dom_len();
        }
        self.entries.len()
    }

    proof fn lemma_dom_len(self)
        requires
            self.keys_distinct(),
        ensures
            self@.dom().len() == self.entries@.len(),
            self@.dom().finite(),
        decreases self.entries@.len(),
    {
        let n = self.entries@.len();
        if n == 0 {
            assert(self@.dom() =~= Set::<Seq<char>>::empty());
        } else {
            let keys = Seq::new(n, |i: int| self.key_at(i));
            assert(keys.no_duplicates());
            keys.unique_seq_to_set();
            assert(self@.dom() =~= keys.to_set()) by {
                assert forall|k: Seq<char>| self@.dom().contains(k) implies keys.to_set().contains(
                    k,
                ) by {
                    let j = choose|j: int| 0 <= j < n && self.key_at(j) == k;
                    assert(keys[j] == k);
                }
                assert forall|k: Seq<char>| keys.to_set().contains(k) implies self@.dom().contains(
                    k,
                ) by {
                    let j = choose|j: int| 0 <= j < n && keys[j] == k;
                    assert(self.key_at(j) == k);
                }
            }
        }
    }
}

impl Clone for ParamMap {
    fn clone(&self) -> (r: ParamMap)
        ensures
            r@ == self@,
    {
        proof {
            use_type_invariant(self);
        }
        let mut entries: Vec<(String, String)> = Vec::new();
        let mut i: usize = 0;
        while i < self.entries.len()
            invariant
                i <= self.entries@.len(),
                entries@ == self.entries@.take(i as int),
            decreases self.entries.len() - i,
        {
            let k = self.entries[i].0.clone();
            let v = self.entries[i].1.clone();
            entries.push((k, v));
            assert(entries@ =~= self.entries@.take(i + 1));
            i += 1;
        }
        assert(entries@ =~= self.entries@);
        assert(self.keys_distinct());
        assert(forall|a: int, b: int|
            0 <= a < entries@.len() && 0 <= b < entries@.len() && a != b ==> #[trigger] entries@[a].0@
                != #[trigger] entries@[b].0@) by {
            assert forall|a: int, b: int|
                0 <= a < entries@.len() && 0 <= b < entries@.len() && a != b implies #[trigger] entries@[a].0@
                != #[trigger] entries@[b].0@ by {
                assert(self.key_at(a) != self.key_at(b));
            }
        }
        let r = ParamMap { entries };
        assert(r.entries@ == self.entries@);
        assert forall|k: Seq<char>| r.has_key(k) == self.has_key(k) by {
            if r.has_key(k) {
                let j = choose|j: int| 0 <= j < r.entries@.len() && r.key_at(j) == k;
                assert(self.key_at(j) == k);
            }
            if self.has_key(k) {
                let j = choose|j: int| 0 <= j < self.entries@.len() && self.key_at(j) == k;
                assert(r.key_at(j) == k);
            }
        }
        assert(r@ =~= self@);
        r
    }
}

impl Default for ParamMap {
    fn default() -> (m: ParamMap)
        ensures
            m@ == Map::<Seq<char>, Seq<char>>::empty(),
    {
        ParamMap::new()
    }
}

impl View for ParamMap {
    type V = Map<Seq<char>, Seq<char>>;

    closed spec fn view(&self) -> Map<Seq<char>, Seq<char>> {
        Map::new(
            |k: Seq<char>| self.has_key(k),
            |k: Seq<char>|
                {
                    let i = choose|i: int| 0 <= i < self.entries@.len() && self.key_at(i) == k;
                    self.entries@[i].1@
                },
        )
    }
}

} // verus!
