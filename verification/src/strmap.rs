//! An insertion-ordered association list keyed by strings; the first entry
//! that carries a key decides its value.

use vstd::prelude::*;
use crate::text::str_eq;

verus! {

/// Entries keyed by strings, kept in insertion order.
pub struct StrMap<V> {
    pub entries: Vec<(String, V)>,
}

/// Position `i` holds the first entry with key `k`.
pub open spec fn is_first_key<V>(e: Seq<(String, V)>, k: Seq<char>, i: int) -> bool {
    &&& 0 <= i < e.len()
    &&& e[i].0@ == k
    &&& forall|j: int| 0 <= j < i ==> e[j].0@ != k
}

/// Some entry of `e` carries key `k`.
pub open spec fn has_key<V>(e: Seq<(String, V)>, k: Seq<char>) -> bool {
    exists|i: int| 0 <= i < e.len() && e[i].0@ == k
}

/// Position of the first entry with key `k`.
pub open spec fn first_key_index<V>(e: Seq<(String, V)>, k: Seq<char>) -> int {
    choose|i: int| is_first_key(e, k, i)
}

/// The map that an entry sequence denotes.
pub open spec fn entries_map<V>(e: Seq<(String, V)>) -> Map<Seq<char>, V> {
    Map::new(|k: Seq<char>| has_key(e, k), |k: Seq<char>| e[first_key_index(e, k)].1)
}

/// The keys of an entry sequence, in order.
pub open spec fn entry_keys<V>(e: Seq<(String, V)>) -> Seq<Seq<char>> {
    e.map_values(|p: (String, V)| p.0@)
}

pub proof fn lemma_first_key_exists<V>(e: Seq<(String, V)>, k: Seq<char>)
    requires
        has_key(e, k),
    ensures
        is_first_key(e, k, first_key_index(e, k)),
{
    let i0 = choose|i: int| 0 <= i < e.len() && e[i].0@ == k;
    lemma_min_key_position(e, k, i0);
}

proof fn lemma_min_key_position<V>(e: Seq<(String, V)>, k: Seq<char>, i0: int)
    requires
        0 <= i0 < e.len(),
        e[i0].0@ == k,
    ensures
        exists|i: int| is_first_key(e, k, i),
    decreases i0,
{
    if exists|j: int| 0 <= j < i0 && e[j].0@ == k {
        let j = choose|j: int| 0 <= j < i0 && e[j].0@ == k;
        lemma_min_key_position(e, k, j);
    } else {
        assert(is_first_key(e, k, i0));
    }
}

pub proof fn lemma_first_key_unique<V>(e: Seq<(String, V)>, k: Seq<char>, i: int)
    requires
        is_first_key(e, k, i),
    ensures
        first_key_index(e, k) == i,
{
    lemma_first_key_exists(e, k);
    let c = first_key_index(e, k);
    if c < i {
        assert(e[c].0@ != k);
    }
    if i < c {
        assert(e[i].0@ != k);
    }
}

impl<V> View for StrMap<V> {
    type V = Map<Seq<char>, V>;

    open spec fn view(&self) -> Map<Seq<char>, V> {
        entries_map(self.entries@)
    }
}

impl<V> StrMap<V> {
    /// The keys in insertion order.
    pub open spec fn key_seq(&self) -> Seq<Seq<char>> {
        entry_keys(self.entries@)
    }

    pub fn new() -> (m: Self)
        ensures
            m@ == Map::<Seq<char>, V>::empty(),
            m.entries@.len() == 0,
    {
        let m = StrMap { entries: Vec::new() };
        assert(m@ =~= Map::<Seq<char>, V>::empty());
        m
    }

    pub fn len(&self) -> (n: usize)
        ensures
            n == self.entries@.len(),
    {
        self.entries.len()
    }

    /// Position of the first entry with key `k`.
    pub fn position(&self, k: &str) -> (r: Option<usize>)
        ensures
            match r {
                Some(i) => is_first_key(self.entries@, k@, i as int),
                None => !has_key(self.entries@, k@),
            },
    {
        let mut i: usize = 0;
        while i < self.entries.len()
            invariant
                i <= self.entries@.len(),
                forall|j: int| 0 <= j < i ==> self.entries@[j].0@ != k@,
            decreases self.entries@.len() - i,
        {
            if str_eq(self.entries[i].0.as_str(), k) {
                return Some(i);
            }
            i = i + 1;
        }
        None
    }

    pub fn contains_key(&self, k: &str) -> (r: bool)
        ensures
            r == self@.contains_key(k@),
    {
        self.position(k).is_some()
    }

    pub fn get(&self, k: &str) -> (r: Option<&V>)
        ensures
            match r {
                Some(v) => self@.contains_key(k@) && *v == self@[k@],
                None => !self@.contains_key(k@),
            },
    {
        match self.position(k) {
            Some(i) => {
                proof {
                    lemma_first_key_unique(self.entries@, k@, i as int);
                }
                Some(&self.entries[i].1)
            },
            None => None,
        }
    }

    /// Sets the value of `k`, keeping its position when it is present and
    /// appending it otherwise.
    pub fn insert(&mut self, k: String, v: V)
        ensures
            final(self)@ == old(self)@.insert(k@, v),
            old(self)@.contains_key(k@) ==> final(self).key_seq() == old(self).key_seq(),
            !old(self)@.contains_key(k@) ==> final(self).key_seq() == old(self).key_seq().push(k@),
            !old(self)@.contains_key(k@) ==> final(self).entries@ == old(self).entries@.push((k, v)),
    {
        let ghost old_e = self.entries@;
        let ghost kv = k@;
        match self.position(k.as_str()) {
            Some(i) => {
                self.entries.set(i, (k, v));
                proof {
                    let e = self.entries@;
                    assert forall|key: Seq<char>| #[trigger] has_key(e, key) == has_key(old_e, key) by {
                        if has_key(old_e, key) {
                            let j = choose|j: int| 0 <= j < old_e.len() && old_e[j].0@ == key;
                            if j == i { assert(e[i as int].0@ == key); } else { assert(e[j].0@ == key); }
                        }
                        if has_key(e, key) {
                            let j = choose|j: int| 0 <= j < e.len() && e[j].0@ == key;
                            if j == i { assert(old_e[i as int].0@ == key); } else { assert(old_e[j].0@ == key); }
                        }
                    }
                    assert(self@ =~= entries_map(old_e).insert(kv, v)) by {
                        assert forall|key: Seq<char>| has_key(e, key) implies
                            e[first_key_index(e, key)].1 == entries_map(old_e).insert(kv, v)[key] by {
                            lemma_first_key_exists(old_e, key);
                            let p = first_key_index(old_e, key);
                            if key == kv {
                                lemma_first_key_unique(e, key, i as int);
                            } else {
                                assert(p != i);
                                assert(is_first_key(e, key, p));
                                lemma_first_key_unique(e, key, p);
                            }
                        }
                    }
                    assert(entry_keys(e) =~= entry_keys(old_e));
                }
            },
            None => {
                self.entries.push((k, v));
                proof {
                    let e = self.entries@;
                    assert(is_first_key(e, kv, old_e.len() as int));
                    lemma_first_key_unique(e, kv, old_e.len() as int);
                    assert forall|key: Seq<char>| has_key(e, key) implies
                        e[first_key_index(e, key)].1 == entries_map(old_e).insert(kv, v)[key] by {
                        if key != kv {
                            assert(has_key(old_e, key)) by {
                                let j = choose|j: int| 0 <= j < e.len() && e[j].0@ == key;
                                assert(old_e[j].0@ == key);
                            }
                            lemma_first_key_exists(old_e, key);
                            let p = first_key_index(old_e, key);
                            assert(is_first_key(e, key, p));
                            lemma_first_key_unique(e, key, p);
                        }
                    }
                    assert forall|key: Seq<char>| #[trigger] has_key(e, key) == (has_key(old_e, key) || key == kv) by {
                        if has_key(old_e, key) {
                            let j = choose|j: int| 0 <= j < old_e.len() && old_e[j].0@ == key;
                            assert(e[j].0@ == key);
                        }
                        if has_key(e, key) && key != kv {
                            let j = choose|j: int| 0 <= j < e.len() && e[j].0@ == key;
                            assert(old_e[j].0@ == key);
                        }
                    }
                    assert(self@ =~= entries_map(old_e).insert(kv, v));
                    assert(entry_keys(e) =~= entry_keys(old_e).push(kv));
                }
            },
        }
    }
}

} // verus!
