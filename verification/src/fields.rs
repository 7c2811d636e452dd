//! `TextMap`: a string-to-string map that remembers insertion order, used
//! for header fields and URL parameters.
use vstd::prelude::*;

use crate::text::{chars_eq, chars_of};

verus! {

/// A list of key/value entries with no key twice.
pub open spec fn distinct_keys(e: Seq<(Seq<char>, Seq<char>)>) -> bool {
    forall|i: int, j: int|
        0 <= i < e.len() && 0 <= j < e.len() && i != j ==> (#[trigger] e[i]).0 != (#[trigger] e[j]).0
}

/// `k` is the key of some entry.
pub open spec fn has_key(e: Seq<(Seq<char>, Seq<char>)>, k: Seq<char>) -> bool {
    exists|i: int| 0 <= i < e.len() && (#[trigger] e[i]).0 == k
}

/// The position of the entry with key `k` (meaningful when `has_key`).
pub open spec fn key_pos(e: Seq<(Seq<char>, Seq<char>)>, k: Seq<char>) -> int {
    choose|i: int| 0 <= i < e.len() && (#[trigger] e[i]).0 == k
}

/// The value stored under `k`, if any.
pub open spec fn lookup(e: Seq<(Seq<char>, Seq<char>)>, k: Seq<char>) -> Option<Seq<char>> {
    if has_key(e, k) {
        Some(e[key_pos(e, k)].1)
    } else {
        None
    }
}

/// The entries after `insert(k, v)`: an existing entry for `k` keeps its
/// place and takes the new value; otherwise the entry goes last.
pub open spec fn insert_entry(e: Seq<(Seq<char>, Seq<char>)>, k: Seq<char>, v: Seq<char>) -> Seq<
    (Seq<char>, Seq<char>),
> {
    if has_key(e, k) {
        e.update(key_pos(e, k), (k, v))
    } else {
        e.push((k, v))
    }
}

/// The entries after inserting every pair of `pairs` in turn.
pub open spec fn insert_all(
    e: Seq<(Seq<char>, Seq<char>)>,
    pairs: Seq<(Seq<char>, Seq<char>)>,
) -> Seq<(Seq<char>, Seq<char>)>
    decreases pairs.len(),
{
    if pairs.len() == 0 {
        e
    } else {
        insert_entry(insert_all(e, pairs.drop_last()), pairs.last().0, pairs.last().1)
    }
}

/// Inserting keeps the keys distinct; afterwards the key holds the new
/// value and every other key holds what it held before.
pub proof fn lemma_insert_entry_distinct(e: Seq<(Seq<char>, Seq<char>)>, k: Seq<char>, v: Seq<char>)
    requires
        distinct_keys(e),
    ensures
        distinct_keys(insert_entry(e, k, v)),
        has_key(insert_entry(e, k, v), k),
        lookup(insert_entry(e, k, v), k) == Some(v),
        forall|k2: Seq<char>| k2 != k ==> lookup(insert_entry(e, k, v), k2) == lookup(e, k2),
{
    let r = insert_entry(e, k, v);
    if has_key(e, k) {
        let p = key_pos(e, k);
        assert(r[p].0 == k);
        assert forall|k2: Seq<char>| k2 != k implies lookup(r, k2) == lookup(e, k2) by {
            if has_key(e, k2) {
                let q = key_pos(e, k2);
                assert(r[q] == e[q]);
                assert(has_key(r, k2));
            }
            if has_key(r, k2) {
                let q = key_pos(r, k2);
                assert(e[q] == r[q]);
            }
        }
    } else {
        assert(r[e.len() as int].0 == k);
        assert forall|k2: Seq<char>| k2 != k implies lookup(r, k2) == lookup(e, k2) by {
            if has_key(e, k2) {
                let q = key_pos(e, k2);
                assert(r[q] == e[q]);
            }
            if has_key(r, k2) {
                let q = key_pos(r, k2);
                assert(e[q] == r[q]);
            }
        }
    }
}

/// Inserting a list of pairs keeps the keys distinct.
pub proof fn lemma_insert_all_distinct(
    e: Seq<(Seq<char>, Seq<char>)>,
    pairs: Seq<(Seq<char>, Seq<char>)>,
)
    requires
        distinct_keys(e),
    ensures
        distinct_keys(insert_all(e, pairs)),
    decreases pairs.len(),
{
    if pairs.len() > 0 {
        lemma_insert_all_distinct(e, pairs.drop_last());
        lemma_insert_entry_distinct(insert_all(e, pairs.drop_last()), pairs.last().0, pairs.last().1);
    }
}

/// A map from strings to strings that keeps its entries in insertion order.
#[derive(Debug)]
pub struct TextMap {
    entries: Vec<(String, String)>,
}

pub open spec fn entry_view(p: (String, String)) -> (Seq<char>, Seq<char>) {
    (p.0@, p.1@)
}

impl View for TextMap {
    type V = Seq<(Seq<char>, Seq<char>)>;

    closed spec fn view(&self) -> Seq<(Seq<char>, Seq<char>)> {
        self.entries@.map_values(|p: (String, String)| entry_view(p))
    }
}

impl TextMap {
    /// No key occurs twice.
    #[verifier::type_invariant]
    pub open spec fn keys_are_distinct(self) -> bool {
        distinct_keys(self@)
    }

    /// An empty map.
    pub fn new() -> (m: TextMap)
        ensures
            m@ == Seq::<(Seq<char>, Seq<char>)>::empty(),
    {
        let m = TextMap { entries: Vec::new() };
        assert(m@ =~= Seq::<(Seq<char>, Seq<char>)>::empty());
        m
    }

    /// The number of entries.
    pub fn len(&self) -> (n: usize)
        ensures
            n == self@.len(),
    {
        self.entries.len()
    }

    /// The map has no entry.
    pub fn is_empty(&self) -> (b: bool)
        ensures
            b == (self@.len() == 0),
    {
        self.entries.len() == 0
    }

    /// The entries, in insertion order.
    pub fn entries(&self) -> (r: &Vec<(String, String)>)
        ensures
            r@.map_values(|p: (String, String)| entry_view(p)) == self@,
    {
        &self.entries
    }

    /// The position of the entry with key `key`.
    fn position(&self, key: &str) -> (r: Option<usize>)
        ensures
            match r {
                Some(i) => i < self@.len() && self@[i as int].0 == key@ && key_pos(self@, key@)
                    == i && has_key(self@, key@),
                None => !has_key(self@, key@),
            },
    {
        proof {
            use_type_invariant(self);
        }
        let k = chars_of(key);
        let mut i: usize = 0;
        while i < self.entries.len()
            invariant
                distinct_keys(self@),
                self@ == self.entries@.map_values(|p: (String, String)| entry_view(p)),
                k@ == key@,
                i <= self.entries@.len(),
                forall|j: int| 0 <= j < i ==> self@[j].0 != key@,
            decreases self.entries@.len() - i,
        {
            let c = chars_of(self.entries[i].0.as_str());
            if chars_eq(&c, &k) {
                assert(self@[i as int].0 == key@);
                assert(has_key(self@, key@));
                return Some(i);
            }
            i = i + 1;
        }
        None
    }

    /// The value stored under `key`.
    pub fn get(&self, key: &str) -> (r: Option<&String>)
        ensures
            match r {
                Some(v) => lookup(self@, key@) == Some(v@),
                None => lookup(self@, key@) is None,
            },
    {
        match self.position(key) {
            Some(i) => Some(&self.entries[i].1),
            None => None,
        }
    }

    /// Some entry has key `key`.
    pub fn contains_key(&self, key: &str) -> (b: bool)
        ensures
            b == has_key(self@, key@),
    {
        self.position(key).is_some()
    }

    /// Stores `value` under `key` and returns the value it replaces.
    pub fn insert(&mut self, key: String, value: String) -> (r: Option<String>)
        ensures
            final(self)@ == insert_entry(old(self)@, key@, value@),
            match r {
                Some(v) => lookup(old(self)@, key@) == Some(v@),
                None => lookup(old(self)@, key@) is None,
            },
    {
        proof {
            use_type_invariant(&*self);
            lemma_insert_entry_distinct(self@, key@, value@);
        }
        let pos = self.position(key.as_str());
        let mut entries: Vec<(String, String)> = Vec::new();
        std::mem::swap(&mut entries, &mut self.entries);
        let ghost before = entries@;
        match pos {
            Some(i) => {
                let (_, old_value) = entries.remove(i);
                entries.insert(i, (key, value));
                assert(entries@.map_values(|p: (String, String)| entry_view(p)) =~= insert_entry(
                    old(self)@,
                    key@,
                    value@,
                ));
                self.entries = entries;
                Some(old_value)
            },
            None => {
                entries.push((key, value));
                assert(entries@.map_values(|p: (String, String)| entry_view(p)) =~= insert_entry(
                    old(self)@,
                    key@,
                    value@,
                ));
                self.entries = entries;
                None
            },
        }
    }
}

} // verus!
