//! Small maps kept as lists of key-value pairs with distinct keys, for keys
//! that are compared byte by byte.
use vstd::prelude::*;

use crate::keys::{PublicKey, TxHash};

verus! {

/// A key that can be compared for equality.
pub trait ByteKey: Sized + Copy {
    fn same_key(&self, other: &Self) -> (r: bool)
        ensures
            r == (*self == *other),
    ;
}

impl ByteKey for PublicKey {
    fn same_key(&self, other: &Self) -> (r: bool) {
        *self == *other
    }
}

impl ByteKey for TxHash {
    fn same_key(&self, other: &Self) -> (r: bool) {
        *self == *other
    }
}

/// No key stands twice in the list.
pub open spec fn keys_unique<K, V>(s: Seq<(K, V)>) -> bool {
    forall|i: int, j: int|
        0 <= i < s.len() && 0 <= j < s.len() && i != j ==> #[trigger] s[i].0 != #[trigger] s[j].0
}

/// The key stands somewhere in the list.
pub open spec fn has_key<K, V>(s: Seq<(K, V)>, k: K) -> bool {
    exists|i: int| 0 <= i < s.len() && #[trigger] s[i].0 == k
}

/// The map that a list of pairs stands for.
pub open spec fn assoc_map<K, V>(s: Seq<(K, V)>) -> Map<K, V> {
    Map::new(
        |k: K| has_key(s, k),
        |k: K| s[choose|i: int| 0 <= i < s.len() && #[trigger] s[i].0 == k].1,
    )
}

pub proof fn lemma_assoc_lookup<K, V>(s: Seq<(K, V)>, i: int)
    requires
        keys_unique(s),
        0 <= i < s.len(),
    ensures
        assoc_map(s).contains_key(s[i].0),
        assoc_map(s)[s[i].0] == s[i].1,
{
    let k = s[i].0;
    assert(has_key(s, k));
    let j: int = choose|j: int| 0 <= j < s.len() && #[trigger] s[j].0 == k;
    assert(i == j);
}

pub proof fn lemma_assoc_push<K, V>(s: Seq<(K, V)>, k: K, v: V)
    requires
        keys_unique(s),
        !has_key(s, k),
    ensures
        keys_unique(s.push((k, v))),
        assoc_map(s.push((k, v))) == assoc_map(s).insert(k, v),
{
    let t = s.push((k, v));
    assert forall|i: int, j: int|
        0 <= i < t.len() && 0 <= j < t.len() && i != j implies #[trigger] t[i].0
        != #[trigger] t[j].0 by {
        if i == s.len() {
            assert(s[j].0 == t[j].0);
        } else if j == s.len() {
            assert(s[i].0 == t[i].0);
        } else {
            assert(s[i].0 == t[i].0 && s[j].0 == t[j].0);
        }
    }
    assert forall|x: K| #[trigger] assoc_map(t).contains_key(x) == assoc_map(s).insert(
        k,
        v,
    ).contains_key(x) by {
        if has_key(s, x) {
            let i: int = choose|i: int| 0 <= i < s.len() && #[trigger] s[i].0 == x;
            assert(t[i].0 == x);
        }
        if x == k {
            assert(t[s.len() as int].0 == x);
        }
        if has_key(t, x) && x != k {
            let i: int = choose|i: int| 0 <= i < t.len() && #[trigger] t[i].0 == x;
            assert(s[i].0 == x);
        }
    }
    assert forall|x: K| #[trigger] assoc_map(t).contains_key(x) implies assoc_map(t)[x]
        == assoc_map(s).insert(k, v)[x] by {
        if x == k {
            lemma_assoc_lookup(t, s.len() as int);
        } else {
            let i: int = choose|i: int| 0 <= i < t.len() && #[trigger] t[i].0 == x;
            lemma_assoc_lookup(t, i);
            lemma_assoc_lookup(s, i);
        }
    }
    assert(assoc_map(t) =~= assoc_map(s).insert(k, v));
}

pub proof fn lemma_assoc_update<K, V>(s: Seq<(K, V)>, i: int, v: V)
    requires
        keys_unique(s),
        0 <= i < s.len(),
    ensures
        keys_unique(s.update(i, (s[i].0, v))),
        assoc_map(s.update(i, (s[i].0, v))) == assoc_map(s).insert(s[i].0, v),
{
    let k = s[i].0;
    let t = s.update(i, (k, v));
    assert forall|a: int, b: int|
        0 <= a < t.len() && 0 <= b < t.len() && a != b implies #[trigger] t[a].0
        != #[trigger] t[b].0 by {
        assert(t[a].0 == s[a].0 && t[b].0 == s[b].0);
    }
    assert forall|x: K| #[trigger] assoc_map(t).contains_key(x) == assoc_map(s).insert(
        k,
        v,
    ).contains_key(x) by {
        if has_key(s, x) {
            let j: int = choose|j: int| 0 <= j < s.len() && #[trigger] s[j].0 == x;
            assert(t[j].0 == x);
        }
        if has_key(t, x) {
            let j: int = choose|j: int| 0 <= j < t.len() && #[trigger] t[j].0 == x;
            assert(s[j].0 == x);
        }
        if x == k {
            assert(t[i].0 == x);
        }
    }
    assert forall|x: K| #[trigger] assoc_map(t).contains_key(x) implies assoc_map(t)[x]
        == assoc_map(s).insert(k, v)[x] by {
        let j: int = choose|j: int| 0 <= j < t.len() && #[trigger] t[j].0 == x;
        lemma_assoc_lookup(t, j);
        if j != i {
            lemma_assoc_lookup(s, j);
        }
    }
    assert(assoc_map(t) =~= assoc_map(s).insert(k, v));
}

/// Where `key` stands in the list, if it does.
fn position_of<K: ByteKey, V>(entries: &Vec<(K, V)>, key: &K) -> (r: Option<usize>)
    ensures
        match r {
            Some(i) => i < entries@.len() && entries@[i as int].0 == *key,
            None => !has_key(entries@, *key),
        },
{
    let mut i: usize = 0;
    while i < entries.len()
        invariant
            i <= entries.len(),
            forall|j: int| 0 <= j < i ==> #[trigger] entries@[j].0 != *key,
        decreases entries.len() - i,
    {
        if entries[i].0.same_key(key) {
            return Some(i);
        }
        i = i + 1;
    }
    None
}

/// The value that the list maps `key` to, if any.
fn lookup<K: ByteKey, V: Copy>(entries: &Vec<(K, V)>, key: &K) -> (r: Option<V>)
    requires
        keys_unique(entries@),
    ensures
        r == (if assoc_map(entries@).contains_key(*key) {
            Some(assoc_map(entries@)[*key])
        } else {
            None
        }),
{
    match position_of(entries, key) {
        Some(i) => {
            proof {
                lemma_assoc_lookup(entries@, i as int);
            }
            Some(entries[i].1)
        },
        None => None,
    }
}

/// Maps `key` to `value` in the list, replacing what it was mapped to.
fn put<K: ByteKey, V>(entries: &mut Vec<(K, V)>, key: K, value: V)
    requires
        keys_unique(old(entries)@),
    ensures
        keys_unique(final(entries)@),
        assoc_map(final(entries)@) == assoc_map(old(entries)@).insert(key, value),
{
    match position_of(entries, &key) {
        Some(i) => {
            proof {
                lemma_assoc_update(entries@, i as int, value);
            }
            entries.set(i, (key, value));
        },
        None => {
            proof {
                lemma_assoc_push(entries@, key, value);
            }
            entries.push((key, value));
        },
    }
}

/// A map kept as a list of key-value pairs with distinct keys.
pub struct KeyedList<K, V> {
    entries: Vec<(K, V)>,
}

impl<K, V> View for KeyedList<K, V> {
    type V = Map<K, V>;

    closed spec fn view(&self) -> Map<K, V> {
        assoc_map(self.entries@)
    }
}

impl<K, V> KeyedList<K, V> {
    #[verifier::type_invariant]
    spec fn distinct_keys(self) -> bool {
        keys_unique(self.entries@)
    }
}

impl<K: ByteKey, V: Copy> KeyedList<K, V> {
    /// The empty map.
    pub fn new() -> (r: Self)
        ensures
            r@ == Map::<K, V>::empty(),
    {
        let r = KeyedList { entries: Vec::new() };
        assert(r@ =~= Map::<K, V>::empty());
        r
    }

    /// The value that `key` maps to, if any.
    pub fn get(&self, key: &K) -> (r: Option<V>)
        ensures
            r == (if self@.contains_key(*key) {
                Some(self@[*key])
            } else {
                None
            }),
    {
        proof {
            use_type_invariant(self);
        }
        lookup(&self.entries, key)
    }

    /// Maps `key` to `value`, replacing what it was mapped to.
    pub fn put(&mut self, key: K, value: V)
        ensures
            final(self)@ == old(self)@.insert(key, value),
    {
        proof {
            use_type_invariant(&*self);
        }
        let mut entries: Vec<(K, V)> = Vec::new();
        std::mem::swap(&mut entries, &mut self.entries);
        put(&mut entries, key, value);
        self.entries = entries;
    }
}

} // verus!
