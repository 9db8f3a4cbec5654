//! A small map-like linear storage for tag and field sets: keys are unique,
//! iteration keeps first-insertion order, and re-inserting a key replaces
//! its value in place.

use vstd::prelude::*;

use crate::types::chars::chars_eq;
use crate::types::chars::str_to_chars;
use crate::types::key::KeyName;

verus! {

/// The position of the pair with key `k`, or `-1` when no pair has it.
pub open spec fn assoc_find<T>(s: Seq<(Seq<char>, T)>, k: Seq<char>) -> int
    decreases s.len(),
{
    if s.len() == 0 {
        -1
    } else if s[0].0 == k {
        0
    } else {
        let r = assoc_find(s.drop_first(), k);
        if r < 0 {
            -1
        } else {
            r + 1
        }
    }
}

/// The value stored under `k`, if any.
pub open spec fn assoc_get<T>(s: Seq<(Seq<char>, T)>, k: Seq<char>) -> Option<T> {
    let i = assoc_find(s, k);
    if i >= 0 {
        Some(s[i].1)
    } else {
        None
    }
}

/// Upsert: a present key has its value replaced in place, an absent key is
/// appended at the end.
pub open spec fn assoc_upsert<T>(s: Seq<(Seq<char>, T)>, k: Seq<char>, v: T) -> Seq<
    (Seq<char>, T),
> {
    let i = assoc_find(s, k);
    if i >= 0 {
        s.update(i, (k, v))
    } else {
        s.push((k, v))
    }
}

/// No two pairs share a key.
pub open spec fn assoc_unique<T>(s: Seq<(Seq<char>, T)>) -> bool {
    forall|i: int, j: int| 0 <= i < j < s.len() ==> (#[trigger] s[i]).0 != (#[trigger] s[j]).0
}

/// What `assoc_find` returns: the first position holding the key, in
/// range, or `-1` when the key is absent.
pub proof fn lemma_assoc_find<T>(s: Seq<(Seq<char>, T)>, k: Seq<char>)
    ensures
        -1 <= assoc_find(s, k) < s.len(),
        assoc_find(s, k) >= 0 ==> s[assoc_find(s, k)].0 == k,
        forall|j: int| 0 <= j < s.len() && #[trigger] s[j].0 == k ==> assoc_find(s, k) >= 0
            && assoc_find(s, k) <= j,
    decreases s.len(),
{
    if s.len() > 0 && s[0].0 != k {
        lemma_assoc_find(s.drop_first(), k);
        assert(forall|j: int|
            1 <= j < s.len() ==> s.drop_first()[j - 1] == #[trigger] s[j]);
    }
}

/// A key with its value.
#[derive(Debug, Clone, PartialEq)]
pub struct KeyValuePair<V> {
    pub key: KeyName,
    pub value: V,
}

/// The map-like storage itself.
#[derive(Debug, Clone, PartialEq)]
pub struct KeyValueStorage<V> {
    storage: Vec<KeyValuePair<V>>,
}

impl<V: View> View for KeyValueStorage<V> {
    type V = Seq<(Seq<char>, <V as View>::V)>;

    closed spec fn view(&self) -> Seq<(Seq<char>, <V as View>::V)> {
        self.storage@.map(|i: int, p: KeyValuePair<V>| (p.key@, p.value@))
    }
}

impl<V: View> KeyValueStorage<V> {
    /// Creates an empty storage.
    pub fn new() -> (r: KeyValueStorage<V>)
        ensures
            r@ == Seq::<(Seq<char>, <V as View>::V)>::empty(),
    {
        let r = KeyValueStorage { storage: Vec::new() };
        proof {
            assert(r@ =~= Seq::<(Seq<char>, <V as View>::V)>::empty());
        }
        r
    }

    /// True when nothing has been stored.
    pub fn is_empty(&self) -> (r: bool)
        ensures
            r == (self@.len() == 0),
    {
        self.storage.is_empty()
    }

    /// How many pairs are stored.
    pub fn len(&self) -> (r: usize)
        ensures
            r == self@.len(),
    {
        self.storage.len()
    }

    /// The stored pairs, in insertion order.
    pub fn iter(&self) -> (r: &Vec<KeyValuePair<V>>)
        ensures
            r@.len() == self@.len(),
            forall|i: int|
                0 <= i < self@.len() ==> ((#[trigger] r@[i]).key@, r@[i].value@) == self@[i],
    {
        &self.storage
    }

    /// The position of `key` in the storage, if present.
    fn find_index(&self, key: &Vec<char>) -> (r: Option<usize>)
        ensures
            match r {
                Some(i) => assoc_find(self@, key@) == i as int,
                None => assoc_find(self@, key@) == -1,
            },
    {
        let n = self.storage.len();
        let mut i: usize = 0;
        while i < n
            invariant
                i <= n,
                n == self@.len(),
                n == self.storage@.len(),
                self@ == self.storage@.map(|j: int, p: KeyValuePair<V>| (p.key@, p.value@)),
                forall|j: int| 0 <= j < i ==> (#[trigger] self@[j]).0 != key@,
            decreases n - i,
        {
            let pk = str_to_chars(self.storage[i].key.as_str());
            if chars_eq(&pk, key) {
                proof {
                    assert(self@[i as int].0 == key@);
                    lemma_assoc_find(self@, key@);
                    assert(assoc_find(self@, key@) <= i as int);
                    if assoc_find(self@, key@) < i as int {
                        assert(self@[assoc_find(self@, key@)].0 == key@);
                        assert(false);
                    }
                }
                return Some(i);
            }
            proof {
                assert((#[trigger] self@[i as int]).0 == self.storage@[i as int].key@);
            }
            i = i + 1;
        }
        proof {
            lemma_assoc_find(self@, key@);
            if assoc_find(self@, key@) >= 0 {
                assert(self@[assoc_find(self@, key@)].0 == key@);
                assert(false);
            }
        }
        None
    }

    /// Stores a pair: a present key has its value replaced in place, an
    /// absent key is appended. Returns whether the key was new.
    pub fn add(&mut self, pair: KeyValuePair<V>) -> (r: bool)
        ensures
            final(self)@ == assoc_upsert(old(self)@, pair.key@, pair.value@),
            r == (assoc_find(old(self)@, pair.key@) < 0),
    {
        let kc = str_to_chars(pair.key.as_str());
        match self.find_index(&kc) {
            Some(i) => {
                proof {
                    lemma_assoc_find(self@, kc@);
                }
                self.storage[i] = pair;
                proof {
                    assert(final(self)@ =~= assoc_upsert(
                        old(self)@,
                        pair.key@,
                        pair.value@,
                    ));
                }
                false
            },
            None => {
                self.storage.push(pair);
                proof {
                    assert(final(self)@ =~= assoc_upsert(
                        old(self)@,
                        pair.key@,
                        pair.value@,
                    ));
                }
                true
            },
        }
    }

    /// Stores a key with its value, as `add` does.
    pub fn put(&mut self, key: KeyName, value: V) -> (r: bool)
        ensures
            final(self)@ == assoc_upsert(old(self)@, key@, value@),
            r == (assoc_find(old(self)@, key@) < 0),
    {
        self.add(KeyValuePair { key, value })
    }

    /// The value stored under `key`, if any.
    pub fn get(&self, key: &str) -> (r: Option<&V>)
        ensures
            match assoc_get(self@, key@) {
                Some(w) => r is Some && r.unwrap()@ == w,
                None => r is None,
            },
    {
        let kc = str_to_chars(key);
        match self.find_index(&kc) {
            Some(i) => {
                proof {
                    lemma_assoc_find(self@, key@);
                }
                Some(&self.storage[i].value)
            },
            None => None,
        }
    }
}

/// Upsert order preservation: inserting one key, then a second, then
/// overwriting the first key's value yields the original order with the
/// first key's new value.
pub proof fn lemma_upsert_order_preserved<T>(k: Seq<char>, v: T, k2: Seq<char>, v2: T, w: T)
    requires
        k != k2,
    ensures
        ({
            let s1 = assoc_upsert(Seq::<(Seq<char>, T)>::empty(), k, v);
            let s2 = assoc_upsert(s1, k2, v2);
            let s3 = assoc_upsert(s2, k, w);
            s3 == seq![(k, w), (k2, v2)]
        }),
{
    let s0 = Seq::<(Seq<char>, T)>::empty();
    let s1 = assoc_upsert(s0, k, v);
    assert(assoc_find(s0, k) == -1);
    assert(s1 =~= seq![(k, v)]);
    let s2 = assoc_upsert(s1, k2, v2);
    assert(seq![(k, v)].drop_first() =~= Seq::<(Seq<char>, T)>::empty());
    assert(assoc_find(Seq::<(Seq<char>, T)>::empty(), k2) == -1);
    assert(assoc_find(seq![(k, v)], k2) == -1);
    assert(assoc_find(s1, k2) == -1);
    assert(s2 =~= seq![(k, v), (k2, v2)]);
    let s3 = assoc_upsert(s2, k, w);
    assert(assoc_find(s2, k) == 0);
    assert(s3 =~= seq![(k, w), (k2, v2)]);
}

/// The storage invariant: upserting keeps keys unique, so the stored
/// pairs always form a mapping.
pub proof fn lemma_assoc_upsert_unique<T>(s: Seq<(Seq<char>, T)>, k: Seq<char>, v: T)
    requires
        assoc_unique(s),
    ensures
        assoc_unique(assoc_upsert(s, k, v)),
{
    lemma_assoc_find(s, k);
    let t = assoc_upsert(s, k, v);
    let f = assoc_find(s, k);
    if f >= 0 {
        assert forall|i: int, j: int| 0 <= i < j < t.len() implies (#[trigger] t[i]).0 != (
        #[trigger] t[j]).0 by {
            assert(s[f].0 == k);
        }
    } else {
        assert forall|i: int, j: int| 0 <= i < j < t.len() implies (#[trigger] t[i]).0 != (
        #[trigger] t[j]).0 by {
            if j == s.len() as int {
                assert(t[j].0 == k);
                assert(t[i] == s[i]);
            }
        }
    }
}

} // verus!
