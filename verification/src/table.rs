//! A table keyed by text that remembers the order in which its keys came.
//!
//! Manifest, lock and provider registry all file their entries in one: a key
//! occurs at most once, a new key goes to the end, and a key that is
//! written again keeps its place.

use vstd::prelude::*;

verus! {

/// A table from texts to values, in the order of first insertion.
#[derive(Debug)]
pub struct Table<V> {
    entries: Vec<(String, V)>,
}

/// Index of the first pair at or after `from` whose key is `key`; the number
/// of pairs when there is none.
pub open spec fn key_index_from<V>(pairs: Seq<(Seq<char>, V)>, key: Seq<char>, from: int) -> int
    decreases pairs.len() - from,
{
    if from >= pairs.len() {
        pairs.len() as int
    } else if pairs[from].0 == key {
        from
    } else {
        key_index_from(pairs, key, from + 1)
    }
}

/// No key occurs twice among the pairs.
pub open spec fn distinct_keys<V>(pairs: Seq<(Seq<char>, V)>) -> bool {
    forall|i: int, j: int|
        0 <= i < pairs.len() && 0 <= j < pairs.len() && i != j ==> (#[trigger] pairs[i]).0 != (
        #[trigger] pairs[j]).0
}

/// The pairs after `key` was given `value`: in place where the key was
/// there, at the end where it was not.
pub open spec fn with_pair<V>(pairs: Seq<(Seq<char>, V)>, key: Seq<char>, value: V) -> Seq<
    (Seq<char>, V),
> {
    let i = key_index_from(pairs, key, 0);
    if i < pairs.len() {
        pairs.update(i, (key, value))
    } else {
        pairs.push((key, value))
    }
}

/// The pairs without the one of `key`.
pub open spec fn without_key<V>(pairs: Seq<(Seq<char>, V)>, key: Seq<char>) -> Seq<
    (Seq<char>, V),
> {
    let i = key_index_from(pairs, key, 0);
    if i < pairs.len() {
        pairs.remove(i)
    } else {
        pairs
    }
}

/// The value filed under `key` among the pairs, if any.
pub open spec fn value_of<V>(pairs: Seq<(Seq<char>, V)>, key: Seq<char>) -> Option<V> {
    let i = key_index_from(pairs, key, 0);
    if i < pairs.len() {
        Some(pairs[i].1)
    } else {
        None
    }
}

/// The search for a key stops on it or at the end, and passes no match.
pub proof fn lemma_key_index_from<V>(pairs: Seq<(Seq<char>, V)>, key: Seq<char>, from: int)
    requires
        0 <= from <= pairs.len(),
    ensures
        from <= key_index_from(pairs, key, from) <= pairs.len(),
        key_index_from(pairs, key, from) < pairs.len() ==> pairs[key_index_from(
            pairs,
            key,
            from,
        )].0 == key,
        forall|k: int|
            from <= k < key_index_from(pairs, key, from) ==> (#[trigger] pairs[k]).0 != key,
    decreases pairs.len() - from,
{
    if from < pairs.len() && pairs[from].0 != key {
        lemma_key_index_from(pairs, key, from + 1);
    }
}

/// Among distinct keys, a key found at `i` is found there by the search.
pub proof fn lemma_key_index_is<V>(pairs: Seq<(Seq<char>, V)>, key: Seq<char>, i: int)
    requires
        0 <= i < pairs.len(),
        pairs[i].0 == key,
        distinct_keys(pairs),
    ensures
        key_index_from(pairs, key, 0) == i,
        value_of(pairs, key) == Some(pairs[i].1),
{
    lemma_key_index_from(pairs, key, 0);
    let found = key_index_from(pairs, key, 0);
    if found > i {
        assert(pairs[i].0 != key);
    }
}

/// Writing a key keeps the keys distinct; afterwards the key holds the value
/// written and every other key holds what it held.
pub proof fn lemma_with_pair<V>(pairs: Seq<(Seq<char>, V)>, key: Seq<char>, value: V)
    requires
        distinct_keys(pairs),
    ensures
        distinct_keys(with_pair(pairs, key, value)),
        value_of(with_pair(pairs, key, value), key) == Some(value),
        forall|other: Seq<char>|
            other != key ==> #[trigger] value_of(with_pair(pairs, key, value), other) == value_of(
                pairs,
                other,
            ),
{
    let after = with_pair(pairs, key, value);
    let i = key_index_from(pairs, key, 0);
    lemma_key_index_from(pairs, key, 0);
    assert(distinct_keys(after)) by {
        assert forall|a: int, b: int|
            0 <= a < after.len() && 0 <= b < after.len() && a != b implies (#[trigger] after[a]).0
            != (#[trigger] after[b]).0 by {
            if i < pairs.len() {
                if a != i && b != i {
                    assert(pairs[a].0 != pairs[b].0);
                } else if a == i {
                    assert(pairs[b].0 != pairs[i].0);
                } else {
                    assert(pairs[a].0 != pairs[i].0);
                }
            } else {
                if a < pairs.len() && b < pairs.len() {
                    assert(pairs[a].0 != pairs[b].0);
                } else if a < pairs.len() {
                    assert(pairs[a].0 != key);
                } else {
                    assert(pairs[b].0 != key);
                }
            }
        }
    }
    let at = if i < pairs.len() {
        i
    } else {
        pairs.len() as int
    };
    lemma_key_index_is(after, key, at);
    assert forall|other: Seq<char>| other != key implies #[trigger] value_of(after, other)
        == value_of(pairs, other) by {
        lemma_key_index_from(pairs, other, 0);
        let k = key_index_from(pairs, other, 0);
        if k < pairs.len() {
            assert(after[k] == pairs[k]);
            lemma_key_index_is(after, other, k);
        } else {
            lemma_key_index_from(after, other, 0);
            let m = key_index_from(after, other, 0);
            if m < after.len() {
                if m < pairs.len() {
                    assert(after[m].0 == pairs[m].0);
                    assert(pairs[m].0 != other);
                }
            }
        }
    }
}

/// Taking a key out keeps the keys distinct; afterwards the key holds
/// nothing and every other key holds what it held.
pub proof fn lemma_without_key<V>(pairs: Seq<(Seq<char>, V)>, key: Seq<char>)
    requires
        distinct_keys(pairs),
    ensures
        distinct_keys(without_key(pairs, key)),
        value_of(without_key(pairs, key), key) is None,
        forall|other: Seq<char>|
            other != key ==> #[trigger] value_of(without_key(pairs, key), other) == value_of(
                pairs,
                other,
            ),
{
    let after = without_key(pairs, key);
    let i = key_index_from(pairs, key, 0);
    lemma_key_index_from(pairs, key, 0);
    if i < pairs.len() {
        assert forall|a: int| 0 <= a < after.len() implies #[trigger] after[a] == pairs[if a < i {
            a
        } else {
            a + 1
        }] by {}
        assert(distinct_keys(after)) by {
            assert forall|a: int, b: int|
                0 <= a < after.len() && 0 <= b < after.len() && a != b implies (
            #[trigger] after[a]).0 != (#[trigger] after[b]).0 by {
                let pa = if a < i {
                    a
                } else {
                    a + 1
                };
                let pb = if b < i {
                    b
                } else {
                    b + 1
                };
                assert(pairs[pa].0 != pairs[pb].0);
            }
        }
        lemma_key_index_from(after, key, 0);
        let m = key_index_from(after, key, 0);
        if m < after.len() {
            let pm = if m < i {
                m
            } else {
                m + 1
            };
            assert(pairs[pm].0 != pairs[i].0);
        }
        assert forall|other: Seq<char>| other != key implies #[trigger] value_of(after, other)
            == value_of(pairs, other) by {
            lemma_key_index_from(pairs, other, 0);
            let k = key_index_from(pairs, other, 0);
            if k < pairs.len() {
                let ak = if k < i {
                    k
                } else {
                    k - 1
                };
                assert(after[ak] == pairs[k]);
                lemma_key_index_is(after, other, ak);
            } else {
                lemma_key_index_from(after, other, 0);
                let m2 = key_index_from(after, other, 0);
                if m2 < after.len() {
                    let pm = if m2 < i {
                        m2
                    } else {
                        m2 + 1
                    };
                    assert(pairs[pm].0 != other);
                }
            }
        }
    }
}

/// The pairs with each value replaced by its view.
pub open spec fn pair_views<V: View>(pairs: Seq<(Seq<char>, V)>) -> Seq<(Seq<char>, V::V)> {
    Seq::new(pairs.len(), |i: int| (pairs[i].0, pairs[i].1@))
}

/// Two lists of pairs with the same keys at the same places find every key
/// at the same place.
pub proof fn lemma_same_keys<V, W>(
    a: Seq<(Seq<char>, V)>,
    b: Seq<(Seq<char>, W)>,
    key: Seq<char>,
    from: int,
)
    requires
        a.len() == b.len(),
        forall|i: int| 0 <= i < a.len() ==> (#[trigger] a[i]).0 == b[i].0,
        0 <= from <= a.len(),
    ensures
        key_index_from(a, key, from) == key_index_from(b, key, from),
    decreases a.len() - from,
{
    if from < a.len() {
        assert(a[from].0 == b[from].0);
        if a[from].0 != key {
            lemma_same_keys(a, b, key, from + 1);
        }
    }
}

/// Looking at the views of the values changes no key: lookups, writes and
/// removals on the views are the views of those on the values.
pub proof fn lemma_pair_views<V: View>(pairs: Seq<(Seq<char>, V)>, key: Seq<char>)
    ensures
        key_index_from(pair_views(pairs), key, 0) == key_index_from(pairs, key, 0),
        value_of(pair_views(pairs), key) == match value_of(pairs, key) {
            Some(v) => Some(v@),
            None => None,
        },
        pair_views(without_key(pairs, key)) == without_key(pair_views(pairs), key),
        distinct_keys(pairs) ==> distinct_keys(pair_views(pairs)),
{
    lemma_same_keys(pairs, pair_views(pairs), key, 0);
    lemma_key_index_from(pairs, key, 0);
    assert(pair_views(without_key(pairs, key)) =~= without_key(pair_views(pairs), key));
}

/// Writing a value and then looking at the views is writing its view among
/// the views.
pub proof fn lemma_pair_views_with_pair<V: View>(
    pairs: Seq<(Seq<char>, V)>,
    key: Seq<char>,
    value: V,
)
    ensures
        pair_views(with_pair(pairs, key, value)) == with_pair(pair_views(pairs), key, value@),
{
    lemma_same_keys(pairs, pair_views(pairs), key, 0);
    lemma_key_index_from(pairs, key, 0);
    assert(pair_views(with_pair(pairs, key, value)) =~= with_pair(pair_views(pairs), key, value@));
}

/// The pairs that a list of entries holds, each key as its text.
pub open spec fn pairs_of<V>(entries: Seq<(String, V)>) -> Seq<(Seq<char>, V)> {
    Seq::new(entries.len(), |i: int| (entries[i].0@, entries[i].1))
}

impl<V> Table<V> {
    /// The pairs of key and value, in the order in which the keys came.
    pub closed spec fn pairs(&self) -> Seq<(Seq<char>, V)> {
        pairs_of(self.entries@)
    }

    #[verifier::type_invariant]
    spec fn keys_are_distinct(&self) -> bool {
        distinct_keys(self.pairs())
    }

    /// Whether `key` is filed.
    pub open spec fn has(&self, key: Seq<char>) -> bool {
        value_of(self.pairs(), key) is Some
    }

    /// What is filed under `key`.
    pub open spec fn lookup(&self, key: Seq<char>) -> Option<V> {
        value_of(self.pairs(), key)
    }

    /// An empty table.
    pub fn new() -> (r: Self)
        ensures
            r.pairs() == Seq::<(Seq<char>, V)>::empty(),
    {
        let r = Table { entries: Vec::new() };
        assert(r.pairs() =~= Seq::<(Seq<char>, V)>::empty());
        r
    }

    /// The number of keys. No key occurs twice.
    pub fn len(&self) -> (n: usize)
        ensures
            n == self.pairs().len(),
            distinct_keys(self.pairs()),
    {
        proof {
            use_type_invariant(self);
        }
        self.entries.len()
    }

    /// The key at place `i`.
    pub fn key_at(&self, i: usize) -> (k: &str)
        requires
            i < self.pairs().len(),
        ensures
            k@ == self.pairs()[i as int].0,
    {
        self.entries[i].0.as_str()
    }

    /// The value at place `i`.
    pub fn value_at(&self, i: usize) -> (v: &V)
        requires
            i < self.pairs().len(),
        ensures
            *v == self.pairs()[i as int].1,
    {
        &self.entries[i].1
    }

    /// The place of `key`, if it is filed.
    pub fn find(&self, key: &str) -> (r: Option<usize>)
        ensures
            match r {
                Some(i) => i < self.pairs().len() && self.pairs()[i as int].0 == key@
                    && key_index_from(self.pairs(), key@, 0) == i,
                None => key_index_from(self.pairs(), key@, 0) == self.pairs().len(),
            },
    {
        let mut i: usize = 0;
        while i < self.entries.len()
            invariant
                i <= self.entries.len(),
                key_index_from(self.pairs(), key@, i as int) == key_index_from(
                    self.pairs(),
                    key@,
                    0,
                ),
            decreases self.entries.len() - i,
        {
            if *self.entries[i].0.as_str() == *key {
                return Some(i);
            }
            i = i + 1;
        }
        None
    }

    /// What is filed under `key`.
    pub fn get(&self, key: &str) -> (r: Option<&V>)
        ensures
            match r {
                Some(v) => self.lookup(key@) == Some(*v),
                None => self.lookup(key@) is None,
            },
    {
        match self.find(key) {
            Some(i) => Some(&self.entries[i].1),
            None => None,
        }
    }

    /// Whether `key` is filed.
    pub fn contains_key(&self, key: &str) -> (r: bool)
        ensures
            r == self.has(key@),
    {
        self.find(key).is_some()
    }

    /// Files `value` under `key`: in place of what was there, or at the end.
    pub fn insert(&mut self, key: String, value: V)
        ensures
            final(self).pairs() == with_pair(old(self).pairs(), key@, value),
            final(self).lookup(key@) == Some(value),
            forall|other: Seq<char>|
                other != key@ ==> #[trigger] final(self).lookup(other) == old(self).lookup(other),
    {
        proof {
            use_type_invariant(&*self);
            lemma_with_pair(self.pairs(), key@, value);
        }
        let ghost before = self.pairs();
        let place = self.find(key.as_str());
        let mut entries: Vec<(String, V)> = Vec::new();
        core::mem::swap(&mut self.entries, &mut entries);
        match place {
            Some(i) => {
                entries.set(i, (key, value));
            },
            None => {
                entries.push((key, value));
            },
        }
        assert(pairs_of(entries@) =~= with_pair(before, key@, value));
        self.entries = entries;
    }

    /// Takes out what is filed under `key` and returns it.
    pub fn remove(&mut self, key: &str) -> (r: Option<V>)
        ensures
            final(self).pairs() == without_key(old(self).pairs(), key@),
            r == old(self).lookup(key@),
            final(self).lookup(key@) is None,
            forall|other: Seq<char>|
                other != key@ ==> #[trigger] final(self).lookup(other) == old(self).lookup(other),
    {
        proof {
            use_type_invariant(&*self);
            lemma_without_key(self.pairs(), key@);
        }
        let ghost before = self.pairs();
        let place = self.find(key);
        let mut entries: Vec<(String, V)> = Vec::new();
        core::mem::swap(&mut self.entries, &mut entries);
        let taken = match place {
            Some(i) => {
                let pair = entries.remove(i);
                Some(pair.1)
            },
            None => None,
        };
        assert(pairs_of(entries@) =~= without_key(before, key@));
        self.entries = entries;
        taken
    }
}

} // verus!
