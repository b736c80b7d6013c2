//! A small association container: a vector of `(key, value)` pairs with
//! distinct `u64` keys, viewed as a `Map<u64, V>`.
//!
//! Entity counts in the sandbox are small, so a linear scan is the intended
//! lookup strategy; what matters here is the exact map semantics of every
//! operation.

use vstd::prelude::*;

verus! {

/// The map denoted by a sequence of key/value pairs; later pairs win.
pub open spec fn kv_map<V>(s: Seq<(u64, V)>) -> Map<u64, V>
    decreases s.len(),
{
    if s.len() == 0 {
        Map::empty()
    } else {
        kv_map(s.drop_last()).insert(s.last().0, s.last().1)
    }
}

/// All keys of the pair sequence are distinct.
pub open spec fn keys_distinct<V>(s: Seq<(u64, V)>) -> bool {
    forall|i: int, j: int| 0 <= i < j < s.len() ==> s[i].0 != s[j].0
}

/// A key is in the map exactly when some pair carries it.
pub proof fn lemma_kv_contains<V>(s: Seq<(u64, V)>, k: u64)
    ensures
        kv_map(s).contains_key(k) <==> exists|i: int| 0 <= i < s.len() && s[i].0 == k,
    decreases s.len(),
{
    if s.len() > 0 {
        lemma_kv_contains(s.drop_last(), k);
        if s.last().0 == k {
            assert(s[s.len() - 1].0 == k);
        } else if kv_map(s).contains_key(k) {
            let i = choose|i: int| 0 <= i < s.drop_last().len() && s.drop_last()[i].0 == k;
            assert(s[i].0 == k);
        } else if exists|i: int| 0 <= i < s.len() && s[i].0 == k {
            let i = choose|i: int| 0 <= i < s.len() && s[i].0 == k;
            assert(s.drop_last()[i].0 == k);
        }
    }
}

/// Under distinct keys, the pair at any index gives the map's value at its key.
pub proof fn lemma_kv_lookup<V>(s: Seq<(u64, V)>, i: int)
    requires
        keys_distinct(s),
        0 <= i < s.len(),
    ensures
        kv_map(s).contains_key(s[i].0),
        kv_map(s)[s[i].0] == s[i].1,
    decreases s.len(),
{
    if i == s.len() - 1 {
    } else {
        assert(keys_distinct(s.drop_last()));
        assert(s.drop_last()[i] == s[i]);
        lemma_kv_lookup(s.drop_last(), i);
        assert(s[i].0 != s.last().0);
    }
}

/// Appending a pair inserts its key.
pub proof fn lemma_kv_push<V>(s: Seq<(u64, V)>, k: u64, v: V)
    ensures
        kv_map(s.push((k, v))) == kv_map(s).insert(k, v),
{
    assert(s.push((k, v)).drop_last() =~= s);
}

/// Removing the pair at an index removes its key from the map.
pub proof fn lemma_kv_remove<V>(s: Seq<(u64, V)>, i: int)
    requires
        keys_distinct(s),
        0 <= i < s.len(),
    ensures
        kv_map(s.remove(i)) =~= kv_map(s).remove(s[i].0),
    decreases s.len(),
{
    lemma_kv_contains(s, s[i].0);
    if i == s.len() - 1 {
        assert(s.remove(i) =~= s.drop_last());
        lemma_kv_contains(s.drop_last(), s[i].0);
        assert(!kv_map(s.drop_last()).contains_key(s[i].0));
        assert(kv_map(s.drop_last()) =~= kv_map(s).remove(s[i].0));
    } else {
        assert(keys_distinct(s.drop_last()));
        lemma_kv_remove(s.drop_last(), i);
        assert(s.remove(i).drop_last() =~= s.drop_last().remove(i));
        assert(s.remove(i).last() == s.last());
    }
}

/// Replacing the value at an index updates the map at that pair's key.
pub proof fn lemma_kv_update<V>(s: Seq<(u64, V)>, i: int, v: V)
    requires
        keys_distinct(s),
        0 <= i < s.len(),
    ensures
        kv_map(s.update(i, (s[i].0, v))) =~= kv_map(s).insert(s[i].0, v),
    decreases s.len(),
{
    if i == s.len() - 1 {
        assert(s.update(i, (s[i].0, v)).drop_last() =~= s.drop_last());
    } else {
        assert(keys_distinct(s.drop_last()));
        lemma_kv_update(s.drop_last(), i, v);
        assert(s.update(i, (s[i].0, v)).drop_last() =~= s.drop_last().update(i, (s[i].0, v)));
        assert(s.update(i, (s[i].0, v)).last() == s.last());
        assert(s[i].0 != s.last().0);
    }
}

/// Under distinct keys, the map has exactly as many keys as the sequence has
/// pairs.
pub proof fn lemma_kv_dom_len<V>(s: Seq<(u64, V)>)
    requires
        keys_distinct(s),
    ensures
        kv_map(s).dom().finite(),
        kv_map(s).dom().len() == s.len(),
    decreases s.len(),
{
    if s.len() > 0 {
        assert(keys_distinct(s.drop_last()));
        lemma_kv_dom_len(s.drop_last());
        lemma_kv_contains(s.drop_last(), s.last().0);
    }
}

/// An association container with distinct `u64` keys.
pub struct KvVec<V> {
    pub entries: Vec<(u64, V)>,
}

impl<V> View for KvVec<V> {
    type V = Map<u64, V>;

    open spec fn view(&self) -> Map<u64, V> {
        kv_map(self.entries@)
    }
}

impl<V> KvVec<V> {
    /// Well-formed: no key occurs twice.
    pub open spec fn wf(self) -> bool {
        keys_distinct(self.entries@)
    }

    /// Number of stored pairs.
    pub open spec fn spec_len(self) -> nat {
        self.entries@.len()
    }

    pub fn new() -> (r: Self)
        ensures
            r.wf(),
            r@ == Map::<u64, V>::empty(),
            r.spec_len() == 0,
    {
        KvVec { entries: Vec::new() }
    }

    pub fn len(&self) -> (n: usize)
        ensures
            n == self.spec_len(),
            self.wf() ==> n == self@.dom().len(),
    {
        proof {
            if self.wf() {
                lemma_kv_dom_len(self.entries@);
            }
        }
        self.entries.len()
    }

    /// Index of the pair carrying the key, if any.
    fn index_of(&self, k: u64) -> (r: Option<usize>)
        ensures
            match r {
                Some(i) => i < self.entries@.len() && self.entries@[i as int].0 == k,
                None => forall|i: int| 0 <= i < self.entries@.len() ==> self.entries@[i].0 != k,
            },
    {
        let mut i: usize = 0;
        while i < self.entries.len()
            invariant
                i <= self.entries@.len(),
                forall|j: int| 0 <= j < i ==> self.entries@[j].0 != k,
            decreases self.entries@.len() - i,
        {
            if self.entries[i].0 == k {
                return Some(i);
            }
            i = i + 1;
        }
        None
    }

    pub fn contains_key(&self, k: u64) -> (r: bool)
        ensures
            r == self@.contains_key(k),
    {
        proof {
            lemma_kv_contains(self.entries@, k);
        }
        self.index_of(k).is_some()
    }

    pub fn get(&self, k: u64) -> (r: Option<&V>)
        requires
            self.wf(),
        ensures
            match r {
                Some(v) => self@.contains_key(k) && *v == self@[k],
                None => !self@.contains_key(k),
            },
    {
        proof {
            lemma_kv_contains(self.entries@, k);
        }
        match self.index_of(k) {
            Some(i) => {
                proof {
                    lemma_kv_lookup(self.entries@, i as int);
                }
                Some(&self.entries[i].1)
            }
            None => None,
        }
    }

    /// Insert a pair under a key not yet present.
    pub fn insert_new(&mut self, k: u64, v: V)
        requires
            old(self).wf(),
            !old(self)@.contains_key(k),
        ensures
            final(self).wf(),
            final(self)@ == old(self)@.insert(k, v),
            final(self).spec_len() == old(self).spec_len() + 1,
    {
        proof {
            lemma_kv_contains(self.entries@, k);
            lemma_kv_push(self.entries@, k, v);
        }
        self.entries.push((k, v));
    }

    /// Remove the pair carrying the key, handing its value back.
    pub fn remove(&mut self, k: u64) -> (r: Option<V>)
        requires
            old(self).wf(),
        ensures
            final(self).wf(),
            old(self)@.contains_key(k) ==> r == Some(old(self)@[k])
                && final(self)@ == old(self)@.remove(k)
                && final(self).spec_len() == old(self).spec_len() - 1,
            !old(self)@.contains_key(k) ==> r is None && *final(self) == *old(self),
    {
        proof {
            lemma_kv_contains(self.entries@, k);
        }
        match self.index_of(k) {
            Some(i) => {
                proof {
                    lemma_kv_lookup(self.entries@, i as int);
                    lemma_kv_remove(self.entries@, i as int);
                    assert(keys_distinct(self.entries@.remove(i as int)));
                }
                let (_, v) = self.entries.remove(i);
                Some(v)
            }
            None => None,
        }
    }

    /// Replace the value under a key; reports whether the key was present.
    pub fn set(&mut self, k: u64, v: V) -> (r: bool)
        requires
            old(self).wf(),
        ensures
            final(self).wf(),
            r == old(self)@.contains_key(k),
            r ==> final(self)@ == old(self)@.insert(k, v),
            !r ==> *final(self) == *old(self),
            final(self).spec_len() == old(self).spec_len(),
    {
        proof {
            lemma_kv_contains(self.entries@, k);
        }
        match self.index_of(k) {
            Some(i) => {
                proof {
                    lemma_kv_update(self.entries@, i as int, v);
                    assert(keys_distinct(self.entries@.update(i as int, (self.entries@[i as int].0, v))));
                }
                let k0 = self.entries[i].0;
                self.entries[i] = (k0, v);
                true
            }
            None => false,
        }
    }
}

} // verus!
