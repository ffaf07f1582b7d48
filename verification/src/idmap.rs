//! A small id-keyed map with a `Map` view, backed by a vector of entries
//! with pairwise-distinct keys. The symbol tables, dependency relations and
//! resource dictionaries are all instances of it.

use vstd::prelude::*;

verus! {

/// A map from 32-bit ids to values.
#[derive(Debug)]
pub struct IdMap<V> {
    entries: Vec<(u32, V)>,
}

impl<V> IdMap<V> {
    /// Entries carry pairwise-distinct keys.
    pub closed spec fn wf(&self) -> bool {
        forall|i: int, j: int|
            0 <= i < j < self.entries@.len() ==> (#[trigger] self.entries@[i]).0 != (
            #[trigger] self.entries@[j]).0
    }

    /// The map an entry sequence denotes; a later entry would win.
    spec fn entries_map(s: Seq<(u32, V)>) -> Map<u32, V>
        decreases s.len(),
    {
        if s.len() == 0 {
            Map::empty()
        } else {
            Self::entries_map(s.drop_last()).insert(s.last().0, s.last().1)
        }
    }

    /// How the denoted map relates to the entries: its keys are exactly the
    /// entry keys, and an entry that no later entry shadows gives its key's
    /// value.
    proof fn lemma_entries_map(s: Seq<(u32, V)>)
        ensures
            forall|k: u32|
                Self::entries_map(s).dom().contains(k) <==> exists|i: int|
                    0 <= i < s.len() && (#[trigger] s[i]).0 == k,
            forall|i: int|
                0 <= i < s.len() && (forall|j: int| i < j < s.len() ==> (#[trigger] s[j]).0 != s[i].0)
                    ==> Self::entries_map(s)[(#[trigger] s[i]).0] == s[i].1,
        decreases s.len(),
    {
        if s.len() > 0 {
            Self::lemma_entries_map(s.drop_last());
            assert forall|k: u32| Self::entries_map(s).dom().contains(k) implies exists|i: int|
                0 <= i < s.len() && (#[trigger] s[i]).0 == k by {
                if k == s.last().0 {
                    assert((s[s.len() - 1]).0 == k);
                } else {
                    assert(Self::entries_map(s.drop_last()).dom().contains(k));
                    let i = choose|i: int|
                        0 <= i < s.drop_last().len() && (#[trigger] s.drop_last()[i]).0 == k;
                    assert(s.drop_last()[i] == s[i]);
                    assert((s[i]).0 == k);
                }
            }
            assert forall|k: u32|
                (exists|i: int| 0 <= i < s.len() && (#[trigger] s[i]).0 == k) implies Self::entries_map(
                s,
            ).dom().contains(k) by {
                let i = choose|i: int| 0 <= i < s.len() && (#[trigger] s[i]).0 == k;
                if i < s.len() - 1 {
                    assert(s.drop_last()[i] == s[i]);
                    assert((s.drop_last()[i]).0 == k);
                    assert(Self::entries_map(s.drop_last()).dom().contains(k));
                } else {
                    assert(k == s.last().0);
                }
            }
            assert forall|i: int|
                0 <= i < s.len() && (forall|j: int|
                    i < j < s.len() ==> (#[trigger] s[j]).0 != s[i].0) implies Self::entries_map(s)[(
            #[trigger] s[i]).0] == s[i].1 by {
                if i < s.len() - 1 {
                    assert((s[s.len() - 1]).0 != s[i].0);
                    assert(s.drop_last()[i] == s[i]);
                    assert(forall|j: int|
                        i < j < s.drop_last().len() ==> (#[trigger] s.drop_last()[j]).0 != s[i].0);
                }
            }
        }
    }

    /// An empty map.
    pub fn new() -> (m: IdMap<V>)
        ensures
            m.wf(),
            m@ == Map::<u32, V>::empty(),
            m.num_entries() == 0,
    {
        IdMap { entries: Vec::new() }
    }

    /// The number of entries held.
    pub closed spec fn num_entries(&self) -> nat {
        self.entries@.len()
    }

    pub fn len(&self) -> (n: usize)
        ensures
            n as nat == self.num_entries(),
    {
        self.entries.len()
    }

    /// The position of `key`'s entry, if any.
    fn index_of(&self, key: u32) -> (r: Option<usize>)
        ensures
            match r {
                Some(i) => i < self.entries@.len() && self.entries@[i as int].0 == key,
                None => forall|i: int|
                    0 <= i < self.entries@.len() ==> (#[trigger] self.entries@[i]).0 != key,
            },
    {
        let mut i: usize = 0;
        let n = self.entries.len();
        while i < n
            invariant
                i <= n == self.entries@.len(),
                forall|j: int| 0 <= j < i ==> (#[trigger] self.entries@[j]).0 != key,
            decreases n - i,
        {
            if self.entries[i].0 == key {
                return Some(i);
            }
            i = i + 1;
        }
        None
    }

    pub fn contains_key(&self, key: u32) -> (r: bool)
        requires
            self.wf(),
        ensures
            r == self@.dom().contains(key),
    {
        proof {
            Self::lemma_entries_map(self.entries@);
        }
        match self.index_of(key) {
            Some(_) => true,
            None => false,
        }
    }

    pub fn get(&self, key: u32) -> (r: Option<&V>)
        requires
            self.wf(),
        ensures
            match r {
                Some(v) => self@.dom().contains(key) && *v == self@[key],
                None => !self@.dom().contains(key),
            },
    {
        proof {
            Self::lemma_entries_map(self.entries@);
        }
        match self.index_of(key) {
            Some(i) => Some(&self.entries[i].1),
            None => None,
        }
    }

    /// Binds `key` to `value`, replacing any earlier binding.
    pub fn insert(&mut self, key: u32, value: V)
        requires
            old(self).wf(),
        ensures
            final(self).wf(),
            final(self)@ == old(self)@.insert(key, value),
            final(self).num_entries() == old(self).num_entries() + (if old(
                self,
            )@.dom().contains(key) {
                0int
            } else {
                1int
            }),
    {
        let _ = self.remove(key);
        let ghost s0 = self.entries@;
        proof {
            Self::lemma_entries_map(s0);
        }
        self.entries.push((key, value));
        proof {
            let s1 = self.entries@;
            assert(s1.drop_last() =~= s0);
            assert forall|a: int, b: int| 0 <= a < b < s1.len() implies (#[trigger] s1[a]).0 != (
            #[trigger] s1[b]).0 by {
                if b == s1.len() - 1 {
                    assert(s1[a] == s0[a]);
                    if s0[a].0 == key {
                        assert(Self::entries_map(s0).dom().contains(key));
                    }
                }
            }
            assert(self@ =~= old(self)@.insert(key, value));
        }
    }

    /// Unbinds `key`, returning what it was bound to.
    pub fn remove(&mut self, key: u32) -> (r: Option<V>)
        requires
            old(self).wf(),
        ensures
            final(self).wf(),
            final(self)@ == old(self)@.remove(key),
            final(self).num_entries() == old(self).num_entries() - (if old(
                self,
            )@.dom().contains(key) {
                1int
            } else {
                0int
            }),
            match r {
                Some(v) => old(self)@.dom().contains(key) && v == old(self)@[key],
                None => !old(self)@.dom().contains(key),
            },
    {
        proof {
            Self::lemma_entries_map(self.entries@);
        }
        match self.index_of(key) {
            Some(i) => {
                let e = self.entries.remove(i);
                proof {
                    let s0 = old(self).entries@;
                    let s1 = self.entries@;
                    assert(s1 =~= s0.remove(i as int));
                    assert forall|a: int, b: int| 0 <= a < b < s1.len() implies (
                    #[trigger] s1[a]).0 != (#[trigger] s1[b]).0 by {
                        if a < i {
                            assert(s1[a] == s0[a]);
                        } else {
                            assert(s1[a] == s0[a + 1]);
                        }
                        if b < i {
                            assert(s1[b] == s0[b]);
                        } else {
                            assert(s1[b] == s0[b + 1]);
                        }
                    }
                    Self::lemma_entries_map(s1);
                    assert forall|k: u32| #[trigger] self@.dom().contains(k) implies old(
                        self,
                    )@.dom().contains(k) && k != key && self@[k] == old(self)@[k] by {
                        let j = choose|j: int| 0 <= j < s1.len() && (#[trigger] s1[j]).0 == k;
                        let j0: int = if j < i {
                            j
                        } else {
                            j + 1
                        };
                        assert(s0[j0] == s1[j]);
                        assert(k != key) by {
                            if j0 < i {
                                assert(s0[j0].0 != s0[i as int].0);
                            } else {
                                assert(s0[i as int].0 != s0[j0].0);
                            }
                        }
                        assert(self@[k] == s1[j].1) by {
                            assert(forall|m: int|
                                j < m < s1.len() ==> (#[trigger] s1[m]).0 != s1[j].0);
                        }
                        assert(old(self)@[k] == s0[j0].1) by {
                            assert(forall|m: int|
                                j0 < m < s0.len() ==> (#[trigger] s0[m]).0 != s0[j0].0);
                        }
                    }
                    assert forall|k: u32|
                        old(self)@.dom().contains(k) && k != key implies #[trigger] self@.dom().contains(
                        k,
                    ) by {
                        let j0 = choose|j0: int| 0 <= j0 < s0.len() && (#[trigger] s0[j0]).0 == k;
                        assert(j0 != i);
                        let j: int = if j0 < i {
                            j0
                        } else {
                            j0 - 1
                        };
                        assert(s1[j] == s0[j0]);
                        assert((s1[j]).0 == k);
                    }
                    assert(old(self)@[key] == s0[i as int].1) by {
                        assert(forall|m: int|
                            i < m < s0.len() ==> (#[trigger] s0[m]).0 != s0[i as int].0);
                    }
                    assert(self@ =~= old(self)@.remove(key));
                }
                Some(e.1)
            },
            None => {
                proof {
                    assert(self@ =~= old(self)@.remove(key));
                }
                None
            },
        }
    }
}

impl<V> View for IdMap<V> {
    type V = Map<u32, V>;

    closed spec fn view(&self) -> Map<u32, V> {
        Self::entries_map(self.entries@)
    }
}

} // verus!
