//! The compile-time variable table: names to ids, ids handed out in
//! increasing order starting at 1 and never reused within a compilation
//! unit.

use vstd::prelude::*;

use crate::error::LitsCcError;

verus! {

/// The compile-time state: registered variable names and the next free id.
#[derive(Debug)]
pub struct CompilerState {
    variables: Vec<(String, u32)>,
    current_id: u32,
}

impl CompilerState {
    /// Entries carry pairwise-distinct names.
    pub closed spec fn wf(&self) -> bool {
        forall|i: int, j: int|
            0 <= i < j < self.variables@.len() ==> (#[trigger] self.variables@[i]).0@ != (
            #[trigger] self.variables@[j]).0@
    }

    /// The name-to-id map an entry sequence denotes.
    spec fn entries_map(s: Seq<(String, u32)>) -> Map<Seq<char>, u32>
        decreases s.len(),
    {
        if s.len() == 0 {
            Map::empty()
        } else {
            Self::entries_map(s.drop_last()).insert(s.last().0@, s.last().1)
        }
    }

    /// The id that will be handed out next.
    pub closed spec fn spec_current_id(&self) -> u32 {
        self.current_id
    }

    proof fn lemma_entries_map(s: Seq<(String, u32)>)
        ensures
            forall|k: Seq<char>|
                Self::entries_map(s).dom().contains(k) <==> exists|i: int|
                    0 <= i < s.len() && (#[trigger] s[i]).0@ == k,
            forall|i: int|
                0 <= i < s.len() && (forall|j: int|
                    i < j < s.len() ==> (#[trigger] s[j]).0@ != s[i].0@) ==> Self::entries_map(s)[(
                #[trigger] s[i]).0@] == s[i].1,
        decreases s.len(),
    {
        if s.len() > 0 {
            Self::lemma_entries_map(s.drop_last());
            assert forall|k: Seq<char>| Self::entries_map(s).dom().contains(k) implies exists|
                i: int,
            |
                0 <= i < s.len() && (#[trigger] s[i]).0@ == k by {
                if k == s.last().0@ {
                    assert((s[s.len() - 1]).0@ == k);
                } else {
                    assert(Self::entries_map(s.drop_last()).dom().contains(k));
                    let i = choose|i: int|
                        0 <= i < s.drop_last().len() && (#[trigger] s.drop_last()[i]).0@ == k;
                    assert(s.drop_last()[i] == s[i]);
                    assert((s[i]).0@ == k);
                }
            }
            assert forall|k: Seq<char>|
                (exists|i: int| 0 <= i < s.len() && (#[trigger] s[i]).0@ == k) implies Self::entries_map(
                s,
            ).dom().contains(k) by {
                let i = choose|i: int| 0 <= i < s.len() && (#[trigger] s[i]).0@ == k;
                if i < s.len() - 1 {
                    assert(s.drop_last()[i] == s[i]);
                    assert((s.drop_last()[i]).0@ == k);
                    assert(Self::entries_map(s.drop_last()).dom().contains(k));
                } else {
                    assert(k == s.last().0@);
                }
            }
            assert forall|i: int|
                0 <= i < s.len() && (forall|j: int|
                    i < j < s.len() ==> (#[trigger] s[j]).0@ != s[i].0@) implies Self::entries_map(
                s,
            )[(#[trigger] s[i]).0@] == s[i].1 by {
                if i < s.len() - 1 {
                    assert((s[s.len() - 1]).0@ != s[i].0@);
                    assert(s.drop_last()[i] == s[i]);
                    assert(forall|j: int|
                        i < j < s.drop_last().len() ==> (#[trigger] s.drop_last()[j]).0@
                            != s[i].0@);
                }
            }
        }
    }

    /// A fresh table: no names, ids starting at 1.
    pub fn new() -> (s: CompilerState)
        ensures
            s.wf(),
            s@ == Map::<Seq<char>, u32>::empty(),
            s.spec_current_id() == 1,
    {
        CompilerState { variables: Vec::new(), current_id: 1 }
    }

    /// The id that will be handed out next.
    pub fn current_id(&self) -> (r: u32)
        ensures
            r == self.spec_current_id(),
    {
        self.current_id
    }

    /// The position of `name`'s entry, if any.
    fn index_of(&self, name: &String) -> (r: Option<usize>)
        ensures
            match r {
                Some(i) => i < self.variables@.len() && self.variables@[i as int].0@ == name@,
                None => forall|i: int|
                    0 <= i < self.variables@.len() ==> (#[trigger] self.variables@[i]).0@ != name@,
            },
    {
        let mut i: usize = 0;
        let n = self.variables.len();
        while i < n
            invariant
                i <= n == self.variables@.len(),
                forall|j: int| 0 <= j < i ==> (#[trigger] self.variables@[j]).0@ != name@,
            decreases n - i,
        {
            if self.variables[i].0 == *name {
                return Some(i);
            }
            i = i + 1;
        }
        None
    }

    /// Registers `name` under the next free id, which it returns; an
    /// earlier binding of the same name is replaced.
    pub fn register_variable(&mut self, name: &str) -> (id: u32)
        requires
            old(self).wf(),
            old(self).spec_current_id() < u32::MAX,
        ensures
            final(self).wf(),
            id == old(self).spec_current_id(),
            final(self)@ == old(self)@.insert(name@, id),
            final(self).spec_current_id() == old(self).spec_current_id() + 1,
    {
        let id = self.current_id;
        let key = String::from_str(name);
        proof {
            Self::lemma_entries_map(self.variables@);
        }
        match self.index_of(&key) {
            Some(i) => {
                let _ = self.variables.remove(i);
                proof {
                    let s0 = old(self).variables@;
                    let s1 = self.variables@;
                    assert(s1 =~= s0.remove(i as int));
                    assert forall|a: int, b: int| 0 <= a < b < s1.len() implies (
                    #[trigger] s1[a]).0@ != (#[trigger] s1[b]).0@ by {
                        if a < i {
                            assert(s1[a] == s0[a]);
                        } else {
                            assert(s1[a] == s0[a + 1]);
                        }
                        if b < i {
                            assert(s1[b] == s0[b]);
                        } else {
                            assert(s1[b] == s0[b + 1]);
                        }
                    }
                    Self::lemma_entries_map(s1);
                    assert forall|k: Seq<char>| #[trigger] self@.dom().contains(k) implies old(
                        self,
                    )@.dom().contains(k) && k != name@ && self@[k] == old(self)@[k] by {
                        let j = choose|j: int| 0 <= j < s1.len() && (#[trigger] s1[j]).0@ == k;
                        let j0: int = if j < i {
                            j
                        } else {
                            j + 1
                        };
                        assert(s0[j0] == s1[j]);
                        assert(k != name@) by {
                            if j0 < i {
                                assert(s0[j0].0@ != s0[i as int].0@);
                            } else {
                                assert(s0[i as int].0@ != s0[j0].0@);
                            }
                        }
                        assert(self@[k] == s1[j].1) by {
                            assert(forall|m: int|
                                j < m < s1.len() ==> (#[trigger] s1[m]).0@ != s1[j].0@);
                        }
                        assert(old(self)@[k] == s0[j0].1) by {
                            assert(forall|m: int|
                                j0 < m < s0.len() ==> (#[trigger] s0[m]).0@ != s0[j0].0@);
                        }
                    }
                    assert forall|k: Seq<char>|
                        old(self)@.dom().contains(k) && k != name@ implies #[trigger] self@.dom().contains(
                        k,
                    ) by {
                        let j0 = choose|j0: int|
                            0 <= j0 < s0.len() && (#[trigger] s0[j0]).0@ == k;
                        assert(j0 != i);
                        let j: int = if j0 < i {
                            j0
                        } else {
                            j0 - 1
                        };
                        assert(s1[j] == s0[j0]);
                        assert((s1[j]).0@ == k);
                    }
                    assert(self@ =~= old(self)@.remove(name@));
                }
            },
            None => {
                proof {
                    assert(self@ =~= old(self)@.remove(name@)) by {
                        Self::lemma_entries_map(self.variables@);
                        assert(!self@.dom().contains(name@));
                    }
                }
            },
        }
        let ghost s_mid = self.variables@;
        proof {
            Self::lemma_entries_map(s_mid);
            assert forall|j: int| 0 <= j < s_mid.len() implies (#[trigger] s_mid[j]).0@ != name@ by {
                assert(!Self::entries_map(s_mid).dom().contains(name@));
                assert((s_mid[j]).0@ == s_mid[j].0@);
            }
        }
        self.variables.push((key, id));
        self.current_id = self.current_id + 1;
        proof {
            let s1 = self.variables@;
            assert(s1.drop_last() =~= s_mid);
            assert forall|a: int, b: int| 0 <= a < b < s1.len() implies (#[trigger] s1[a]).0@ != (
            #[trigger] s1[b]).0@ by {
                if b == s1.len() - 1 {
                    assert(s1[a] == s_mid[a]);
                } else {
                    assert(s1[a] == s_mid[a] && s1[b] == s_mid[b]);
                }
            }
            assert(self@ == Self::entries_map(s_mid).insert(name@, id));
            assert(self@ =~= old(self)@.insert(name@, id));
        }
        id
    }

    /// The id `name` was registered under, or `VariableNotFound` if it
    /// never was.
    pub fn get_variable_id(&self, name: &str) -> (r: Result<u32, LitsCcError>)
        requires
            self.wf(),
        ensures
            match r {
                Ok(id) => self@.dom().contains(name@) && id == self@[name@],
                Err(e) => !self@.dom().contains(name@) && (e matches LitsCcError::VariableNotFound(
                    missing,
                ) && missing@ == name@),
            },
    {
        proof {
            Self::lemma_entries_map(self.variables@);
        }
        let key = String::from_str(name);
        match self.index_of(&key) {
            Some(i) => {
                proof {
                    assert(forall|j: int|
                        i < j < self.variables@.len() ==> (#[trigger] self.variables@[j]).0@
                            != self.variables@[i as int].0@);
                }
                Ok(self.variables[i].1)
            },
            None => Err(LitsCcError::VariableNotFound(key)),
        }
    }
}

impl View for CompilerState {
    type V = Map<Seq<char>, u32>;

    closed spec fn view(&self) -> Map<Seq<char>, u32> {
        Self::entries_map(self.variables@)
    }
}

} // verus!
