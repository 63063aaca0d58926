//! The sorted rule table: the mapping from rule names to their trees.
//!
//! Rule names are unique keys and iteration order is the sorted order of the
//! names, not declaration order; inserting an existing name replaces its
//! binding.

use vstd::prelude::*;

verus! {

broadcast use {vstd::std_specs::vec::group_vec_axioms, vstd::seq::group_seq_axioms};

use crate::strutil::{lex_lt, str_lex_cmp, str_eq, lemma_lex_trichotomy, lemma_lex_trans};
use vstd::pervasive::VecAdditionalExecFns;

/// The mapping built from a sequence of entries, later entries replacing
/// earlier ones of the same key.
pub open spec fn entries_map<T: View>(s: Seq<(String, T)>) -> Map<Seq<char>, T::V>
    decreases s.len(),
{
    if s.len() == 0 {
        Map::empty()
    } else {
        entries_map(s.drop_last()).insert(s.last().0@, s.last().1@)
    }
}

/// Whether the entries' keys are strictly sorted (hence unique).
pub open spec fn entries_sorted<T>(s: Seq<(String, T)>) -> bool {
    forall|i: int, j: int| 0 <= i < j < s.len() ==> lex_lt(#[trigger] s[i].0@, #[trigger] s[j].0@)
}

/// With pairwise-distinct keys, the mapping of a sequence of entries holds
/// exactly those keys, each bound to its entry's node.
pub proof fn lemma_entries_map<T: View>(s: Seq<(String, T)>)
    requires
        forall|i: int, j: int| 0 <= i < j < s.len() ==> (#[trigger] s[i].0@) != (#[trigger] s[j].0@),
    ensures
        forall|k: Seq<char>| #[trigger] entries_map(s).dom().contains(k) <==> exists|i: int|
            0 <= i < s.len() && (#[trigger] s[i].0@) == k,
        forall|i: int| 0 <= i < s.len() ==> entries_map(s).dom().contains(#[trigger] s[i].0@)
            && entries_map(s)[s[i].0@] == s[i].1@,
    decreases s.len(),
{
    if s.len() > 0 {
        lemma_entries_map::<T>(s.drop_last());
        assert forall|i: int| 0 <= i < s.len() implies entries_map(s).dom().contains(
            #[trigger] s[i].0@,
        ) && entries_map(s)[s[i].0@] == s[i].1@ by {
            if i < s.len() - 1 {
                assert(s.drop_last()[i] == s[i]);
                assert(s[i].0@ != s[s.len() - 1].0@);
            }
        }
        assert forall|k: Seq<char>| #[trigger] entries_map(s).dom().contains(k) implies exists|i: int|
            0 <= i < s.len() && (#[trigger] s[i].0@) == k by {
            if k == s.last().0@ {
                assert(s[s.len() - 1].0@ == k);
            } else {
                assert(entries_map(s.drop_last()).dom().contains(k));
                let i = choose|i: int|
                    0 <= i < s.drop_last().len() && (#[trigger] s.drop_last()[i].0@) == k;
                assert(s.drop_last()[i] == s[i]);
                assert(s[i].0@ == k);
            }
        }
    }
}

/// The mapping of a sequence of entries has finitely many keys.
pub proof fn lemma_entries_map_finite<T: View>(s: Seq<(String, T)>)
    ensures
        entries_map(s).dom().finite(),
    decreases s.len(),
{
    broadcast use vstd::set::group_set_axioms;

    if s.len() > 0 {
        lemma_entries_map_finite::<T>(s.drop_last());
    }
}

/// Strictly sorted keys are pairwise distinct.
pub proof fn lemma_sorted_distinct<T>(s: Seq<(String, T)>)
    requires
        entries_sorted(s),
    ensures
        forall|i: int, j: int| 0 <= i < j < s.len() ==> (#[trigger] s[i].0@) != (#[trigger] s[j].0@),
{
    assert forall|i: int, j: int| 0 <= i < j < s.len() implies (#[trigger] s[i].0@) != (
    #[trigger] s[j].0@) by {
        lemma_lex_trichotomy(s[i].0@, s[j].0@);
    }
}

/// A rule table: a name-to-tree mapping whose iteration order is the
/// sorted order of the names.
#[derive(Debug, PartialEq)]
pub struct RuleTable<T> {
    /// The entries, sorted by name.
    pub entries: Vec<(String, T)>,
}

impl<T: View> View for RuleTable<T> {
    type V = Map<Seq<char>, T::V>;

    open spec fn view(&self) -> Map<Seq<char>, T::V> {
        entries_map(self.entries@)
    }
}

impl<T: View> RuleTable<T> {
    /// The well-formedness invariant: entries strictly sorted by name.
    pub open spec fn wf(&self) -> bool {
        entries_sorted(self.entries@)
    }

    /// An empty table.
    pub fn new() -> (r: RuleTable<T>)
        ensures
            r.wf(),
            r@ == Map::<Seq<char>, T::V>::empty(),
            r.entries@.len() == 0,
    {
        RuleTable { entries: Vec::new() }
    }

    /// The number of rules held.
    pub fn len(&self) -> (r: usize)
        ensures
            r == self.entries@.len(),
    {
        self.entries.len()
    }

    /// Bind `key` to `node`, replacing any existing binding, and keeping the
    /// entries sorted.
    pub fn insert(&mut self, key: String, node: T)
        requires
            old(self).wf(),
        ensures
            final(self).wf(),
            final(self)@ == old(self)@.insert(key@, node@),
    {
        let ghost old_entries = self.entries@;
        let mut i: usize = 0;
        while i < self.entries.len() && str_lex_cmp(self.entries[i].0.as_str(), key.as_str()) == -1
            invariant
                self.entries@ == old_entries,
                entries_sorted(self.entries@),
                0 <= i <= self.entries@.len(),
                forall|j: int| 0 <= j < i ==> lex_lt(#[trigger] self.entries@[j].0@, key@),
            decreases self.entries@.len() - i,
        {
            i = i + 1;
        }
        let ghost n = self.entries@.len();
        if i < self.entries.len() && str_eq(self.entries[i].0.as_str(), key.as_str()) {
            proof {
                assert(old_entries[i as int].0@ == key@);
            }
            self.entries.set(i, (key, node));
            proof {
                assert(entries_sorted(self.entries@)) by {
                    assert forall|p: int, q: int|
                        0 <= p < q < self.entries@.len() implies lex_lt(
                        #[trigger] self.entries@[p].0@,
                        #[trigger] self.entries@[q].0@,
                    ) by {
                        assert(old_entries[p].0@ == self.entries@[p].0@);
                        assert(old_entries[q].0@ == self.entries@[q].0@);
                    }
                }
                lemma_sorted_distinct(old_entries);
                lemma_sorted_distinct(self.entries@);
                lemma_entries_map(old_entries);
                lemma_entries_map(self.entries@);
                assert forall|k: Seq<char>| #[trigger] self@.dom().contains(k) implies old(
                    self,
                )@.insert(key@, node@).dom().contains(k) && self@[k] == old(self)@.insert(
                    key@,
                    node@,
                )[k] by {
                    let idx = choose|idx: int|
                        0 <= idx < self.entries@.len() && (#[trigger] self.entries@[idx].0@) == k;
                    if k != key@ {
                        assert(idx != i);
                        assert(old_entries[idx] == self.entries@[idx]);
                    }
                }
                assert forall|k: Seq<char>| #[trigger] old(self)@.insert(
                    key@,
                    node@,
                ).dom().contains(k) implies self@.dom().contains(k) by {
                    if k == key@ {
                        assert(self.entries@[i as int].0@ == k);
                    } else {
                        let idx = choose|idx: int|
                            0 <= idx < old_entries.len() && (#[trigger] old_entries[idx].0@) == k;
                        assert(idx != i);
                        assert(self.entries@[idx].0@ == k);
                    }
                }
                assert(self@ =~= old(self)@.insert(key@, node@));
            }
        } else {
            proof {
                if i < old_entries.len() {
                    lemma_lex_trichotomy(old_entries[i as int].0@, key@);
                }
                assert forall|j: int| i <= j < old_entries.len() implies lex_lt(
                    key@,
                    #[trigger] old_entries[j].0@,
                ) by {
                    if j > i {
                        lemma_lex_trans(key@, old_entries[i as int].0@, old_entries[j].0@);
                    }
                }
            }
            self.entries.insert(i, (key, node));
            proof {
                assert forall|j: int| 0 <= j < self.entries@.len() implies self.entries@[j] == (
                    if j < i {
                        old_entries[j]
                    } else if j == i {
                        self.entries@[i as int]
                    } else {
                        old_entries[j - 1]
                    }
                ) by {}
                assert(self.entries@[i as int].0@ == key@);
                assert(entries_sorted(self.entries@)) by {
                    assert forall|p: int, q: int|
                        0 <= p < q < self.entries@.len() implies lex_lt(
                        #[trigger] self.entries@[p].0@,
                        #[trigger] self.entries@[q].0@,
                    ) by {
                        if q < i {
                        } else if p < i && q == i {
                        } else if p < i && q > i {
                            lemma_lex_trans(self.entries@[p].0@, key@, old_entries[q - 1].0@);
                        } else if p == i {
                        } else {
                        }
                    }
                }
                lemma_sorted_distinct(old_entries);
                lemma_sorted_distinct(self.entries@);
                lemma_entries_map(old_entries);
                lemma_entries_map(self.entries@);
                assert forall|k: Seq<char>| #[trigger] self@.dom().contains(k) implies old(
                    self,
                )@.insert(key@, node@).dom().contains(k) && self@[k] == old(self)@.insert(
                    key@,
                    node@,
                )[k] by {
                    let idx = choose|idx: int|
                        0 <= idx < self.entries@.len() && (#[trigger] self.entries@[idx].0@) == k;
                    if k != key@ {
                        assert(idx != i);
                        if idx < i {
                            assert(old_entries[idx].0@ == k);
                        } else {
                            assert(old_entries[idx - 1] == self.entries@[idx]);
                            assert(old_entries[idx - 1].0@ == k);
                        }
                    }
                }
                assert forall|k: Seq<char>| #[trigger] old(self)@.insert(
                    key@,
                    node@,
                ).dom().contains(k) implies self@.dom().contains(k) by {
                    if k == key@ {
                        assert(self.entries@[i as int].0@ == k);
                    } else {
                        let idx = choose|idx: int|
                            0 <= idx < old_entries.len() && (#[trigger] old_entries[idx].0@) == k;
                        if idx < i {
                            assert(self.entries@[idx].0@ == k);
                        } else {
                            assert(self.entries@[idx + 1].0@ == k);
                        }
                    }
                }
                assert(self@ =~= old(self)@.insert(key@, node@));
            }
        }
    }

    /// Look a rule up by name.
    pub fn get(&self, key: &str) -> (r: Option<&T>)
        requires
            self.wf(),
        ensures
            match r {
                Some(n) => self@.dom().contains(key@) && n@ == self@[key@],
                None => !self@.dom().contains(key@),
            },
    {
        proof {
            lemma_sorted_distinct(self.entries@);
            lemma_entries_map(self.entries@);
        }
        let mut i: usize = 0;
        while i < self.entries.len()
            invariant
                self.wf(),
                0 <= i <= self.entries@.len(),
                forall|j: int| 0 <= j < i ==> (#[trigger] self.entries@[j].0@) != key@,
            decreases self.entries@.len() - i,
        {
            if str_eq(self.entries[i].0.as_str(), key) {
                proof {
                    lemma_sorted_distinct(self.entries@);
                    lemma_entries_map(self.entries@);
                }
                return Some(&self.entries[i].1);
            }
            i = i + 1;
        }
        None
    }

    /// The rule at the given position in sorted order.
    pub fn entry_at(&self, i: usize) -> (r: (&String, &T))
        requires
            i < self.entries@.len(),
        ensures
            r.0@ == self.entries@[i as int].0@,
            r.1@ == self.entries@[i as int].1@,
    {
        (&self.entries[i].0, &self.entries[i].1)
    }
}

} // verus!
