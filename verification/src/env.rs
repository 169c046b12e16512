//! The variable environment: a mapping from names to values, backed by an
//! association vector with unique keys and abstracted as a finite map.
//! Declarations create bindings, assignments mutate existing ones, and
//! block scoping snapshots the environment and merges changed values of
//! pre-existing names back (the leak-back policy).

use vstd::map::*;
use vstd::prelude::*;
use vstd::seq::axiom_seq_index_decreases;
use vstd::seq::axiom_seq_subrange_decreases;

use crate::error::TungError;
use crate::value::Value;
use crate::value::ValueModel;
use crate::value::clone_entries;
use crate::value::entries_find;
use crate::value::entry_values_wf;
use crate::value::unique_keys;

verus! {

/// The abstraction of an association sequence as a finite map; a later
/// entry for the same key wins.
pub open spec fn entries_map(es: Seq<(String, Value)>) -> Map<Seq<char>, ValueModel>
    decreases es,
{
    if es.len() == 0 {
        Map::empty()
    } else {
        proof {
            axiom_seq_subrange_decreases::<(String, Value)>(es, 0, es.len() - 1);
            axiom_seq_index_decreases::<(String, Value)>(es, es.len() - 1);
            assert(decreases_to!(es.last() => es.last().1));
        }
        entries_map(es.drop_last()).insert(es.last().0@, es.last().1.model())
    }
}

/// A key is in the map abstraction exactly when some entry carries it.
pub broadcast proof fn lemma_entries_map_dom(es: Seq<(String, Value)>, k: Seq<char>)
    ensures
        #[trigger] entries_map(es).dom().contains(k) <==> (exists|i: int|
            0 <= i < es.len() && (#[trigger] es[i].0@) == k),
    decreases es,
{
    if es.len() > 0 {
        lemma_entries_map_dom(es.drop_last(), k);
        assert forall|i: int| 0 <= i < es.len() && (#[trigger] es[i].0@) == k
            implies entries_map(es).dom().contains(k) by {
            if i < es.len() - 1 {
                assert(es.drop_last()[i] == es[i]);
                assert(es.drop_last()[i].0@ == k);
            } else {
                assert(es.last().0@ == k);
            }
        }
        if entries_map(es).dom().contains(k) && k != es.last().0@ {
            let i = choose|i: int|
                0 <= i < es.drop_last().len() && (#[trigger] es.drop_last()[i].0@) == k;
            assert(es.drop_last()[i] == es[i]);
            assert(es[i].0@ == k);
        }
    }
}

/// Under unique keys, the map abstraction sends each entry's key to that
/// entry's value.
pub proof fn lemma_entries_map_index(es: Seq<(String, Value)>, i: int)
    requires
        unique_keys(es),
        0 <= i < es.len(),
    ensures
        entries_map(es).dom().contains(es[i].0@),
        entries_map(es)[es[i].0@] == es[i].1.model(),
    decreases es,
{
    lemma_entries_map_dom(es, es[i].0@);
    if i < es.len() - 1 {
        assert forall|p: int, q: int| 0 <= p < q < es.drop_last().len()
            implies (#[trigger] es.drop_last()[p].0@) != (#[trigger] es.drop_last()[q].0@) by {
            assert(es.drop_last()[p] == es[p]);
            assert(es.drop_last()[q] == es[q]);
        }
        lemma_entries_map_index(es.drop_last(), i);
        assert(es.drop_last()[i] == es[i]);
        assert(es[es.len() - 1].0@ != es[i].0@);
    }
}

/// The variable environment of a run.
pub struct Environment {
    entries: Vec<(String, Value)>,
}

impl Environment {
    /// The abstraction of this environment as a map from names to
    /// abstract values.
    pub closed spec fn model(self) -> Map<Seq<char>, ValueModel> {
        entries_map(self.entries@)
    }

    /// Well-formedness: unique names, well-formed values.
    pub closed spec fn wf(self) -> bool {
        unique_keys(self.entries@) && entry_values_wf(self.entries@)
    }

    /// An empty environment.
    pub fn new() -> (r: Environment)
        ensures
            r.wf(),
            r.model() == Map::<Seq<char>, ValueModel>::empty(),
    {
        Environment { entries: Vec::new() }
    }

    /// Whether `name` is bound.
    pub fn contains(&self, name: &String) -> (r: bool)
        ensures
            r == self.model().dom().contains(name@),
    {
        proof {
            lemma_entries_map_dom(self.entries@, name@);
        }
        entries_find(&self.entries, name).is_some()
    }

    /// Looks a name up, returning a copy of its value.
    pub fn get(&self, name: &String) -> (r: Option<Value>)
        requires
            self.wf(),
        ensures
            match r {
                Some(v) => self.model().dom().contains(name@) && v.model() == self.model()[name@]
                    && v.wf(),
                None => !self.model().dom().contains(name@),
            },
    {
        proof {
            lemma_entries_map_dom(self.entries@, name@);
        }
        match entries_find(&self.entries, name) {
            Some(i) => {
                proof {
                    lemma_entries_map_index(self.entries@, i as int);
                }
                Some(self.entries[i].1.clone())
            },
            None => None,
        }
    }

    /// Binds a new name. Re-declaring any visible name is a fault and
    /// leaves the environment unchanged.
    pub fn declare(&mut self, name: String, value: Value) -> (r: Result<(), TungError>)
        requires
            old(self).wf(),
            value.wf(),
        ensures
            final(self).wf(),
            match r {
                Ok(()) => !old(self).model().dom().contains(name@)
                    && final(self).model() == old(self).model().insert(name@, value.model()),
                Err(e) => old(self).model().dom().contains(name@)
                    && e.model() == crate::error::ErrorModel::VariableAlreadyDeclared(name@)
                    && *final(self) == *old(self),
            },
    {
        proof {
            lemma_entries_map_dom(self.entries@, name@);
        }
        if entries_find(&self.entries, &name).is_some() {
            return Err(TungError::VariableAlreadyDeclared(name));
        }
        let ghost before = self.entries@;
        self.entries.push((name, value));
        proof {
            assert(self.entries@.drop_last() =~= before);
            assert forall|p: int, q: int| 0 <= p < q < self.entries@.len()
                implies (#[trigger] self.entries@[p].0@) != (#[trigger] self.entries@[q].0@) by {
                if q < self.entries@.len() - 1 {
                    assert(before[p] == self.entries@[p]);
                    assert(before[q] == self.entries@[q]);
                } else {
                    assert(before[p] == self.entries@[p]);
                }
            }
            assert forall|i: int| 0 <= i < self.entries@.len()
                implies (#[trigger] self.entries@[i].1).wf() by {
                if i < self.entries@.len() - 1 {
                    assert(before[i] == self.entries@[i]);
                }
            }
        }
        Ok(())
    }

    /// Rebinds an existing name. Assigning to an unbound name is a fault
    /// and leaves the environment unchanged.
    pub fn assign(&mut self, name: String, value: Value) -> (r: Result<(), TungError>)
        requires
            old(self).wf(),
            value.wf(),
        ensures
            final(self).wf(),
            match r {
                Ok(()) => old(self).model().dom().contains(name@)
                    && final(self).model() == old(self).model().insert(name@, value.model()),
                Err(e) => !old(self).model().dom().contains(name@)
                    && e.model() == crate::error::ErrorModel::UndeclaredAssignment(name@)
                    && *final(self) == *old(self),
            },
    {
        proof {
            lemma_entries_map_dom(self.entries@, name@);
        }
        match entries_find(&self.entries, &name) {
            Some(i) => {
                let ghost before = self.entries@;
                self.entries.set(i, (name, value));
                proof {
                    lemma_set_entry(before, self.entries@, i as int, value.model());
                }
                Ok(())
            },
            None => Err(TungError::UndeclaredAssignment(name)),
        }
    }

    /// A copy of this environment, for entering a block.
    pub fn snapshot(&self) -> (r: Environment)
        requires
            self.wf(),
        ensures
            r.wf(),
            r.model() == self.model(),
    {
        let copied = clone_entries(&self.entries);
        proof {
            lemma_entries_same_map(self.entries@, copied@);
            assert forall|p: int, q: int| 0 <= p < q < copied@.len()
                implies (#[trigger] copied@[p].0@) != (#[trigger] copied@[q].0@) by {
                assert(self.entries@[p].0@ == copied@[p].0@);
                assert(self.entries@[q].0@ == copied@[q].0@);
            }
            assert forall|i: int| 0 <= i < copied@.len()
                implies (#[trigger] copied@[i].1).wf() by {
                assert(self.entries@[i].1.wf());
            }
        }
        Environment { entries: copied }
    }

    /// Leak-back on leaving a block: every name bound here takes the
    /// value the block left for it; names created inside the block are
    /// discarded with it.
    #[verifier::loop_isolation(false)]
    pub fn merge_back(&mut self, child: &Environment)
        requires
            old(self).wf(),
            child.wf(),
        ensures
            final(self).wf(),
            final(self).model() == merge_scopes(old(self).model(), child.model()),
    {
        let ghost merged = merge_scopes(old(self).model(), child.model());
        let mut i: usize = 0;
        while i < self.entries.len()
            invariant
                i <= self.entries@.len(),
                self.entries@.len() == old(self).entries@.len(),
                child.wf(),
                old(self).wf(),
                forall|j: int| 0 <= j < self.entries@.len()
                    ==> (#[trigger] self.entries@[j].0@) == old(self).entries@[j].0@,
                forall|j: int| 0 <= j < self.entries@.len() ==> (#[trigger] self.entries@[j].1).wf(),
                forall|j: int| i <= j < self.entries@.len()
                    ==> (#[trigger] self.entries@[j].1.model())
                        == old(self).entries@[j].1.model(),
                forall|j: int| 0 <= j < i
                    ==> (#[trigger] self.entries@[j].1.model()) == merged[self.entries@[j].0@],
            decreases self.entries@.len() - i,
        {
            proof {
                assert(old(self).entries@[i as int].0@ == self.entries@[i as int].0@);
                lemma_entries_map_dom(old(self).entries@, self.entries@[i as int].0@);
                lemma_entries_map_index(old(self).entries@, i as int);
            }
            let name = self.entries[i].0.clone();
            match child.get(&name) {
                Some(v) => {
                    let ghost before = self.entries@;
                    self.entries.set(i, (name, v));
                    proof {
                        assert forall|j: int| 0 <= j < self.entries@.len()
                            implies (#[trigger] self.entries@[j].0@)
                                == old(self).entries@[j].0@ by {
                            if j != i {
                                assert(self.entries@[j] == before[j]);
                            }
                        }
                    }
                },
                None => {
                    proof {
                        assert(self.entries@[i as int].1.model()
                            == old(self).entries@[i as int].1.model());
                    }
                },
            }
            i += 1;
        }
        proof {
            assert(merged == merge_scopes(entries_map(old(self).entries@), child.model()));
            assert forall|j: int| 0 <= j < self.entries@.len()
                implies (#[trigger] self.entries@[j].1.model())
                    == merge_scopes(entries_map(old(self).entries@), child.model())[
                        self.entries@[j].0@] by {
                assert(self.entries@[j].1.model() == merged[self.entries@[j].0@]);
            }
            lemma_merge_done(old(self).entries@, self.entries@, child.model());
        }
    }
}

/// The leak-back merge of a parent scope with the scope a block left
/// behind: the parent's names, each taking the block's value when the
/// block still binds it.
pub open spec fn merge_scopes(
    parent: Map<Seq<char>, ValueModel>,
    child: Map<Seq<char>, ValueModel>,
) -> Map<Seq<char>, ValueModel> {
    Map::new(
        |k: Seq<char>| parent.dom().contains(k),
        |k: Seq<char>| if child.dom().contains(k) {
            child[k]
        } else {
            parent[k]
        },
    )
}

/// Entry sequences with equal keys and equal value abstractions have the
/// same map abstraction.
proof fn lemma_entries_same_map(a: Seq<(String, Value)>, b: Seq<(String, Value)>)
    requires
        a.len() == b.len(),
        forall|i: int| 0 <= i < a.len()
            ==> (#[trigger] a[i]).0@ == (#[trigger] b[i]).0@ && a[i].1.model() == b[i].1.model(),
    ensures
        entries_map(a) == entries_map(b),
    decreases a,
{
    if a.len() > 0 {
        assert forall|i: int| 0 <= i < a.drop_last().len()
            implies (#[trigger] a.drop_last()[i]).0@ == (#[trigger] b.drop_last()[i]).0@
                && a.drop_last()[i].1.model() == b.drop_last()[i].1.model() by {
            assert(a.drop_last()[i] == a[i]);
            assert(b.drop_last()[i] == b[i]);
        }
        lemma_entries_same_map(a.drop_last(), b.drop_last());
        assert(a.last() == a[a.len() - 1]);
        assert(b.last() == b[b.len() - 1]);
    }
}

/// Overwriting one entry's value updates the map abstraction at its key,
/// provided the keys are unique and the entry keeps its key.
proof fn lemma_set_entry(
    before: Seq<(String, Value)>,
    after: Seq<(String, Value)>,
    i: int,
    v: ValueModel,
)
    requires
        unique_keys(before),
        entry_values_wf(before),
        0 <= i < before.len(),
        after.len() == before.len(),
        forall|j: int| 0 <= j < before.len() && j != i ==> #[trigger] after[j] == before[j],
        after[i].0@ == before[i].0@,
        after[i].1.model() == v,
        after[i].1.wf(),
    ensures
        unique_keys(after),
        entry_values_wf(after),
        entries_map(after) == entries_map(before).insert(before[i].0@, v),
{
    assert forall|p: int, q: int| 0 <= p < q < after.len()
        implies (#[trigger] after[p].0@) != (#[trigger] after[q].0@) by {
        assert(after[p].0@ == before[p].0@);
        assert(after[q].0@ == before[q].0@);
    }
    assert forall|j: int| 0 <= j < after.len() implies (#[trigger] after[j].1).wf() by {
        if j != i {
            assert(after[j] == before[j]);
        }
    }
    let ma = entries_map(after);
    let mb = entries_map(before).insert(before[i].0@, v);
    assert_maps_equal!(ma, mb, k => {
        if ma.dom().contains(k) {
            lemma_entries_map_dom(after, k);
            let p = choose|p: int| 0 <= p < after.len() && (#[trigger] after[p].0@) == k;
            lemma_entries_map_index(after, p);
            lemma_entries_map_dom(before, k);
            assert(before[p].0@ == k);
            if p == i {
                assert(ma[k] == v);
            } else {
                lemma_entries_map_index(before, p);
                assert(before[p].0@ != before[i].0@);
            }
        }
        if mb.dom().contains(k) {
            if k == before[i].0@ {
                lemma_entries_map_dom(after, k);
                assert(after[i].0@ == k);
                lemma_entries_map_index(after, i);
            } else {
                lemma_entries_map_dom(before, k);
                let p = choose|p: int| 0 <= p < before.len() && (#[trigger] before[p].0@) == k;
                lemma_entries_map_dom(after, k);
                assert(after[p].0@ == k);
                lemma_entries_map_index(after, p);
                lemma_entries_map_index(before, p);
            }
        }
    });
}

/// After the merge loop has rewritten every bound value, the environment
/// realises [`merge_scopes`].
proof fn lemma_merge_done(
    before: Seq<(String, Value)>,
    after: Seq<(String, Value)>,
    child: Map<Seq<char>, ValueModel>,
)
    requires
        unique_keys(before),
        after.len() == before.len(),
        forall|j: int| 0 <= j < after.len()
            ==> (#[trigger] after[j].0@) == before[j].0@,
        forall|j: int| 0 <= j < after.len()
            ==> (#[trigger] after[j].1.model())
                == merge_scopes(entries_map(before), child)[after[j].0@],
    ensures
        entries_map(after) == merge_scopes(entries_map(before), child),
{
    let merged = merge_scopes(entries_map(before), child);
    assert forall|p: int, q: int| 0 <= p < q < after.len()
        implies (#[trigger] after[p].0@) != (#[trigger] after[q].0@) by {
        assert(after[p].0@ == before[p].0@);
        assert(after[q].0@ == before[q].0@);
    }
    assert_maps_equal!(entries_map(after), merged, k => {
        if entries_map(after).dom().contains(k) {
            lemma_entries_map_dom(after, k);
            let p = choose|p: int| 0 <= p < after.len() && (#[trigger] after[p].0@) == k;
            lemma_entries_map_index(after, p);
            lemma_entries_map_dom(before, k);
            assert(before[p].0@ == k);
        }
        if merged.dom().contains(k) {
            lemma_entries_map_dom(before, k);
            let p = choose|p: int| 0 <= p < before.len() && (#[trigger] before[p].0@) == k;
            lemma_entries_map_dom(after, k);
            assert(after[p].0@ == k);
            lemma_entries_map_index(after, p);
        }
    });
}

} // verus!
