//! Callbacks that keep the latest generation for others to read: every
//! cell whose state differs from the trivial one, and a count of the
//! generations seen.

use crate::board_states::{filter_non_default, non_default};
use crate::index::CellIndex;
use crate::neighbors::views;
use crate::state::CellState;
use crate::strategy::entry_views;
use vstd::prelude::*;

verus! {

/// The indices of the entries of `s`.
pub open spec fn entry_keys<V, T>(s: Seq<(V, T)>) -> Seq<V> {
    s.map_values(|e: (V, T)| e.0)
}

/// Keeps the cells of the latest generation whose state is not trivial.
///
/// The cells are kept in a `Vec` of index-state pairs, looked up by the
/// index's view, where a hash map would key them by the index type itself:
/// the index types are structs and vectors of the library, and a map keyed
/// by them would tie every lookup to `Eq` and `Hash` impls that derive wrote
/// and Verus does not read.
pub struct StatesCallback<T, CI> {
    trivial_state: T,
    iteration: usize,
    non_trivial_lookup: Vec<(CI, T)>,
}

impl<T: CellState, CI: CellIndex> StatesCallback<T, CI> {
    /// The trivial state.
    pub closed spec fn trivial_spec(&self) -> T {
        self.trivial_state
    }

    /// The number of times the cells were replaced.
    pub closed spec fn iteration_spec(&self) -> usize {
        self.iteration
    }

    /// The cells kept, with their states.
    pub closed spec fn lookup_spec(&self) -> Seq<(CI::V, T)> {
        entry_views(self.non_trivial_lookup@)
    }

    /// A callback that keeps no cell yet.
    pub fn new(trivial_state: T) -> (r: Self)
        ensures
            r.trivial_spec() == trivial_state,
            r.iteration_spec() == 0,
            r.lookup_spec() == Seq::<(CI::V, T)>::empty(),
    {
        let r = Self::new_with_non_trivial_lookup(trivial_state, Vec::new());
        r
    }

    /// A callback that keeps the cells of `non_trivial_lookup`.
    pub fn new_with_non_trivial_lookup(trivial_state: T, non_trivial_lookup: Vec<(CI, T)>) -> (r:
        Self)
        ensures
            r.trivial_spec() == trivial_state,
            r.iteration_spec() == 0,
            r.lookup_spec() == entry_views(non_trivial_lookup@),
    {
        Self { trivial_state, iteration: 0, non_trivial_lookup }
    }

    /// Replaces the cells kept by `lookup` and counts one more generation.
    pub fn set_non_trivial_lookup(&mut self, lookup: Vec<(CI, T)>)
        requires
            old(self).iteration_spec() < usize::MAX,
        ensures
            final(self).trivial_spec() == old(self).trivial_spec(),
            final(self).iteration_spec() == old(self).iteration_spec() + 1,
            final(self).lookup_spec() == entry_views(lookup@),
    {
        self.iteration = self.iteration + 1;
        self.non_trivial_lookup = lookup;
    }

    /// Keeps the cells of generation `states` whose state is not trivial.
    pub fn execute(&mut self, states: Vec<(CI, T)>)
        requires
            old(self).iteration_spec() < usize::MAX,
        ensures
            final(self).trivial_spec() == old(self).trivial_spec(),
            final(self).iteration_spec() == old(self).iteration_spec() + 1,
            final(self).lookup_spec() == non_default(entry_views(states@), old(self).trivial_spec()),
    {
        let kept = filter_non_default(&states, self.trivial_state);
        self.set_non_trivial_lookup(kept);
    }

    /// The trivial state.
    pub fn trivial_state(&self) -> (r: T)
        ensures
            r == self.trivial_spec(),
    {
        self.trivial_state
    }

    /// The number of times the cells were replaced.
    pub fn iteration(&self) -> (r: usize)
        ensures
            r == self.iteration_spec(),
    {
        self.iteration
    }

    /// The cells kept, with their states.
    pub fn non_trivial_lookup(&self) -> (r: &Vec<(CI, T)>)
        ensures
            entry_views(r@) == self.lookup_spec(),
    {
        &self.non_trivial_lookup
    }
}

/// Keeps the indices of the cells of the latest generation whose state is
/// not the trivial one, for a board of two states.
///
/// The cells are kept in a `Vec` of indices, looked up by the
/// index's view, where a hash set would key them by the index type itself:
/// the index types are structs and vectors of the library, and a set keyed
/// by them would tie every lookup to `Eq` and `Hash` impls that derive wrote
/// and Verus does not read.
pub struct BinaryStatesCallback<T, CI> {
    trivial_state: T,
    non_trivial_state: T,
    iteration: usize,
    non_trivial_indices: Vec<CI>,
}

impl<T: CellState, CI: CellIndex> BinaryStatesCallback<T, CI> {
    /// The trivial state.
    pub closed spec fn trivial_spec(&self) -> T {
        self.trivial_state
    }

    /// The other state.
    pub closed spec fn non_trivial_spec(&self) -> T {
        self.non_trivial_state
    }

    /// The number of times the indices were replaced.
    pub closed spec fn iteration_spec(&self) -> usize {
        self.iteration
    }

    /// The indices kept.
    pub closed spec fn indices_spec(&self) -> Seq<CI::V> {
        views(self.non_trivial_indices@)
    }

    /// A callback that keeps no index yet.
    pub fn new(trivial_state: T, non_trivial_state: T) -> (r: Self)
        ensures
            r.trivial_spec() == trivial_state,
            r.non_trivial_spec() == non_trivial_state,
            r.iteration_spec() == 0,
            r.indices_spec() == Seq::<CI::V>::empty(),
    {
        let r = Self::new_with_non_trivial_indices(trivial_state, non_trivial_state, Vec::new());
        assert(r.indices_spec() =~= Seq::<CI::V>::empty());
        r
    }

    /// A callback that keeps `non_trivial_indices`.
    pub fn new_with_non_trivial_indices(
        trivial_state: T,
        non_trivial_state: T,
        non_trivial_indices: Vec<CI>,
    ) -> (r: Self)
        ensures
            r.trivial_spec() == trivial_state,
            r.non_trivial_spec() == non_trivial_state,
            r.iteration_spec() == 0,
            r.indices_spec() == views(non_trivial_indices@),
    {
        Self { trivial_state, non_trivial_state, iteration: 0, non_trivial_indices }
    }

    /// Replaces the indices kept by `indices` and counts one more generation.
    pub fn set_non_trivial_states(&mut self, indices: Vec<CI>)
        requires
            old(self).iteration_spec() < usize::MAX,
        ensures
            final(self).trivial_spec() == old(self).trivial_spec(),
            final(self).non_trivial_spec() == old(self).non_trivial_spec(),
            final(self).iteration_spec() == old(self).iteration_spec() + 1,
            final(self).indices_spec() == views(indices@),
    {
        self.iteration = self.iteration + 1;
        self.non_trivial_indices = indices;
    }

    /// Keeps the indices of the cells of generation `states` whose state is
    /// not trivial.
    pub fn execute(&mut self, states: Vec<(CI, T)>)
        requires
            old(self).iteration_spec() < usize::MAX,
        ensures
            final(self).trivial_spec() == old(self).trivial_spec(),
            final(self).non_trivial_spec() == old(self).non_trivial_spec(),
            final(self).iteration_spec() == old(self).iteration_spec() + 1,
            final(self).indices_spec() == entry_keys(
                non_default(entry_views(states@), old(self).trivial_spec()),
            ),
    {
        let kept = filter_non_default(&states, self.trivial_state);
        let ghost target = entry_keys(non_default(entry_views(states@), self.trivial_state));
        let mut indices: Vec<CI> = Vec::new();
        let n = kept.len();
        for i in 0..n
            invariant
                n == kept@.len(),
                entry_views(kept@) == non_default(entry_views(states@), self.trivial_state),
                target == entry_keys(entry_views(kept@)),
                views(indices@) == target.subrange(0, i as int),
        {
            let k = kept[i].0.copy_index();
            let ghost prev = indices@;
            indices.push(k);
            proof {
                assert(indices@ == prev.push(k));
                assert(entry_views(kept@)[i as int] == (kept@[i as int].0@, kept@[i as int].1));
                assert(target[i as int] == k@);
                assert(views(indices@) =~= views(prev).push(k@));
                assert(target.subrange(0, i + 1) =~= target.subrange(0, i as int).push(target[i as int]));
            }
        }
        assert(target.subrange(0, n as int) =~= target);
        self.set_non_trivial_states(indices);
    }

    /// The trivial state.
    pub fn trivial_state(&self) -> (r: T)
        ensures
            r == self.trivial_spec(),
    {
        self.trivial_state
    }

    /// The other state.
    pub fn non_trivial_state(&self) -> (r: T)
        ensures
            r == self.non_trivial_spec(),
    {
        self.non_trivial_state
    }

    /// The number of times the indices were replaced.
    pub fn iteration(&self) -> (r: usize)
        ensures
            r == self.iteration_spec(),
    {
        self.iteration
    }

    /// The indices kept.
    pub fn non_trivial_indices(&self) -> (r: &Vec<CI>)
        ensures
            views(r@) == self.indices_spec(),
    {
        &self.non_trivial_indices
    }
}

} // verus!
