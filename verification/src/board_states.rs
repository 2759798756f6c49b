//! Storage of cell states: every cell has a default state unless it is
//! recorded with another one.

use crate::index::CellIndex;
use crate::neighbors::views;
use crate::state::CellState;
use crate::strategy::entry_views;
use vstd::prelude::*;

verus! {

/// Reads and replaces the states of cells; indices are taken by their views.
pub trait BoardStateManager<T, CI: View>: Sized {
    /// The state of cell `idx`.
    spec fn spec_state(&self, idx: CI::V) -> T;

    /// The state of cell `idx` after the states are replaced by `new_states`.
    spec fn state_after_update(&self, new_states: Seq<(CI::V, T)>, idx: CI::V) -> T;

    fn get_cell_state(&self, idx: &CI) -> (r: T)
        ensures
            r == self.spec_state(idx@),
    ;

    /// Replaces all states: afterwards a cell has the state that
    /// `new_states` gives it, or the default state.
    fn update_cell_states_from_par_iter(&mut self, new_states: Vec<(CI, T)>)
        ensures
            forall|k: CI::V| #[trigger] final(self).spec_state(k) == old(self).state_after_update(
                entry_views(new_states@),
                k,
            ),
    ;
}

/// The state of the last entry for `k` in `s`, or `default` when there is none.
pub open spec fn last_entry<V, T>(s: Seq<(V, T)>, k: V, default: T) -> T
    decreases s.len(),
{
    if s.len() == 0 {
        default
    } else if s.last().0 == k {
        s.last().1
    } else {
        last_entry(s.drop_last(), k, default)
    }
}

/// The entries of `s` whose state differs from `default`, in order.
pub open spec fn non_default<V, T>(s: Seq<(V, T)>, default: T) -> Seq<(V, T)>
    decreases s.len(),
{
    if s.len() == 0 {
        seq![]
    } else {
        let rest = non_default(s.drop_last(), default);
        if s.last().1 != default {
            rest.push(s.last())
        } else {
            rest
        }
    }
}

/// Whether some entry of `s` records `k` with a state other than `default`.
pub open spec fn has_non_default<V, T>(s: Seq<(V, T)>, k: V, default: T) -> bool {
    exists|i: int| 0 <= i < s.len() && (#[trigger] s[i]).0 == k && s[i].1 != default
}

/// No index appears twice among the entries of `s`.
pub open spec fn unique_keys<V, T>(s: Seq<(V, T)>) -> bool {
    forall|i: int, j: int| 0 <= i < j < s.len() ==> (#[trigger] s[i]).0 != (#[trigger] s[j]).0
}

proof fn lemma_last_entry_absent<V, T>(s: Seq<(V, T)>, k: V, d: T)
    requires
        forall|i: int| 0 <= i < s.len() ==> (#[trigger] s[i]).0 != k,
    ensures
        last_entry(s, k, d) == d,
    decreases s.len(),
{
    if s.len() > 0 {
        assert(s.last() == s[s.len() - 1]);
        lemma_last_entry_absent(s.drop_last(), k, d);
    }
}

proof fn lemma_last_entry_non_default<V, T>(s: Seq<(V, T)>, k: V, d: T)
    requires
        unique_keys(s),
    ensures
        last_entry(non_default(s, d), k, d) == last_entry(s, k, d),
        has_non_default(s, k, d) <==> last_entry(s, k, d) != d,
    decreases s.len(),
{
    if s.len() > 0 {
        let rest = s.drop_last();
        assert(unique_keys(rest)) by {
            assert forall|i: int, j: int| 0 <= i < j < rest.len() implies (#[trigger] rest[i]).0
                != (#[trigger] rest[j]).0 by {
                assert(rest[i] == s[i] && rest[j] == s[j]);
            }
        }
        lemma_last_entry_non_default(rest, k, d);
        let last = s.last();
        assert(last == s[s.len() - 1]);
        let ndr = non_default(rest, d);
        if last.1 != d {
            assert(non_default(s, d) == ndr.push(last));
            assert(ndr.push(last).drop_last() == ndr);
            assert(ndr.push(last).last() == last);
        } else {
            assert(non_default(s, d) == ndr);
        }
        if last.0 == k {
            assert forall|i: int| 0 <= i < rest.len() implies (#[trigger] rest[i]).0 != k by {
                assert(rest[i] == s[i]);
            }
            lemma_last_entry_absent(rest, k, d);
            lemma_non_default_keys(rest, d);
            let nd = non_default(rest, d);
            assert forall|i: int| 0 <= i < nd.len() implies (#[trigger] nd[i]).0 != k by {
                let j = choose|j: int| 0 <= j < rest.len() && rest[j] == nd[i];
                assert(rest[j].0 != k);
            }
            lemma_last_entry_absent(nd, k, d);
            if last.1 != d {
                assert(has_non_default(s, k, d)) by {
                    assert(s[s.len() - 1].0 == k && s[s.len() - 1].1 != d);
                }
            } else {
                assert(!has_non_default(s, k, d)) by {
                    if has_non_default(s, k, d) {
                        let i = choose|i: int| 0 <= i < s.len() && (#[trigger] s[i]).0 == k && s[i].1 != d;
                        if i < s.len() - 1 {
                            assert(rest[i] == s[i]);
                        }
                    }
                }
            }
        } else {
            assert(has_non_default(s, k, d) <==> has_non_default(rest, k, d)) by {
                if has_non_default(s, k, d) {
                    let i = choose|i: int| 0 <= i < s.len() && (#[trigger] s[i]).0 == k && s[i].1 != d;
                    assert(i < s.len() - 1);
                    assert(rest[i] == s[i]);
                }
                if has_non_default(rest, k, d) {
                    let i = choose|i: int| 0 <= i < rest.len() && (#[trigger] rest[i]).0 == k && rest[i].1 != d;
                    assert(s[i] == rest[i]);
                }
            }
        }
    }
}

proof fn lemma_non_default_keys<V, T>(s: Seq<(V, T)>, d: T)
    ensures
        forall|i: int|
            0 <= i < non_default(s, d).len() ==> exists|j: int|
                0 <= j < s.len() && s[j] == #[trigger] non_default(s, d)[i],
    decreases s.len(),
{
    if s.len() > 0 {
        lemma_non_default_keys(s.drop_last(), d);
        let rest = non_default(s.drop_last(), d);
        assert forall|i: int| 0 <= i < non_default(s, d).len() implies exists|j: int|
            0 <= j < s.len() && s[j] == #[trigger] non_default(s, d)[i] by {
            if i < rest.len() {
                let j = choose|j: int| 0 <= j < s.drop_last().len() && s.drop_last()[j] == rest[i];
                assert(s[j] == s.drop_last()[j]);
            } else {
                assert(s[s.len() - 1] == s.last());
            }
        }
    }
}

/// Copies the entries of `s` whose state differs from `default`.
pub fn filter_non_default<CI: CellIndex, T: CellState>(s: &Vec<(CI, T)>, default: T) -> (r: Vec<(CI, T)>)
    ensures
        entry_views(r@) == non_default(entry_views(s@), default),
{
    let ghost ev = entry_views(s@);
    let mut r: Vec<(CI, T)> = Vec::new();
    let n = s.len();
    for i in 0..n
        invariant
            n == s@.len(),
            ev == entry_views(s@),
            entry_views(r@) == non_default(ev.subrange(0, i as int), default),
    {
        proof {
            assert(ev.subrange(0, i + 1).drop_last() == ev.subrange(0, i as int));
        }
        if !s[i].1.same_state(&default) {
            let k = s[i].0.copy_index();
            let ghost prev = r@;
            r.push((k, s[i].1));
            proof {
                assert(r@ == prev.push((k, s@[i as int].1)));
                assert(entry_views(r@) =~= entry_views(prev).push(ev[i as int]));
            }
        }
    }
    assert(ev.subrange(0, n as int) == ev);
    r
}

/// A state for every cell: the state recorded last for it, or the default.
///
/// The cells are kept in a `Vec` of index-state pairs, looked up by the
/// index's view, where a hash map would key them by the index type itself:
/// the index types are structs and vectors of the library, and a map keyed
/// by them would tie every lookup to `Eq` and `Hash` impls that derive wrote
/// and Verus does not read.
pub struct SparseStates<T, CI> {
    default_state: T,
    lookup: Vec<(CI, T)>,
}

impl<T: CellState, CI: CellIndex> SparseStates<T, CI> {
    pub closed spec fn spec_default(&self) -> T {
        self.default_state
    }

    pub closed spec fn spec_lookup(&self) -> Seq<(CI::V, T)> {
        entry_views(self.lookup@)
    }

    /// States given by `initial_states`, the default elsewhere.
    pub fn new(default_state: T, initial_states: Vec<(CI, T)>) -> (r: Self)
        ensures
            r.spec_default() == default_state,
            forall|k: CI::V| #[trigger] r.spec_state(k) == last_entry(entry_views(initial_states@), k, default_state),
    {
        Self { default_state, lookup: initial_states }
    }
}

impl<T: CellState, CI: CellIndex> BoardStateManager<T, CI> for SparseStates<T, CI> {
    open spec fn spec_state(&self, idx: CI::V) -> T {
        last_entry(self.spec_lookup(), idx, self.spec_default())
    }

    open spec fn state_after_update(&self, new_states: Seq<(CI::V, T)>, idx: CI::V) -> T {
        last_entry(non_default(new_states, self.spec_default()), idx, self.spec_default())
    }

    fn get_cell_state(&self, idx: &CI) -> (r: T) {
        let ghost ev = entry_views(self.lookup@);
        let mut i = self.lookup.len();
        assert(ev.subrange(0, i as int) == ev);
        while i > 0
            invariant
                i <= self.lookup@.len(),
                ev == entry_views(self.lookup@),
                last_entry(ev, idx@, self.default_state) == last_entry(
                    ev.subrange(0, i as int),
                    idx@,
                    self.default_state,
                ),
            decreases i,
        {
            let ghost sub = ev.subrange(0, i as int);
            assert(sub.drop_last() == ev.subrange(0, i - 1));
            if self.lookup[i - 1].0.same_index(idx) {
                return self.lookup[i - 1].1;
            }
            i = i - 1;
        }
        self.default_state
    }

    fn update_cell_states_from_par_iter(&mut self, new_states: Vec<(CI, T)>) {
        self.lookup = filter_non_default(&new_states, self.default_state);
    }
}

/// Two states: cells listed in the non-default indices have the non-default
/// state, every other cell the default one.
///
/// The cells are kept in a `Vec` of indices, looked up by the
/// index's view, where a hash set would key them by the index type itself:
/// the index types are structs and vectors of the library, and a set keyed
/// by them would tie every lookup to `Eq` and `Hash` impls that derive wrote
/// and Verus does not read.
pub struct SparseBinaryStates<T, CI> {
    default_state: T,
    non_default_state: T,
    non_default_indices: Vec<CI>,
}

impl<T: CellState, CI: CellIndex> SparseBinaryStates<T, CI> {
    pub closed spec fn spec_default(&self) -> T {
        self.default_state
    }

    pub closed spec fn spec_non_default(&self) -> T {
        self.non_default_state
    }

    pub closed spec fn spec_indices(&self) -> Seq<CI::V> {
        views(self.non_default_indices@)
    }

    /// The non-default state exactly on `initial_non_defaults`.
    pub fn new(default_state: T, non_default_state: T, initial_non_defaults: &Vec<CI>) -> (r: Self)
        ensures
            r.spec_default() == default_state,
            r.spec_non_default() == non_default_state,
            r.spec_indices() == views(initial_non_defaults@),
    {
        let mut v: Vec<CI> = Vec::new();
        let n = initial_non_defaults.len();
        for i in 0..n
            invariant
                n == initial_non_defaults@.len(),
                views(v@) == views(initial_non_defaults@).subrange(0, i as int),
        {
            let k = initial_non_defaults[i].copy_index();
            let ghost prev = v@;
            v.push(k);
            proof {
                assert(v@ == prev.push(k));
                assert(views(v@) =~= views(prev).push(k@));
                assert(views(v@) =~= views(initial_non_defaults@).subrange(0, i + 1));
            }
        }
        assert(views(initial_non_defaults@).subrange(0, n as int) == views(initial_non_defaults@));
        Self { default_state, non_default_state, non_default_indices: v }
    }
}

impl<T: CellState, CI: CellIndex> BoardStateManager<T, CI> for SparseBinaryStates<T, CI> {
    open spec fn spec_state(&self, idx: CI::V) -> T {
        if self.spec_indices().contains(idx) {
            self.spec_non_default()
        } else {
            self.spec_default()
        }
    }

    open spec fn state_after_update(&self, new_states: Seq<(CI::V, T)>, idx: CI::V) -> T {
        if has_non_default(new_states, idx, self.spec_default()) {
            self.spec_non_default()
        } else {
            self.spec_default()
        }
    }

    fn get_cell_state(&self, idx: &CI) -> (r: T) {
        let n = self.non_default_indices.len();
        let ghost vs = views(self.non_default_indices@);
        for i in 0..n
            invariant
                n == self.non_default_indices@.len(),
                vs == views(self.non_default_indices@),
                forall|j: int| 0 <= j < i ==> vs[j] != idx@,
        {
            if self.non_default_indices[i].same_index(idx) {
                assert(vs[i as int] == idx@);
                return self.non_default_state;
            }
        }
        assert(!vs.contains(idx@));
        self.default_state
    }

    fn update_cell_states_from_par_iter(&mut self, new_states: Vec<(CI, T)>) {
        let ghost ev = entry_views(new_states@);
        let d = self.default_state;
        let mut v: Vec<CI> = Vec::new();
        let n = new_states.len();
        for i in 0..n
            invariant
                n == new_states@.len(),
                ev == entry_views(new_states@),
                forall|k: CI::V| views(v@).contains(k) <==> has_non_default(ev.subrange(0, i as int), k, d),
        {
            let ghost prev = views(v@);
            let ghost sub = ev.subrange(0, i + 1);
            let ghost before = ev.subrange(0, i as int);
            assert(ev[i as int] == (new_states@[i as int].0@, new_states@[i as int].1));
            assert forall|k: CI::V| has_non_default(sub, k, d) <==> (has_non_default(before, k, d) || (ev[i as int].0 == k && ev[i as int].1 != d)) by {
                if has_non_default(sub, k, d) {
                    let j = choose|j: int| 0 <= j < sub.len() && (#[trigger] sub[j]).0 == k && sub[j].1 != d;
                    if j < i {
                        assert(before[j] == sub[j]);
                    }
                }
                if has_non_default(before, k, d) {
                    let j = choose|j: int| 0 <= j < before.len() && (#[trigger] before[j]).0 == k && before[j].1 != d;
                    assert(sub[j] == before[j]);
                }
                if ev[i as int].0 == k && ev[i as int].1 != d {
                    assert(sub[i as int] == ev[i as int]);
                }
            }
            if !new_states[i].1.same_state(&d) {
                let k = new_states[i].0.copy_index();
                let ghost prev_v = v@;
                v.push(k);
                proof {
                    assert(v@ == prev_v.push(k));
                    assert(views(v@) =~= prev.push(k@));
                    assert forall|k2: CI::V| views(v@).contains(k2) <==> (prev.contains(k2) || k2 == k@) by {
                        if views(v@).contains(k2) {
                            let j = choose|j: int| 0 <= j < views(v@).len() && views(v@)[j] == k2;
                            if j < prev.len() {
                                assert(prev[j] == k2);
                            }
                        }
                        if prev.contains(k2) {
                            let j = choose|j: int| 0 <= j < prev.len() && prev[j] == k2;
                            assert(views(v@)[j] == k2);
                        }
                        if k2 == k@ {
                            assert(views(v@)[prev.len() as int] == k2);
                        }
                    }
                }
            }
            assert forall|k: CI::V| views(v@).contains(k) <==> has_non_default(sub, k, d) by {
                assert(has_non_default(sub, k, d) <==> (has_non_default(before, k, d) || (ev[i as int].0 == k && ev[i as int].1 != d)));
                assert(prev.contains(k) <==> has_non_default(before, k, d));
            }
        }
        assert(ev.subrange(0, n as int) == ev);
        self.non_default_indices = v;
    }
}

/// Reading back an update: after the states are replaced by `new_states`,
/// in which no cell appears twice, each cell has the state that
/// `new_states` gives it, or the default where it gives none.
pub proof fn lemma_sparse_read_after_update<T: CellState, CI: CellIndex>(
    s: SparseStates<T, CI>,
    new_states: Seq<(CI::V, T)>,
    k: CI::V,
)
    requires
        unique_keys(new_states),
    ensures
        s.state_after_update(new_states, k) == last_entry(new_states, k, s.spec_default()),
{
    lemma_last_entry_non_default(new_states, k, s.spec_default());
}

/// Reading back an update of a two-state board: after the states are
/// replaced by `new_states`, in which no cell appears twice and every state
/// is one of the two, each cell has the state that `new_states` gives it,
/// or the default where it gives none.
pub proof fn lemma_sparse_binary_read_after_update<T: CellState, CI: CellIndex>(
    s: SparseBinaryStates<T, CI>,
    new_states: Seq<(CI::V, T)>,
    k: CI::V,
)
    requires
        unique_keys(new_states),
        forall|i: int|
            0 <= i < new_states.len() ==> (#[trigger] new_states[i]).1 == s.spec_default()
                || new_states[i].1 == s.spec_non_default(),
    ensures
        s.state_after_update(new_states, k) == last_entry(new_states, k, s.spec_default()),
{
    lemma_last_entry_non_default(new_states, k, s.spec_default());
    lemma_last_entry_in(new_states, k, s.spec_default(), s.spec_non_default());
}

proof fn lemma_last_entry_in<V, T>(s: Seq<(V, T)>, k: V, d: T, nd: T)
    requires
        forall|i: int| 0 <= i < s.len() ==> (#[trigger] s[i]).1 == d || s[i].1 == nd,
    ensures
        last_entry(s, k, d) == d || last_entry(s, k, d) == nd,
    decreases s.len(),
{
    if s.len() > 0 {
        assert(s.last() == s[s.len() - 1]);
        lemma_last_entry_in(s.drop_last(), k, d, nd);
    }
}

} // verus!
