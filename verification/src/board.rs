//! A board: a space of cells, a neighbourhood rule, the cell states and the
//! evolution strategy, advanced one generation at a time.

use crate::board_states::{BoardStateManager, SparseStates};
use crate::index::{CellIndex, GridPointND};
use crate::neighbors::grid_surround::NeighborsGridSurround;
use crate::neighbors::{views, BoardNeighborManager, CheckedNeighbors};
use crate::neighbors::grid_surround::volume;
use crate::space::{grid_cell, grid_shape_ok, BoardSpaceManager, GridND};
use crate::state::{BinaryState, CellState};
use crate::strategy::{
    count_alive, entry_views, BinaryStrategy, BoardStrategyManager, DiscreteDecayStrategy,
    EvolutionStrategy, SharedStrategyManager,
};
use core::marker::PhantomData;
use vstd::prelude::*;

verus! {

/// A board built from its four managers.
pub struct StandardBoard<CI, T, S, N, M, G> {
    space_manager: S,
    neighbor_manager: N,
    state_manager: M,
    strategy_manager: G,
    index_type: PhantomData<(CI, T)>,
}

impl<
    CI: CellIndex,
    T: CellState,
    S: BoardSpaceManager<CI>,
    N: BoardNeighborManager<CI>,
    M: BoardStateManager<T, CI>,
    G: BoardStrategyManager<CI, T>,
> StandardBoard<CI, T, S, N, M, G> {
    pub closed spec fn spec_space(&self) -> S {
        self.space_manager
    }

    pub closed spec fn spec_neighbor_manager(&self) -> N {
        self.neighbor_manager
    }

    pub closed spec fn spec_state_manager(&self) -> M {
        self.state_manager
    }

    pub closed spec fn spec_strategy_manager(&self) -> G {
        self.strategy_manager
    }

    /// The state of cell `idx`.
    pub open spec fn state_of(&self, idx: CI::V) -> T {
        self.spec_state_manager().spec_state(idx)
    }

    /// The neighbours of `idx` with their states, each paired with `idx`
    /// itself as the index.
    pub open spec fn neighbor_states(&self, idx: CI::V) -> Seq<(CI::V, T)> {
        self.spec_neighbor_manager().spec_neighbors(idx).map_values(|n: CI::V| (idx, self.state_of(n)))
    }

    /// The state that the strategy at `idx` gives the cell next.
    pub open spec fn next_state_of(&self, idx: CI::V) -> T {
        self.spec_strategy_manager().strategy_at(idx).spec_next_state(
            idx,
            self.state_of(idx),
            self.neighbor_states(idx),
        )
    }

    /// Whether one generation can be computed: every cell's neighbours can
    /// be listed and the strategy accepts every cell.
    pub open spec fn can_advance(&self) -> bool {
        forall|i: int|
            0 <= i < self.spec_space().spec_indices().len() ==> {
                let idx = #[trigger] self.spec_space().spec_indices()[i];
                &&& self.spec_neighbor_manager().neighbors_defined(idx)
                &&& self.spec_strategy_manager().strategy_at(idx).accepts(
                    idx,
                    self.state_of(idx),
                    self.neighbor_states(idx),
                )
            }
    }

    /// Whether the neighbours of every cell can be listed.
    pub open spec fn neighbors_everywhere(&self) -> bool {
        forall|i: int|
            0 <= i < self.spec_space().spec_indices().len() ==> self.spec_neighbor_manager().neighbors_defined(
                #[trigger] self.spec_space().spec_indices()[i],
            )
    }

    /// Every cell with its next state, in the order of the space.
    pub open spec fn next_generation(&self) -> Seq<(CI::V, T)> {
        self.spec_space().spec_indices().map_values(|idx: CI::V| (idx, self.next_state_of(idx)))
    }

    pub fn new(space_manager: S, neighbor_manager: N, state_manager: M, strategy_manager: G) -> (r: Self)
        ensures
            r.spec_space() == space_manager,
            r.spec_neighbor_manager() == neighbor_manager,
            r.spec_state_manager() == state_manager,
            r.spec_strategy_manager() == strategy_manager,
    {
        Self { space_manager, neighbor_manager, state_manager, strategy_manager, index_type: PhantomData }
    }

    pub fn space_manager(&self) -> (r: &S)
        ensures
            *r == self.spec_space(),
    {
        &self.space_manager
    }

    pub fn neighbor_manager(&self) -> (r: &N)
        ensures
            *r == self.spec_neighbor_manager(),
    {
        &self.neighbor_manager
    }

    pub fn state_manager(&self) -> (r: &M)
        ensures
            *r == self.spec_state_manager(),
    {
        &self.state_manager
    }

    pub fn strategy_manager(&self) -> (r: &G)
        ensures
            *r == self.spec_strategy_manager(),
    {
        &self.strategy_manager
    }

    fn neighbor_states_of(&self, idx: &CI) -> (r: Vec<(CI, T)>)
        requires
            self.spec_neighbor_manager().neighbors_defined(idx@),
        ensures
            entry_views(r@) == self.neighbor_states(idx@),
    {
        let neighbors = self.neighbor_manager.get_neighbors_idx(idx);
        let ghost target = self.neighbor_states(idx@);
        let mut res: Vec<(CI, T)> = Vec::new();
        let n = neighbors.len();
        for j in 0..n
            invariant
                n == neighbors@.len(),
                views(neighbors@) == self.spec_neighbor_manager().spec_neighbors(idx@),
                target == self.neighbor_states(idx@),
                entry_views(res@) == target.subrange(0, j as int),
        {
            let state = self.state_manager.get_cell_state(&neighbors[j]);
            let own = idx.copy_index();
            let ghost prev = res@;
            res.push((own, state));
            proof {
                assert(views(neighbors@)[j as int] == neighbors@[j as int]@);
                assert(res@ == prev.push((own, state)));
                assert(entry_views(res@) =~= entry_views(prev).push((idx@, state)));
                assert(entry_views(res@) =~= target.subrange(0, j + 1));
            }
        }
        assert(target.subrange(0, n as int) == target);
        res
    }

    fn copy_entries(s: &Vec<(CI, T)>) -> (r: Vec<(CI, T)>)
        ensures
            entry_views(r@) == entry_views(s@),
    {
        let mut r: Vec<(CI, T)> = Vec::new();
        let n = s.len();
        for i in 0..n
            invariant
                n == s@.len(),
                entry_views(r@) == entry_views(s@).subrange(0, i as int),
        {
            let k = s[i].0.copy_index();
            let ghost prev = r@;
            r.push((k, s[i].1));
            proof {
                assert(r@ == prev.push((k, s@[i as int].1)));
                assert(entry_views(r@) =~= entry_views(prev).push(entry_views(s@)[i as int]));
                assert(entry_views(r@) =~= entry_views(s@).subrange(0, i + 1));
            }
        }
        assert(entry_views(s@).subrange(0, n as int) == entry_views(s@));
        r
    }

    /// Every cell with its state, in the order of the space: what the
    /// callbacks of a board see before the first generation.
    pub fn current_states(&self) -> (r: Vec<(CI, T)>)
        ensures
            entry_views(r@) == self.spec_space().spec_indices().map_values(
                |idx: CI::V| (idx, self.state_of(idx)),
            ),
    {
        let indices = self.space_manager.indices_iter();
        let ghost target = self.spec_space().spec_indices().map_values(
            |idx: CI::V| (idx, self.state_of(idx)),
        );
        let mut res: Vec<(CI, T)> = Vec::new();
        let n = indices.len();
        for i in 0..n
            invariant
                n == indices@.len(),
                views(indices@) == self.spec_space().spec_indices(),
                target == self.spec_space().spec_indices().map_values(
                    |idx: CI::V| (idx, self.state_of(idx)),
                ),
                entry_views(res@) == target.subrange(0, i as int),
        {
            let idx = &indices[i];
            proof {
                assert(views(indices@)[i as int] == idx@);
            }
            let state = self.state_manager.get_cell_state(idx);
            let own = idx.copy_index();
            let ghost prev = res@;
            res.push((own, state));
            proof {
                assert(res@ == prev.push((own, state)));
                assert(entry_views(res@) =~= entry_views(prev).push((idx@, state)));
                assert(entry_views(res@) =~= target.subrange(0, i + 1));
            }
        }
        assert(target.subrange(0, n as int) == target);
        res
    }

    /// Computes the next state of every cell from the current states, all
    /// at once, stores the new states and returns every cell with its new
    /// state, in the order of the space.
    pub fn advance_one_generation(&mut self) -> (r: Vec<(CI, T)>)
        requires
            old(self).can_advance(),
        ensures
            entry_views(r@) == old(self).next_generation(),
            final(self).spec_space() == old(self).spec_space(),
            final(self).spec_neighbor_manager() == old(self).spec_neighbor_manager(),
            final(self).spec_strategy_manager() == old(self).spec_strategy_manager(),
            forall|k: CI::V| #[trigger] final(self).state_of(k) == old(self).spec_state_manager().state_after_update(
                old(self).next_generation(),
                k,
            ),
    {
        let indices = self.space_manager.indices_par_iter();
        let ghost target = self.next_generation();
        let mut next_states: Vec<(CI, T)> = Vec::new();
        let n = indices.len();
        for i in 0..n
            invariant
                n == indices@.len(),
                views(indices@) == self.spec_space().spec_indices(),
                self.can_advance(),
                target == self.next_generation(),
                entry_views(next_states@) == target.subrange(0, i as int),
        {
            let idx = &indices[i];
            proof {
                assert(views(indices@)[i as int] == idx@);
                let _ = self.spec_space().spec_indices()[i as int];
            }
            let cur_state = self.state_manager.get_cell_state(idx);
            let neighbors = self.neighbor_states_of(idx);
            let strategy = self.strategy_manager.get_strategy_at_index(idx.copy_index());
            let next = strategy.next_state(idx.copy_index(), cur_state, neighbors);
            let own = idx.copy_index();
            let ghost prev = next_states@;
            next_states.push((own, next));
            proof {
                assert(next_states@ == prev.push((own, next)));
                assert(entry_views(next_states@) =~= entry_views(prev).push((idx@, next)));
                assert(entry_views(next_states@) =~= target.subrange(0, i + 1));
            }
        }
        assert(target.subrange(0, n as int) == target);
        let update = Self::copy_entries(&next_states);
        self.state_manager.update_cell_states_from_par_iter(update);
        next_states
    }
}

impl<
    CI: CellIndex,
    T: CellState,
    S: BoardSpaceManager<CI>,
    N: CheckedNeighbors<CI>,
    M: BoardStateManager<T, CI>,
    G: BoardStrategyManager<CI, T>,
> StandardBoard<CI, T, S, N, M, G> {
    /// Whether the neighbours of every cell of the board can be computed.
    pub fn neighbors_computable_everywhere(&self) -> (r: bool)
        ensures
            r == self.neighbors_everywhere(),
    {
        let indices = self.space_manager.indices_iter();
        let n = indices.len();
        for i in 0..n
            invariant
                n == indices@.len(),
                views(indices@) == self.spec_space().spec_indices(),
                forall|j: int|
                    0 <= j < i ==> self.spec_neighbor_manager().neighbors_defined(
                        #[trigger] self.spec_space().spec_indices()[j],
                    ),
        {
            proof {
                assert(views(indices@)[i as int] == indices@[i as int]@);
            }
            if !self.neighbor_manager.can_list_neighbors(&indices[i]) {
                return false;
            }
        }
        true
    }
}

/// Whether a run that advances a board generation by generation stops after
/// `done` generations: with a limit `max_iter`, once `done` reaches it;
/// without one, never.
pub fn generation_limit_reached(done: usize, max_iter: Option<usize>) -> (stop: bool)
    ensures
        stop == (max_iter matches Some(m) && done >= m),
{
    match max_iter {
        Some(m) => done >= m,
        None => false,
    }
}

/// Builds standard boards.
pub struct StandardBoardFactory {}

impl StandardBoardFactory {
    /// A board on the grid of shape `shape`, with neighbours within
    /// `neighbor_margin` on every side, the states `initial_states` (the
    /// default elsewhere) and the same strategy at every cell.
    pub fn new_standard_nd_grid<T: CellState, St: EvolutionStrategy<GridPointND<i32>, T>>(
        shape: Vec<usize>,
        default_state: &T,
        neighbor_margin: &usize,
        initial_states: Vec<(GridPointND<i32>, T)>,
        strategy: St,
    ) -> (r: StandardBoard<
        GridPointND<i32>,
        T,
        GridND,
        NeighborsGridSurround,
        SparseStates<T, GridPointND<i32>>,
        SharedStrategyManager<St>,
    >)
        requires
            grid_shape_ok(shape@),
        ensures
            r.spec_space().spec_cells() == Seq::new(volume(shape@) as nat, |i: int| grid_cell(i, shape@)),
            r.spec_neighbor_manager().spec_is_infinite(),
            r.spec_neighbor_manager().spec_margins() == seq![(*neighbor_margin, *neighbor_margin)],
            r.spec_state_manager().spec_default() == *default_state,
            forall|k: Seq<i32>| #[trigger] r.state_of(k) == crate::board_states::last_entry(entry_views(initial_states@), k, *default_state),
            r.spec_strategy_manager().spec_strategy() == strategy,
    {
        let space_manager = GridND::new(shape);
        let neighbor_manager = NeighborsGridSurround::new(*neighbor_margin);
        let state_manager = SparseStates::new(*default_state, initial_states);
        let strategy_manager = SharedStrategyManager::new(strategy);
        StandardBoard::new(space_manager, neighbor_manager, state_manager, strategy_manager)
    }
}

proof fn lemma_no_live_neighbors<V>(s: Seq<(V, BinaryState)>)
    requires
        forall|i: int| 0 <= i < s.len() ==> (#[trigger] s[i]).1 == BinaryState::Dead,
    ensures
        count_alive(s) == 0,
    decreases s.len(),
{
    if s.len() > 0 {
        assert(s.last() == s[s.len() - 1]);
        lemma_no_live_neighbors(s.drop_last());
    }
}

/// A board under a life-like rule that gives birth to no cell without live
/// neighbours stays empty: when every cell is dead, the next generation
/// holds only dead cells.
pub proof fn lemma_empty_board_stays_empty<
    CI: CellIndex,
    S: BoardSpaceManager<CI>,
    N: BoardNeighborManager<CI>,
    M: BoardStateManager<BinaryState, CI>,
>(board: StandardBoard<CI, BinaryState, S, N, M, SharedStrategyManager<BinaryStrategy>>)
    requires
        forall|k: CI::V| #[trigger] board.state_of(k) == BinaryState::Dead,
        !board.spec_strategy_manager().spec_strategy().born_counts().contains(0usize),
    ensures
        forall|i: int|
            0 <= i < board.next_generation().len() ==> (#[trigger] board.next_generation()[i]).1
                == BinaryState::Dead,
{
    assert forall|i: int| 0 <= i < board.next_generation().len() implies (
    #[trigger] board.next_generation()[i]).1 == BinaryState::Dead by {
        let idx = board.spec_space().spec_indices()[i];
        let ns = board.neighbor_states(idx);
        lemma_no_live_neighbors(ns);
        assert(board.next_generation()[i] == (idx, board.next_state_of(idx)));
    }
}

/// A board under a two-state life-like rule can advance whenever the
/// neighbours of all its cells can be listed: the rule accepts every cell.
pub proof fn lemma_binary_board_can_advance<
    CI: CellIndex,
    S: BoardSpaceManager<CI>,
    N: BoardNeighborManager<CI>,
    M: BoardStateManager<BinaryState, CI>,
>(board: StandardBoard<CI, BinaryState, S, N, M, SharedStrategyManager<BinaryStrategy>>)
    requires
        board.neighbors_everywhere(),
    ensures
        board.can_advance(),
{
}

/// A board under a decaying rule with at least one state can advance
/// whenever the neighbours of all its cells can be listed: the rule accepts
/// every cell.
pub proof fn lemma_decay_board_can_advance<
    CI: CellIndex,
    S: BoardSpaceManager<CI>,
    N: BoardNeighborManager<CI>,
    M: BoardStateManager<u8, CI>,
>(board: StandardBoard<CI, u8, S, N, M, SharedStrategyManager<DiscreteDecayStrategy>>)
    requires
        board.neighbors_everywhere(),
        board.spec_strategy_manager().spec_strategy().spec_state_count() >= 1,
    ensures
        board.can_advance(),
{
}

} // verus!
