//! Evolution strategies: how a cell's next state follows from its current
//! state and the states of its neighbours.

use crate::state::BinaryState;
use std::collections::HashSet;
use vstd::prelude::*;

verus! {

broadcast use vstd::std_specs::hash::group_hash_axioms;

/// Computes the next state of a cell from its index, its current state and
/// its neighbours, each given with an index and a state.
pub trait EvolutionStrategy<CI: View, T>: Sized {
    /// The inputs on which the strategy is defined.
    spec fn accepts(&self, idx: CI::V, cur_state: T, neighbors: Seq<(CI::V, T)>) -> bool;

    /// The next state.
    spec fn spec_next_state(&self, idx: CI::V, cur_state: T, neighbors: Seq<(CI::V, T)>) -> T;

    fn next_state(&self, idx: CI, cur_state: T, neighbors: Vec<(CI, T)>) -> (r: T)
        requires
            self.accepts(idx@, cur_state, entry_views(neighbors@)),
        ensures
            r == self.spec_next_state(idx@, cur_state, entry_views(neighbors@)),
    ;
}

/// Index-state pairs with each index taken by its view.
pub open spec fn entry_views<CI: View, T>(s: Seq<(CI, T)>) -> Seq<(CI::V, T)> {
    s.map_values(|e: (CI, T)| (e.0@, e.1))
}

/// Chooses the evolution strategy that applies at each index.
pub trait BoardStrategyManager<CI: View, T> {
    type Strategy: EvolutionStrategy<CI, T>;

    spec fn strategy_at(&self, idx: CI::V) -> Self::Strategy;

    fn get_strategy_at_index(&self, idx: CI) -> (r: &Self::Strategy)
        ensures
            *r == self.strategy_at(idx@),
    ;
}

/// The number of neighbours whose state is `Alive`.
pub open spec fn count_alive<CI>(s: Seq<(CI, BinaryState)>) -> nat
    decreases s.len(),
{
    if s.len() == 0 {
        0
    } else {
        count_alive(s.drop_last()) + if s.last().1 == BinaryState::Alive {
            1nat
        } else {
            0nat
        }
    }
}

fn alive_count<CI: View>(neighbors: &Vec<(CI, BinaryState)>) -> (r: usize)
    ensures
        r == count_alive(entry_views(neighbors@)),
{
    let mut count: usize = 0;
    let n = neighbors.len();
    let ghost ev = entry_views(neighbors@);
    for i in 0..n
        invariant
            n == neighbors@.len(),
            ev == entry_views(neighbors@),
            count == count_alive(ev.subrange(0, i as int)),
            count <= i,
    {
        proof {
            let s = ev.subrange(0, i + 1);
            assert(s.drop_last() == ev.subrange(0, i as int));
        }
        match neighbors[i].1 {
            BinaryState::Alive => {
                count = count + 1;
            },
            BinaryState::Dead => {},
        }
    }
    assert(ev.subrange(0, n as int) == ev);
    count
}

/// A life-like rule on two states: a live cell survives when its number of
/// live neighbours is one of the survive counts, and a dead cell is born
/// when it is one of the newborn counts.
pub struct BinaryStrategy {
    alive_surive_counts: HashSet<usize>,
    newborn_counts: HashSet<usize>,
}

impl BinaryStrategy {
    pub closed spec fn survive_counts(&self) -> Set<usize> {
        self.alive_surive_counts@
    }

    pub closed spec fn born_counts(&self) -> Set<usize> {
        self.newborn_counts@
    }

    pub fn new(alive_survive: HashSet<usize>, newborn: HashSet<usize>) -> (r: Self)
        ensures
            r.survive_counts() == alive_survive@,
            r.born_counts() == newborn@,
    {
        Self { alive_surive_counts: alive_survive, newborn_counts: newborn }
    }

    /// Conway's rule: survive with two or three live neighbours, be born with three.
    pub fn conway() -> (r: Self)
        ensures
            r.survive_counts() == set![2usize, 3usize],
            r.born_counts() == set![3usize],
    {
        let mut alive: HashSet<usize> = HashSet::new();
        alive.insert(2);
        alive.insert(3);
        let mut newborn: HashSet<usize> = HashSet::new();
        newborn.insert(3);
        Self::new(alive, newborn)
    }
}

impl<CI: View> EvolutionStrategy<CI, BinaryState> for BinaryStrategy {
    open spec fn accepts(&self, idx: CI::V, cur_state: BinaryState, neighbors: Seq<(CI::V, BinaryState)>) -> bool {
        true
    }

    open spec fn spec_next_state(
        &self,
        idx: CI::V,
        cur_state: BinaryState,
        neighbors: Seq<(CI::V, BinaryState)>,
    ) -> BinaryState {
        let count = count_alive(neighbors);
        if (cur_state == BinaryState::Alive && self.survive_counts().contains(count as usize)) || (
        cur_state == BinaryState::Dead && self.born_counts().contains(count as usize)) {
            BinaryState::Alive
        } else {
            BinaryState::Dead
        }
    }

    fn next_state(&self, idx: CI, cur_state: BinaryState, neighbors: Vec<(CI, BinaryState)>) -> (r: BinaryState) {
        let count = alive_count(&neighbors);
        let is_alive = match cur_state {
            BinaryState::Alive => true,
            BinaryState::Dead => false,
        };
        if is_alive && self.alive_surive_counts.contains(&count) || !is_alive
            && self.newborn_counts.contains(&count) {
            BinaryState::Alive
        } else {
            BinaryState::Dead
        }
    }
}


/// John Conway's rule, fixed: a cell is alive next when it has three live
/// neighbours, or two and is alive now.
pub struct ConwayStrategy {}

impl ConwayStrategy {
    pub fn new() -> (r: Self) {
        Self {}
    }
}

impl<CI: View> EvolutionStrategy<CI, BinaryState> for ConwayStrategy {
    open spec fn accepts(&self, idx: CI::V, cur_state: BinaryState, neighbors: Seq<(CI::V, BinaryState)>) -> bool {
        true
    }

    open spec fn spec_next_state(
        &self,
        idx: CI::V,
        cur_state: BinaryState,
        neighbors: Seq<(CI::V, BinaryState)>,
    ) -> BinaryState {
        let count = count_alive(neighbors);
        if count == 3 || (count == 2 && cur_state == BinaryState::Alive) {
            BinaryState::Alive
        } else {
            BinaryState::Dead
        }
    }

    fn next_state(&self, idx: CI, cur_state: BinaryState, neighbors: Vec<(CI, BinaryState)>) -> (r: BinaryState) {
        let count = alive_count(&neighbors);
        let is_alive = match cur_state {
            BinaryState::Alive => true,
            BinaryState::Dead => false,
        };
        if count == 3 || count == 2 && is_alive {
            BinaryState::Alive
        } else {
            BinaryState::Dead
        }
    }
}

/// The number of neighbours whose state equals `target`.
pub open spec fn count_equal<CI>(s: Seq<(CI, u8)>, target: int) -> nat
    decreases s.len(),
{
    if s.len() == 0 {
        0
    } else {
        count_equal(s.drop_last(), target) + if s.last().1 as int == target {
            1nat
        } else {
            0nat
        }
    }
}

/// The number of neighbours whose state is above zero.
pub open spec fn count_positive<CI>(s: Seq<(CI, u8)>) -> nat
    decreases s.len(),
{
    if s.len() == 0 {
        0
    } else {
        count_positive(s.drop_last()) + if s.last().1 > 0 {
            1nat
        } else {
            0nat
        }
    }
}

fn equal_count<CI: View>(neighbors: &Vec<(CI, u8)>, target: u8) -> (r: usize)
    ensures
        r == count_equal(entry_views(neighbors@), target as int),
{
    let mut count: usize = 0;
    let n = neighbors.len();
    let ghost ev = entry_views(neighbors@);
    for i in 0..n
        invariant
            n == neighbors@.len(),
            ev == entry_views(neighbors@),
            count == count_equal(ev.subrange(0, i as int), target as int),
            count <= i,
    {
        proof {
            let s = ev.subrange(0, i + 1);
            assert(s.drop_last() == ev.subrange(0, i as int));
        }
        if neighbors[i].1 == target {
            count = count + 1;
        }
    }
    assert(ev.subrange(0, n as int) == ev);
    count
}

fn positive_count<CI: View>(neighbors: &Vec<(CI, u8)>) -> (r: usize)
    ensures
        r == count_positive(entry_views(neighbors@)),
{
    let mut count: usize = 0;
    let n = neighbors.len();
    let ghost ev = entry_views(neighbors@);
    for i in 0..n
        invariant
            n == neighbors@.len(),
            ev == entry_views(neighbors@),
            count == count_positive(ev.subrange(0, i as int)),
            count <= i,
    {
        proof {
            let s = ev.subrange(0, i + 1);
            assert(s.drop_last() == ev.subrange(0, i as int));
        }
        if neighbors[i].1 > 0 {
            count = count + 1;
        }
    }
    assert(ev.subrange(0, n as int) == ev);
    count
}

/// A life-like rule with decay over `state_count` states: `state_count - 1`
/// is alive, `0` is empty, and every state in between decays by one per
/// generation. A live cell that does not survive starts decaying; an empty
/// cell with a newborn count of live neighbours becomes alive.
pub struct DecayLifeLikeStrategy {
    state_count: usize,
    alive_surive_counts: HashSet<usize>,
    newborn_counts: HashSet<usize>,
}

impl DecayLifeLikeStrategy {
    pub closed spec fn spec_state_count(&self) -> usize {
        self.state_count
    }

    pub closed spec fn survive_counts(&self) -> Set<usize> {
        self.alive_surive_counts@
    }

    pub closed spec fn born_counts(&self) -> Set<usize> {
        self.newborn_counts@
    }

    pub fn new(
        state_count: usize,
        alive_surive_counts: HashSet<usize>,
        newborn_counts: HashSet<usize>,
    ) -> (r: Self)
        ensures
            r.spec_state_count() == state_count,
            r.survive_counts() == alive_surive_counts@,
            r.born_counts() == newborn_counts@,
    {
        Self { state_count, alive_surive_counts, newborn_counts }
    }

    /// Conway's Game of Life as a two-state decay rule.
    pub fn gol() -> (r: Self)
        ensures
            r.spec_state_count() == 2,
            r.survive_counts() == set![2usize, 3usize],
            r.born_counts() == set![3usize],
    {
        let mut survive: HashSet<usize> = HashSet::new();
        survive.insert(2);
        survive.insert(3);
        let mut born: HashSet<usize> = HashSet::new();
        born.insert(3);
        Self::new(2, survive, born)
    }

    /// Whether a cell in `cur_state` with `count` live neighbours decays by one.
    pub open spec fn decays(&self, cur_state: u8, count: nat) -> bool {
        let is_alive = cur_state as int == self.spec_state_count() - 1;
        let is_zero = cur_state == 0;
        (!is_alive && !is_zero) || (is_alive && !self.survive_counts().contains(count as usize))
    }

    /// Whether an empty cell with `count` live neighbours becomes alive.
    pub open spec fn is_born(&self, cur_state: u8, count: nat) -> bool {
        !self.decays(cur_state, count) && cur_state == 0 && self.born_counts().contains(
            count as usize,
        )
    }
}

impl<CI: View> EvolutionStrategy<CI, u8> for DecayLifeLikeStrategy {
    /// The live state `state_count - 1` must be a `u8`, a decaying cell must
    /// not be at zero, and a newborn state must be a `u8`.
    open spec fn accepts(&self, idx: CI::V, cur_state: u8, neighbors: Seq<(CI::V, u8)>) -> bool {
        let count = count_equal(neighbors, self.spec_state_count() - 1);
        &&& 1 <= self.spec_state_count() <= 256
        &&& self.decays(cur_state, count) ==> cur_state > 0
        &&& self.is_born(cur_state, count) ==> self.spec_state_count() <= 255
    }

    open spec fn spec_next_state(&self, idx: CI::V, cur_state: u8, neighbors: Seq<(CI::V, u8)>) -> u8 {
        let count = count_equal(neighbors, self.spec_state_count() - 1);
        if self.decays(cur_state, count) {
            (cur_state - 1) as u8
        } else if self.is_born(cur_state, count) {
            (self.spec_state_count() - 1) as u8
        } else {
            cur_state
        }
    }

    fn next_state(&self, idx: CI, cur_state: u8, neighbors: Vec<(CI, u8)>) -> (r: u8) {
        let alive_state = (self.state_count - 1) as u8;
        let alive_count = equal_count(&neighbors, alive_state);
        let is_alive = cur_state == alive_state;
        let is_zero = cur_state == 0;
        if !is_alive && !is_zero || is_alive && !self.alive_surive_counts.contains(&alive_count) {
            cur_state - 1
        } else if is_zero && self.newborn_counts.contains(&alive_count) {
            let top = self.state_count as u8;
            top - 1
        } else {
            cur_state
        }
    }
}

/// A rule over discrete states where every state above zero counts as
/// alive: a live cell that does not survive decays by one, and an empty cell
/// with a newborn count of live neighbours jumps to `state_count - 1`.
pub struct DiscreteDecayStrategy {
    state_count: u8,
    alive_surive_counts: HashSet<usize>,
    newborn_counts: HashSet<usize>,
}

impl DiscreteDecayStrategy {
    pub closed spec fn spec_state_count(&self) -> u8 {
        self.state_count
    }

    pub closed spec fn survive_counts(&self) -> Set<usize> {
        self.alive_surive_counts@
    }

    pub closed spec fn born_counts(&self) -> Set<usize> {
        self.newborn_counts@
    }

    pub fn new(
        state_count: u8,
        alive_surive_counts: HashSet<usize>,
        newborn_counts: HashSet<usize>,
    ) -> (r: Self)
        ensures
            r.spec_state_count() == state_count,
            r.survive_counts() == alive_surive_counts@,
            r.born_counts() == newborn_counts@,
    {
        Self { state_count, alive_surive_counts, newborn_counts }
    }
}

impl<CI: View> EvolutionStrategy<CI, u8> for DiscreteDecayStrategy {
    /// A newborn state `state_count - 1` needs `state_count` above zero.
    open spec fn accepts(&self, idx: CI::V, cur_state: u8, neighbors: Seq<(CI::V, u8)>) -> bool {
        (cur_state == 0 && self.born_counts().contains(count_positive(neighbors) as usize))
            ==> self.spec_state_count() >= 1
    }

    open spec fn spec_next_state(&self, idx: CI::V, cur_state: u8, neighbors: Seq<(CI::V, u8)>) -> u8 {
        let count = count_positive(neighbors) as usize;
        if cur_state > 0 && !self.survive_counts().contains(count) {
            (cur_state - 1) as u8
        } else if cur_state == 0 && self.born_counts().contains(count) {
            (self.spec_state_count() - 1) as u8
        } else {
            cur_state
        }
    }

    fn next_state(&self, idx: CI, cur_state: u8, neighbors: Vec<(CI, u8)>) -> (r: u8) {
        let alive_count = positive_count(&neighbors);
        let is_alive = cur_state > 0;
        if is_alive && !self.alive_surive_counts.contains(&alive_count) {
            if cur_state > 0 {
                cur_state - 1
            } else {
                cur_state
            }
        } else if !is_alive && self.newborn_counts.contains(&alive_count) {
            self.state_count - 1
        } else {
            cur_state
        }
    }
}

/// Applies the same strategy at every index.
pub struct SharedStrategyManager<S> {
    strategy: S,
}

impl<S> SharedStrategyManager<S> {
    pub closed spec fn spec_strategy(&self) -> S {
        self.strategy
    }

    pub fn new(strategy: S) -> (r: Self)
        ensures
            r.spec_strategy() == strategy,
    {
        Self { strategy }
    }
}

impl<CI: View, T, S: EvolutionStrategy<CI, T>> BoardStrategyManager<CI, T> for SharedStrategyManager<S> {
    type Strategy = S;

    open spec fn strategy_at(&self, idx: CI::V) -> S {
        self.spec_strategy()
    }

    fn get_strategy_at_index(&self, idx: CI) -> (r: &S) {
        &self.strategy
    }
}

/// A shared manager hands back, at every index, the strategy it was built
/// with, so every cell evolves by that strategy's rule.
pub proof fn lemma_shared_everywhere<CI: View, T, S: EvolutionStrategy<CI, T>>(
    m: SharedStrategyManager<S>,
    strategy: S,
    idx: CI::V,
    cur_state: T,
    neighbors: Seq<(CI::V, T)>,
)
    requires
        m.spec_strategy() == strategy,
    ensures
        <SharedStrategyManager<S> as BoardStrategyManager<CI, T>>::strategy_at(&m, idx) == strategy,
        <SharedStrategyManager<S> as BoardStrategyManager<CI, T>>::strategy_at(&m, idx).spec_next_state(
            idx,
            cur_state,
            neighbors,
        ) == strategy.spec_next_state(idx, cur_state, neighbors),
{
}

/// A two-state cell as a binary one: `1` is alive, anything else dead.
pub open spec fn as_binary(v: u8) -> BinaryState {
    if v == 1 {
        BinaryState::Alive
    } else {
        BinaryState::Dead
    }
}

/// Neighbours of a two-state cell as binary ones.
pub open spec fn binary_entries<V>(s: Seq<(V, u8)>) -> Seq<(V, BinaryState)> {
    s.map_values(|e: (V, u8)| (e.0, as_binary(e.1)))
}

proof fn lemma_count_alive_le<V>(s: Seq<(V, BinaryState)>)
    ensures
        count_alive(s) <= s.len(),
    decreases s.len(),
{
    if s.len() > 0 {
        lemma_count_alive_le(s.drop_last());
    }
}

proof fn lemma_binary_count<V>(s: Seq<(V, u8)>)
    ensures
        count_equal(s, 1) == count_alive(binary_entries(s)),
    decreases s.len(),
{
    if s.len() > 0 {
        lemma_binary_count(s.drop_last());
        assert(binary_entries(s).drop_last() == binary_entries(s.drop_last()));
    }
}

/// `BinaryStrategy::conway()` is Conway's rule: with two or three survive
/// counts and three as the newborn count, a binary strategy gives every
/// cell the state that `ConwayStrategy` gives it.
pub proof fn lemma_binary_conway_is_conway<CI: View>(
    s: BinaryStrategy,
    idx: CI::V,
    cur_state: BinaryState,
    neighbors: Seq<(CI::V, BinaryState)>,
)
    requires
        s.survive_counts() == set![2usize, 3usize],
        s.born_counts() == set![3usize],
        neighbors.len() <= usize::MAX,
    ensures
        <BinaryStrategy as EvolutionStrategy<CI, BinaryState>>::spec_next_state(
            &s,
            idx,
            cur_state,
            neighbors,
        ) == <ConwayStrategy as EvolutionStrategy<CI, BinaryState>>::spec_next_state(
            &ConwayStrategy {  },
            idx,
            cur_state,
            neighbors,
        ),
{
    lemma_count_alive_le(neighbors);
    let count = count_alive(neighbors);
    assert((count as usize) as int == count);
}

/// `DecayLifeLikeStrategy::gol()` is Conway's rule: with two states, two or
/// three survive counts and three as the newborn count, the decay rule
/// accepts every cell in state `0` or `1` and gives it the state that
/// `ConwayStrategy` gives it, `1` standing for alive.
pub proof fn lemma_decay_gol_is_conway<CI: View>(
    d: DecayLifeLikeStrategy,
    idx: CI::V,
    cur_state: u8,
    neighbors: Seq<(CI::V, u8)>,
)
    requires
        d.spec_state_count() == 2,
        d.survive_counts() == set![2usize, 3usize],
        d.born_counts() == set![3usize],
        cur_state <= 1,
        neighbors.len() <= usize::MAX,
    ensures
        <DecayLifeLikeStrategy as EvolutionStrategy<CI, u8>>::accepts(
            &d,
            idx,
            cur_state,
            neighbors,
        ),
        as_binary(
            <DecayLifeLikeStrategy as EvolutionStrategy<CI, u8>>::spec_next_state(
                &d,
                idx,
                cur_state,
                neighbors,
            ),
        ) == <ConwayStrategy as EvolutionStrategy<CI, BinaryState>>::spec_next_state(
            &ConwayStrategy {  },
            idx,
            as_binary(cur_state),
            binary_entries(neighbors),
        ),
{
    lemma_binary_count(neighbors);
    lemma_count_alive_le(binary_entries(neighbors));
    let count = count_equal(neighbors, 1);
    assert((count as usize) as int == count);
}

/// The number of neighbours that are alive.
pub open spec fn live_neighbors<V>(s: Seq<(V, BinaryState)>) -> nat {
    s.filter(|e: (V, BinaryState)| e.1 == BinaryState::Alive).len()
}

/// Whether a neighbour is in state `state`.
pub open spec fn in_state<V>(state: int) -> spec_fn((V, u8)) -> bool {
    |e: (V, u8)| e.1 as int == state
}

/// The number of neighbours in state `state`.
pub open spec fn neighbors_in_state<V>(s: Seq<(V, u8)>, state: int) -> nat {
    s.filter(in_state(state)).len()
}

/// The number of neighbours in a state above zero.
pub open spec fn positive_neighbors<V>(s: Seq<(V, u8)>) -> nat {
    s.filter(|e: (V, u8)| e.1 > 0).len()
}

proof fn lemma_live_neighbors<V>(s: Seq<(V, BinaryState)>)
    ensures
        count_alive(s) == live_neighbors(s),
        live_neighbors(s) <= s.len(),
    decreases s.len(),
{
    if s.len() > 0 {
        lemma_live_neighbors(s.drop_last());
        assert(s == s.drop_last().push(s.last()));
        s.drop_last().lemma_filter_len_push(|e: (V, BinaryState)| e.1 == BinaryState::Alive, s.last());
    }
}

proof fn lemma_neighbors_in_state<V>(s: Seq<(V, u8)>, state: int)
    ensures
        count_equal(s, state) == neighbors_in_state(s, state),
        neighbors_in_state(s, state) <= s.len(),
    decreases s.len(),
{
    if s.len() > 0 {
        lemma_neighbors_in_state(s.drop_last(), state);
        assert(s == s.drop_last().push(s.last()));
        s.drop_last().lemma_filter_len_push(in_state(state), s.last());
    }
}

proof fn lemma_positive_neighbors<V>(s: Seq<(V, u8)>)
    ensures
        count_positive(s) == positive_neighbors(s),
        positive_neighbors(s) <= s.len(),
    decreases s.len(),
{
    if s.len() > 0 {
        lemma_positive_neighbors(s.drop_last());
        assert(s == s.drop_last().push(s.last()));
        s.drop_last().lemma_filter_len_push(|e: (V, u8)| e.1 > 0, s.last());
    }
}

/// The two-state life-like rule, for every survive and born set: a live
/// cell is alive next exactly when its number of live neighbours is a
/// survive count, and a dead cell exactly when it is a born count.
pub proof fn lemma_binary_rule<CI: View>(
    s: BinaryStrategy,
    idx: CI::V,
    cur_state: BinaryState,
    neighbors: Seq<(CI::V, BinaryState)>,
)
    requires
        neighbors.len() <= usize::MAX,
    ensures
        ({
            let next = <BinaryStrategy as EvolutionStrategy<CI, BinaryState>>::spec_next_state(
                &s,
                idx,
                cur_state,
                neighbors,
            );
            let n = live_neighbors(neighbors) as usize;
            &&& cur_state == BinaryState::Alive ==> (next == BinaryState::Alive <==> s.survive_counts().contains(n))
            &&& cur_state == BinaryState::Dead ==> (next == BinaryState::Alive <==> s.born_counts().contains(n))
        }),
{
    lemma_live_neighbors(neighbors);
}

/// The decay rule over `state_count` states, for every survive and born
/// set, with `n` the number of neighbours in the live state
/// `state_count - 1`: a live cell stays live when `n` is a survive count and
/// otherwise starts decaying to `state_count - 2`; any other cell above
/// zero decays by one; an empty cell becomes live when `n` is a born count
/// and otherwise stays empty.
pub proof fn lemma_decay_rule<CI: View>(
    d: DecayLifeLikeStrategy,
    idx: CI::V,
    cur_state: u8,
    neighbors: Seq<(CI::V, u8)>,
)
    requires
        2 <= d.spec_state_count() <= 256,
        neighbors.len() <= usize::MAX,
    ensures
        ({
            let next = <DecayLifeLikeStrategy as EvolutionStrategy<CI, u8>>::spec_next_state(
                &d,
                idx,
                cur_state,
                neighbors,
            );
            let live = d.spec_state_count() - 1;
            let n = neighbors_in_state(neighbors, live) as usize;
            &&& cur_state == live && d.survive_counts().contains(n) ==> next == cur_state
            &&& cur_state == live && !d.survive_counts().contains(n) ==> next == live - 1
            &&& 0 < cur_state && cur_state != live ==> next == cur_state - 1
            &&& cur_state == 0 && d.born_counts().contains(n) ==> next == live
            &&& cur_state == 0 && !d.born_counts().contains(n) ==> next == 0
        }),
{
    lemma_neighbors_in_state(neighbors, d.spec_state_count() - 1);
}

/// The discrete decay rule, for every state count and survive and born set,
/// with `n` the number of neighbours above zero: a cell above zero keeps its
/// state when `n` is a survive count and otherwise decays by one; an empty
/// cell jumps to `state_count - 1` when `n` is a born count and otherwise
/// stays empty.
pub proof fn lemma_discrete_decay_rule<CI: View>(
    d: DiscreteDecayStrategy,
    idx: CI::V,
    cur_state: u8,
    neighbors: Seq<(CI::V, u8)>,
)
    requires
        neighbors.len() <= usize::MAX,
    ensures
        ({
            let next = <DiscreteDecayStrategy as EvolutionStrategy<CI, u8>>::spec_next_state(
                &d,
                idx,
                cur_state,
                neighbors,
            );
            let n = positive_neighbors(neighbors) as usize;
            &&& cur_state > 0 && d.survive_counts().contains(n) ==> next == cur_state
            &&& cur_state > 0 && !d.survive_counts().contains(n) ==> next == cur_state - 1
            &&& cur_state == 0 && d.born_counts().contains(n) && d.spec_state_count() >= 1 ==> next
                == d.spec_state_count() - 1
            &&& cur_state == 0 && !d.born_counts().contains(n) ==> next == 0
        }),
{
    lemma_positive_neighbors(neighbors);
}

} // verus!
