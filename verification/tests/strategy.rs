use gol_core::state::BinaryState;
use gol_core::strategy::{
    BinaryStrategy, BoardStrategyManager, ConwayStrategy, DecayLifeLikeStrategy,
    DiscreteDecayStrategy, EvolutionStrategy, SharedStrategyManager,
};
use std::collections::HashSet;

fn create_neighbors(alive_count: usize) -> Vec<BinaryState> {
    let mut res = vec![BinaryState::Alive; alive_count];
    res.append(&mut vec![BinaryState::Dead; 8 - alive_count]);
    res
}

fn indexed<T>(states: Vec<T>) -> Vec<(usize, T)> {
    states.into_iter().enumerate().collect()
}

#[test]
fn strategy_binary_conway_strat_test_0() {
    let strat = BinaryStrategy::conway();
    let neighbors = create_neighbors(0);
    let neighbors_iter = indexed(neighbors);
    let alive_next = strat.next_state(0, BinaryState::Alive, neighbors_iter);
    assert_eq!(alive_next, BinaryState::Dead);
}

#[test]
fn strategy_conway_conway_strat_test_0() {
    let strat = ConwayStrategy::new();
    let neighbors = create_neighbors(0);
    let neighbors_iter = indexed(neighbors);
    let alive_next = strat.next_state(0, BinaryState::Alive, neighbors_iter);
    assert_eq!(alive_next, BinaryState::Dead);
}

#[test]
fn shared_strat_test_1() {
    let strat = DecayLifeLikeStrategy::gol();
    let strat_manager = SharedStrategyManager::new(strat);
    let _ = BoardStrategyManager::<i32, u8>::get_strategy_at_index(&strat_manager, 0);
}

#[test]
fn conway_rules_on_every_count() {
    let binary = BinaryStrategy::conway();
    let conway = ConwayStrategy::new();
    for count in 0..=8 {
        for cur in [BinaryState::Alive, BinaryState::Dead] {
            let expected = if count == 3 || (count == 2 && cur == BinaryState::Alive) {
                BinaryState::Alive
            } else {
                BinaryState::Dead
            };
            assert_eq!(binary.next_state(0, cur, indexed(create_neighbors(count))), expected);
            assert_eq!(conway.next_state(0, cur, indexed(create_neighbors(count))), expected);
        }
    }
}

#[test]
fn decay_life_like_gol_matches_conway() {
    let strat = DecayLifeLikeStrategy::gol();
    for count in 0..=8usize {
        let mut neighbors = vec![1u8; count];
        neighbors.append(&mut vec![0u8; 8 - count]);
        let alive: u8 = strat.next_state(0, 1u8, indexed(neighbors.clone()));
        let dead: u8 = strat.next_state(0, 0u8, indexed(neighbors));
        assert_eq!(alive, if count == 2 || count == 3 { 1 } else { 0 });
        assert_eq!(dead, if count == 3 { 1 } else { 0 });
    }
}

#[test]
fn decay_life_like_decays_through_middle_states() {
    let survive: HashSet<usize> = [2usize].into_iter().collect();
    let born: HashSet<usize> = [2usize].into_iter().collect();
    let strat = DecayLifeLikeStrategy::new(4, survive, born);
    // A middle state decays whatever its neighbours.
    assert_eq!(strat.next_state(0, 2u8, indexed(vec![3u8, 3, 0])), 1u8);
    // A live cell without two live neighbours starts decaying.
    assert_eq!(strat.next_state(0, 3u8, indexed(vec![3u8, 0, 0])), 2u8);
    // A live cell with two live neighbours survives.
    assert_eq!(strat.next_state(0, 3u8, indexed(vec![3u8, 3, 1])), 3u8);
    // An empty cell with two live neighbours is born at the top state.
    assert_eq!(strat.next_state(0, 0u8, indexed(vec![3u8, 3, 2])), 3u8);
    // An empty cell with one live neighbour stays empty.
    assert_eq!(strat.next_state(0, 0u8, indexed(vec![3u8, 2, 2])), 0u8);
}

#[test]
fn discrete_decay_counts_every_positive_state_as_alive() {
    let survive: HashSet<usize> = [3usize].into_iter().collect();
    let born: HashSet<usize> = [2usize].into_iter().collect();
    let strat = DiscreteDecayStrategy::new(5, survive, born);
    assert_eq!(strat.next_state(0, 0u8, indexed(vec![1u8, 4, 0])), 4u8);
    assert_eq!(strat.next_state(0, 3u8, indexed(vec![1u8, 4, 0])), 2u8);
    assert_eq!(strat.next_state(0, 3u8, indexed(vec![1u8, 4, 2])), 3u8);
    assert_eq!(strat.next_state(0, 0u8, indexed(vec![1u8, 0, 0])), 0u8);
}
