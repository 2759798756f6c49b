use gol_core::board_states::{BoardStateManager, SparseBinaryStates, SparseStates};
use gol_core::index::GridPoint2D;
use gol_core::state::BinaryState;

#[test]
fn sparse_sparse_state_test_1() {
    let initial_maps = vec![(GridPoint2D { x: 0, y: 0 }, BinaryState::Alive)];
    let states = SparseStates::new(BinaryState::Dead, initial_maps);
    assert_eq!(
        states.get_cell_state(&GridPoint2D { x: 0, y: 0 }),
        BinaryState::Alive
    );
    assert_eq!(
        states.get_cell_state(&GridPoint2D { x: 1, y: 0 }),
        BinaryState::Dead
    );
    assert_eq!(
        states.get_cell_state(&GridPoint2D { x: 1, y: -5 }),
        BinaryState::Dead
    );
}

#[test]
fn sparse_binary_sparse_state_test_1() {
    let alive_cells = vec![GridPoint2D { x: 0, y: 0 }];
    let states = SparseBinaryStates::new(BinaryState::Dead, BinaryState::Alive, &alive_cells);
    assert_eq!(
        states.get_cell_state(&GridPoint2D { x: 0, y: 0 }),
        BinaryState::Alive
    );
    assert_eq!(
        states.get_cell_state(&GridPoint2D { x: 1, y: 0 }),
        BinaryState::Dead
    );
    assert_eq!(
        states.get_cell_state(&GridPoint2D { x: 1, y: -5 }),
        BinaryState::Dead
    );
}

#[test]
fn sparse_states_read_after_update() {
    let mut states = SparseStates::new(0u8, vec![(GridPoint2D { x: 5, y: 5 }, 3u8)]);
    states.update_cell_states_from_par_iter(vec![
        (GridPoint2D { x: 0, y: 0 }, 2u8),
        (GridPoint2D { x: 1, y: 0 }, 0u8),
        (GridPoint2D { x: 2, y: 0 }, 7u8),
    ]);
    assert_eq!(states.get_cell_state(&GridPoint2D { x: 0, y: 0 }), 2);
    assert_eq!(states.get_cell_state(&GridPoint2D { x: 1, y: 0 }), 0);
    assert_eq!(states.get_cell_state(&GridPoint2D { x: 2, y: 0 }), 7);
    // The update replaces every state: the earlier cell is back to default.
    assert_eq!(states.get_cell_state(&GridPoint2D { x: 5, y: 5 }), 0);
}

#[test]
fn sparse_states_last_entry_wins() {
    let states = SparseStates::new(
        0u8,
        vec![
            (GridPoint2D { x: 1, y: 1 }, 4u8),
            (GridPoint2D { x: 1, y: 1 }, 6u8),
        ],
    );
    assert_eq!(states.get_cell_state(&GridPoint2D { x: 1, y: 1 }), 6);
}

#[test]
fn sparse_binary_states_read_after_update() {
    let mut states = SparseBinaryStates::new(BinaryState::Dead, BinaryState::Alive, &vec![]);
    states.update_cell_states_from_par_iter(vec![
        (GridPoint2D { x: 0, y: 0 }, BinaryState::Alive),
        (GridPoint2D { x: 0, y: 1 }, BinaryState::Dead),
    ]);
    assert_eq!(
        states.get_cell_state(&GridPoint2D { x: 0, y: 0 }),
        BinaryState::Alive
    );
    assert_eq!(
        states.get_cell_state(&GridPoint2D { x: 0, y: 1 }),
        BinaryState::Dead
    );
    assert_eq!(
        states.get_cell_state(&GridPoint2D { x: 9, y: 9 }),
        BinaryState::Dead
    );
}
