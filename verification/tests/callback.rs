use gol_core::callback::{BinaryStatesCallback, StatesCallback};
use gol_core::index::GridPoint2D;
use gol_core::state::BinaryState;

#[test]
fn states_callback_keeps_non_trivial() {
    let mut cb: StatesCallback<u8, GridPoint2D<i32>> = StatesCallback::new(0);
    assert_eq!(cb.iteration(), 0);
    assert!(cb.non_trivial_lookup().is_empty());
    cb.execute(vec![
        (GridPoint2D { x: 0, y: 0 }, 0),
        (GridPoint2D { x: 1, y: 0 }, 3),
        (GridPoint2D { x: 2, y: 0 }, 0),
        (GridPoint2D { x: 3, y: 0 }, 1),
    ]);
    assert_eq!(cb.iteration(), 1);
    assert_eq!(
        cb.non_trivial_lookup(),
        &vec![(GridPoint2D { x: 1, y: 0 }, 3), (GridPoint2D { x: 3, y: 0 }, 1)]
    );
    cb.set_non_trivial_lookup(vec![]);
    assert_eq!(cb.iteration(), 2);
    assert!(cb.non_trivial_lookup().is_empty());
    assert_eq!(cb.trivial_state(), 0);
}

#[test]
fn binary_states_callback_keeps_indices() {
    let mut cb: BinaryStatesCallback<BinaryState, GridPoint2D<i32>> =
        BinaryStatesCallback::new(BinaryState::Dead, BinaryState::Alive);
    cb.execute(vec![
        (GridPoint2D { x: 0, y: 0 }, BinaryState::Alive),
        (GridPoint2D { x: 1, y: 0 }, BinaryState::Dead),
        (GridPoint2D { x: 2, y: 0 }, BinaryState::Alive),
    ]);
    assert_eq!(cb.iteration(), 1);
    assert_eq!(
        cb.non_trivial_indices(),
        &vec![GridPoint2D { x: 0, y: 0 }, GridPoint2D { x: 2, y: 0 }]
    );
    assert_eq!(cb.trivial_state(), BinaryState::Dead);
    assert_eq!(cb.non_trivial_state(), BinaryState::Alive);
    let cb2: BinaryStatesCallback<BinaryState, GridPoint2D<i32>> =
        BinaryStatesCallback::new_with_non_trivial_indices(
            BinaryState::Dead,
            BinaryState::Alive,
            vec![GridPoint2D { x: 5, y: 5 }],
        );
    assert_eq!(cb2.iteration(), 0);
    assert_eq!(cb2.non_trivial_indices().len(), 1);
}
