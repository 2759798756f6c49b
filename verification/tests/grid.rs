use gol_core::board::{generation_limit_reached, StandardBoardFactory};
use gol_core::grid_util::{Size1D, Size2D, Size3D};
use gol_core::index::{GridPoint1D, GridPoint2D, GridPoint3D, GridPointND, ToGridPointND};
use gol_core::space::{BoardSpaceManager, GridND};
use gol_core::state::BinaryState;
use gol_core::strategy::BinaryStrategy;

#[test]
fn sizes_are_centred() {
    let s = Size1D::new(5);
    assert_eq!((s.x_idx_min(), s.x_idx_max()), (-2, 2));
    let s = Size2D::new(4, 1);
    assert_eq!((s.x_idx_min(), s.x_idx_max()), (-2, 1));
    assert_eq!((s.y_idx_min(), s.y_idx_max()), (0, 0));
    let s = Size3D::new(0, 7, 2);
    assert_eq!((s.x_idx_min(), s.x_idx_max()), (0, -1));
    assert_eq!((s.y_idx_min(), s.y_idx_max()), (-3, 3));
    assert_eq!((s.z_idx_min(), s.z_idx_max()), (-1, 0));
    assert_eq!((s.width(), s.height(), s.depth()), (0, 7, 2));
}

#[test]
fn points_convert_both_ways() {
    let p = GridPoint2D { x: 3, y: -4 };
    let nd = p.to_nd();
    assert_eq!(nd.indices(), &[3, -4]);
    assert_eq!(nd.to_2d(), Some(p));
    assert_eq!(nd.to_1d(), None);
    assert_eq!(nd.to_3d(), None);
    let p3 = GridPoint3D::new(1, 2, 3);
    assert_eq!(p3.to_nd().to_3d(), Some(p3));
    let p1 = GridPoint1D::new(9);
    assert_eq!(p1.to_nd().to_1d(), Some(p1));
    assert!(GridPointND::new(&[1, 2]) == GridPointND::new(&[1, 2, 3]));
    assert!(GridPointND::new(&[1, 2]) != GridPointND::new(&[1, 3]));
}

#[test]
fn grid_cells_follow_the_division_rule() {
    let g = GridND::new(vec![2, 3]);
    let cells: Vec<Vec<i32>> = g.indices_iter().iter().map(|p| p.indices().to_vec()).collect();
    assert_eq!(
        cells,
        vec![
            vec![0, 0],
            vec![0, 0],
            vec![1, 0],
            vec![1, 0],
            vec![2, 0],
            vec![2, 0]
        ]
    );
}

#[test]
fn blinker_turns() {
    // The space [1, 5] lists the cells (0, 0) .. (4, 0); a vertical blinker
    // through (2, 0) turns into a horizontal one on that row.
    let initial = vec![
        (GridPointND::new(&[2, -1]), BinaryState::Alive),
        (GridPointND::new(&[2, 0]), BinaryState::Alive),
        (GridPointND::new(&[2, 1]), BinaryState::Alive),
    ];
    let mut board = StandardBoardFactory::new_standard_nd_grid(
        vec![1, 5],
        &BinaryState::Dead,
        &1,
        initial,
        BinaryStrategy::conway(),
    );
    let next = board.advance_one_generation();
    let states: Vec<(Vec<i32>, BinaryState)> = next
        .iter()
        .map(|(p, s)| (p.indices().to_vec(), *s))
        .collect();
    assert_eq!(
        states,
        vec![
            (vec![0, 0], BinaryState::Dead),
            (vec![1, 0], BinaryState::Alive),
            (vec![2, 0], BinaryState::Alive),
            (vec![3, 0], BinaryState::Alive),
            (vec![4, 0], BinaryState::Dead),
        ]
    );
    let next = board.advance_one_generation();
    let alive: Vec<Vec<i32>> = next
        .iter()
        .filter(|(_, s)| *s == BinaryState::Alive)
        .map(|(p, _)| p.indices().to_vec())
        .collect();
    // Only the row is listed: the blinker's middle cell survives there.
    assert_eq!(alive, vec![vec![2, 0]]);
}

#[test]
fn empty_board_stays_empty() {
    let mut board = StandardBoardFactory::new_standard_nd_grid(
        vec![3, 3],
        &BinaryState::Dead,
        &1,
        vec![],
        BinaryStrategy::conway(),
    );
    let next = board.advance_one_generation();
    assert_eq!(next.len(), 9);
    assert!(next.iter().all(|(_, s)| *s == BinaryState::Dead));
}

#[test]
fn board_checks_its_neighbours_before_advancing() {
    let board = StandardBoardFactory::new_standard_nd_grid(
        vec![3, 3],
        &BinaryState::Dead,
        &1,
        vec![],
        BinaryStrategy::conway(),
    );
    assert!(board.neighbors_computable_everywhere());
    let board = StandardBoardFactory::new_standard_nd_grid(
        vec![3, 3],
        &BinaryState::Dead,
        &usize::MAX,
        vec![],
        BinaryStrategy::conway(),
    );
    assert!(!board.neighbors_computable_everywhere());
}

#[test]
fn runs_stop_at_their_generation_limit() {
    assert!(!generation_limit_reached(2, Some(3)));
    assert!(generation_limit_reached(3, Some(3)));
    assert!(generation_limit_reached(4, Some(3)));
    assert!(!generation_limit_reached(usize::MAX, None));
}
