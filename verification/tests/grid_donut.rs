use gol_core::index::{GridPoint1D, GridPoint2D};
use gol_core::neighbors::grid_donut::NeighborsGridDonut;
use gol_core::neighbors::BoardNeighborManager;

#[test]
fn grid_donut_test_1d_1() {
    let board_shape = vec![100usize];
    let neighbor_calc = NeighborsGridDonut::new(1usize, board_shape);
    let point = GridPoint1D { x: 10 };
    let neighbors: Vec<GridPoint1D<i32>> = neighbor_calc.get_neighbors_idx(&point);
    assert_eq!(neighbors.len(), 2);
    assert!(!neighbors.contains(&point));
    assert!(neighbors.contains(&GridPoint1D { x: 9 }));
    assert!(neighbors.contains(&GridPoint1D { x: 11 }));
}

#[test]
fn grid_donut_test_1d_2() {
    let board_shape = vec![3usize];
    let neighbor_calc = NeighborsGridDonut::new(1usize, board_shape);
    let point = GridPoint1D { x: 0 };
    let neighbors: Vec<GridPoint1D<i32>> = neighbor_calc.get_neighbors_idx(&point);
    assert_eq!(neighbors.len(), 2);
    assert!(!neighbors.contains(&point));
    assert!(neighbors.contains(&GridPoint1D { x: -1 }));
    assert!(neighbors.contains(&GridPoint1D { x: 1 }));
}

#[test]
fn grid_donut_test_2d_1() {
    let board_shape = vec![5usize, 5];
    let neighbor_calc = NeighborsGridDonut::new(1usize, board_shape);
    let point = GridPoint2D { x: -2, y: -2 };
    let neighbors: Vec<GridPoint2D<i32>> = neighbor_calc.get_neighbors_idx(&point);
    assert_eq!(neighbors.len(), 8);
    assert!(!neighbors.contains(&point));
    assert!(neighbors.contains(&GridPoint2D { x: -2, y: -1 }));
    assert!(neighbors.contains(&GridPoint2D { x: -1, y: -1 }));
    assert!(neighbors.contains(&GridPoint2D { x: -1, y: -2 }));
    assert!(neighbors.contains(&GridPoint2D { x: 2, y: -2 }));
    assert!(neighbors.contains(&GridPoint2D { x: 2, y: -1 }));
    assert!(neighbors.contains(&GridPoint2D { x: -2, y: 2 }));
    assert!(neighbors.contains(&GridPoint2D { x: -1, y: 2 }));
    assert!(neighbors.contains(&GridPoint2D { x: 2, y: 2 }));
}

#[test]
fn grid_donut_test_2d_2() {
    let board_shape = vec![5usize, 5];
    let neighbor_calc = NeighborsGridDonut::new(1usize, board_shape);
    let point = GridPoint2D { x: 2, y: 2 };
    let neighbors: Vec<GridPoint2D<i32>> = neighbor_calc.get_neighbors_idx(&point);
    assert_eq!(neighbors.len(), 8);
    assert!(!neighbors.contains(&point));
    assert!(neighbors.contains(&GridPoint2D { x: -2, y: -2 }));
    assert!(neighbors.contains(&GridPoint2D { x: -2, y: 2 }));
    assert!(neighbors.contains(&GridPoint2D { x: -2, y: 1 }));
    assert!(neighbors.contains(&GridPoint2D { x: 2, y: -2 }));
    assert!(neighbors.contains(&GridPoint2D { x: 1, y: -2 }));
    assert!(neighbors.contains(&GridPoint2D { x: 1, y: 2 }));
    assert!(neighbors.contains(&GridPoint2D { x: 1, y: 1 }));
    assert!(neighbors.contains(&GridPoint2D { x: 2, y: 1 }));
}

#[test]
fn grid_donut_test_2d_3() {
    let board_shape = vec![100usize, 49];
    let neighbor_calc = NeighborsGridDonut::new(1usize, board_shape);
    let point = GridPoint2D { x: 0, y: -24 };
    let neighbors: Vec<GridPoint2D<i32>> = neighbor_calc.get_neighbors_idx(&point);
    assert_eq!(neighbors.len(), 8);
    assert!(!neighbors.contains(&point));
    assert!(neighbors.contains(&GridPoint2D { x: -1, y: -24 }));
    assert!(neighbors.contains(&GridPoint2D { x: -1, y: -23 }));
    assert!(neighbors.contains(&GridPoint2D { x: 0, y: -23 }));
    assert!(neighbors.contains(&GridPoint2D { x: 1, y: -24 }));
    assert!(neighbors.contains(&GridPoint2D { x: 1, y: -23 }));
    assert!(neighbors.contains(&GridPoint2D { x: 1, y: 24 }));
    assert!(neighbors.contains(&GridPoint2D { x: 0, y: 24 }));
    assert!(neighbors.contains(&GridPoint2D { x: -1, y: 24 }));
}

#[test]
fn grid_donut_test_2d_4() {
    let board_shape = vec![100usize, 50];
    let neighbor_calc = NeighborsGridDonut::new(1usize, board_shape);
    let point = GridPoint2D { x: 0, y: -25 };
    let neighbors: Vec<GridPoint2D<i32>> = neighbor_calc.get_neighbors_idx(&point);
    assert_eq!(neighbors.len(), 8);
    assert!(!neighbors.contains(&point));
    assert!(neighbors.contains(&GridPoint2D { x: -1, y: -25 }));
    assert!(neighbors.contains(&GridPoint2D { x: -1, y: -24 }));
    assert!(neighbors.contains(&GridPoint2D { x: 0, y: -24 }));
    assert!(neighbors.contains(&GridPoint2D { x: 1, y: -25 }));
    assert!(neighbors.contains(&GridPoint2D { x: 1, y: -24 }));
    assert!(neighbors.contains(&GridPoint2D { x: 1, y: 24 }));
    assert!(neighbors.contains(&GridPoint2D { x: 0, y: 24 }));
    assert!(neighbors.contains(&GridPoint2D { x: -1, y: 24 }));
}

#[test]
fn grid_donut_test_2d_5() {
    let board_shape = vec![100usize, 49];
    let neighbor_calc = NeighborsGridDonut::new(1usize, board_shape);
    let point = GridPoint2D { x: 0, y: 24 };
    let neighbors: Vec<GridPoint2D<i32>> = neighbor_calc.get_neighbors_idx(&point);
    assert_eq!(neighbors.len(), 8);
    assert!(!neighbors.contains(&point));
    assert!(neighbors.contains(&GridPoint2D { x: -1, y: 24 }));
    assert!(neighbors.contains(&GridPoint2D { x: -1, y: 23 }));
    assert!(neighbors.contains(&GridPoint2D { x: 0, y: 23 }));
    assert!(neighbors.contains(&GridPoint2D { x: 1, y: 24 }));
    assert!(neighbors.contains(&GridPoint2D { x: 1, y: 23 }));
    assert!(neighbors.contains(&GridPoint2D { x: 1, y: -24 }));
    assert!(neighbors.contains(&GridPoint2D { x: 0, y: -24 }));
    assert!(neighbors.contains(&GridPoint2D { x: -1, y: -24 }));
}

#[test]
fn grid_donut_test_2d_6() {
    let board_shape = vec![100usize, 50];
    let neighbor_calc = NeighborsGridDonut::new(1usize, board_shape);
    let point = GridPoint2D { x: 0, y: 24 };
    let neighbors: Vec<GridPoint2D<i32>> = neighbor_calc.get_neighbors_idx(&point);
    assert_eq!(neighbors.len(), 8);
    assert!(!neighbors.contains(&point));
    assert!(neighbors.contains(&GridPoint2D { x: -1, y: 24 }));
    assert!(neighbors.contains(&GridPoint2D { x: -1, y: 23 }));
    assert!(neighbors.contains(&GridPoint2D { x: 0, y: 23 }));
    assert!(neighbors.contains(&GridPoint2D { x: 1, y: 24 }));
    assert!(neighbors.contains(&GridPoint2D { x: 1, y: 23 }));
    assert!(neighbors.contains(&GridPoint2D { x: 1, y: -25 }));
    assert!(neighbors.contains(&GridPoint2D { x: 0, y: -25 }));
    assert!(neighbors.contains(&GridPoint2D { x: -1, y: -25 }));
}

#[test]
fn grid_donut_test_2d_7() {
    let board_shape = vec![171usize, 50];
    let neighbor_calc = NeighborsGridDonut::new(1usize, board_shape);
    let point = GridPoint2D { x: 0, y: 24 };
    let neighbors: Vec<GridPoint2D<i32>> = neighbor_calc.get_neighbors_idx(&point);
    assert_eq!(neighbors.len(), 8);
    assert!(!neighbors.contains(&point));
    assert!(neighbors.contains(&GridPoint2D { x: -1, y: 24 }));
    assert!(neighbors.contains(&GridPoint2D { x: -1, y: 23 }));
    assert!(neighbors.contains(&GridPoint2D { x: 0, y: 23 }));
    assert!(neighbors.contains(&GridPoint2D { x: 1, y: 24 }));
    assert!(neighbors.contains(&GridPoint2D { x: 1, y: 23 }));
    assert!(neighbors.contains(&GridPoint2D { x: 1, y: -25 }));
    assert!(neighbors.contains(&GridPoint2D { x: 0, y: -25 }));
    assert!(neighbors.contains(&GridPoint2D { x: -1, y: -25 }));
}

#[test]
fn grid_donut_test_2d_8() {
    let board_shape = vec![171usize, 50];
    let neighbor_calc = NeighborsGridDonut::new(1usize, board_shape);
    let point = GridPoint2D { x: 1, y: 24 };
    let neighbors: Vec<GridPoint2D<i32>> = neighbor_calc.get_neighbors_idx(&point);
    assert_eq!(neighbors.len(), 8);
    assert!(!neighbors.contains(&point));
    assert!(neighbors.contains(&GridPoint2D { x: 0, y: 24 }));
    assert!(neighbors.contains(&GridPoint2D { x: 0, y: 23 }));
    assert!(neighbors.contains(&GridPoint2D { x: 1, y: 23 }));
    assert!(neighbors.contains(&GridPoint2D { x: 2, y: 24 }));
    assert!(neighbors.contains(&GridPoint2D { x: 2, y: 23 }));
    assert!(neighbors.contains(&GridPoint2D { x: 2, y: -25 }));
    assert!(neighbors.contains(&GridPoint2D { x: 1, y: -25 }));
    assert!(neighbors.contains(&GridPoint2D { x: 0, y: -25 }));
}

#[test]
fn grid_donut_test_2d_9() {
    let board_shape = vec![171usize, 50];
    let neighbor_calc = NeighborsGridDonut::new(1usize, board_shape);
    for x in 0..171 {
        for y in 0..50 {
            let x_new = x - 171 / 2;
            let y_new = y - 50 / 2;
            let point = GridPoint2D::new(x_new, y_new);
            let cur_neighbors: Vec<GridPoint2D<i32>> =
                neighbor_calc.get_neighbors_idx(&point);
            assert_eq!(cur_neighbors.len(), 8);
        }
    }
}

