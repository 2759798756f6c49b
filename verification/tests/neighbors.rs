use gol_core::grid_util::Size2D;
use gol_core::index::{GridPoint1D, GridPoint2D, GridPoint3D, GridPointND};
use gol_core::neighbors::grid_donut::NeighborsGridDonut;
use gol_core::neighbors::grid_surround::NeighborsGridSurround;
use gol_core::neighbors::moore_triangle::NeighborMooreTriangle;
use gol_core::neighbors::moore::NeighborMoore;
use gol_core::neighbors::moore_donut::NeighborMooreDonut;
use gol_core::neighbors::BoardNeighborManager;

#[test]
fn surround_margin_one_is_moore() {
    let neighbor_calc = NeighborsGridSurround::new(1);
    let cur_point = GridPoint2D { x: 10, y: 5 };
    let neighbors: Vec<GridPoint2D<i32>> = neighbor_calc.get_neighbors_idx(&cur_point);
    assert_eq!(neighbors.len(), 8);
    let moore: Vec<GridPoint2D<i32>> = NeighborMoore::new().get_neighbors_idx(&cur_point);
    for p in moore.iter() {
        assert!(neighbors.contains(p));
    }
    assert!(!neighbors.contains(&cur_point));

    let neighbor_calc_2 = NeighborsGridSurround::new(1);
    let cur_point = GridPoint3D { x: 10, y: 5, z: 9 };
    let neighbors_2: Vec<GridPoint3D<i32>> = neighbor_calc_2.get_neighbors_idx(&cur_point);
    assert_eq!(neighbors_2.len(), 26);
}

#[test]
fn surround_variable_margin() {
    let margins = [(2usize, 2usize), (2, 1)];
    let neighbor_calc = NeighborsGridSurround::new_with_variable_margin(&margins);
    let cur_point = GridPoint2D { x: 10, y: 5 };
    let neighbors: Vec<GridPoint2D<i32>> = neighbor_calc.get_neighbors_idx(&cur_point);
    assert_eq!(neighbors.len(), 19);
    for p in neighbors.iter() {
        assert!(p.x >= 8 && p.x <= 12);
        assert!(p.y >= 3 && p.y <= 6);
    }
    assert!(!neighbors.contains(&cur_point));
}

#[test]
fn surround_nd_and_1d() {
    let calc = NeighborsGridSurround::new(2);
    let p = GridPoint1D { x: 0 };
    let n: Vec<GridPoint1D<i32>> = calc.get_neighbors_idx(&p);
    assert_eq!(
        n,
        vec![
            GridPoint1D { x: -2 },
            GridPoint1D { x: -1 },
            GridPoint1D { x: 1 },
            GridPoint1D { x: 2 }
        ]
    );
    let nd = GridPointND::new(&[0, 0]);
    let calc1 = NeighborsGridSurround::new(1);
    let n: Vec<GridPointND<i32>> = calc1.get_neighbors_idx(&nd);
    assert_eq!(n.len(), 8);
    assert_eq!(n[0].indices(), &[-1, -1]);
    assert_eq!(n[1].indices(), &[0, -1]);
}

#[test]
fn moore_donut_wraps() {
    let calc = NeighborMooreDonut::new(Size2D::new(3, 3));
    // A 3 x 3 board has indices -1..=1 on both axes.
    let p = GridPoint2D { x: 1, y: 1 };
    let n: Vec<GridPoint2D<i32>> = calc.get_neighbors_idx(&p);
    assert_eq!(n.len(), 8);
    assert!(!n.contains(&p));
    for q in n.iter() {
        assert!(q.x >= -1 && q.x <= 1 && q.y >= -1 && q.y <= 1);
    }
    assert!(n.contains(&GridPoint2D { x: -1, y: -1 }));
    let calc = NeighborMooreDonut::new(Size2D::new(4, 5));
    // A 4 x 5 board: x in -2..=1, y in -2..=2.
    let p = GridPoint2D { x: -2, y: 2 };
    let n: Vec<GridPoint2D<i32>> = calc.get_neighbors_idx(&p);
    assert!(n.contains(&GridPoint2D { x: 1, y: -2 }));
    assert!(n.contains(&GridPoint2D { x: -1, y: 1 }));
    assert!(!n.contains(&p));
}

#[test]
fn triangle_neighbours_are_symmetric() {
    let t = NeighborMooreTriangle::new();
    for x in -3..4 {
        for y in -3..4 {
            let p = GridPoint2D { x, y };
            let np: Vec<GridPoint2D<i32>> = t.get_neighbors_idx(&p);
            for q in np.iter() {
                let nq: Vec<GridPoint2D<i32>> = t.get_neighbors_idx(q);
                assert!(nq.contains(&p));
            }
        }
    }
}

#[test]
fn moore_donut_is_grid_donut_of_margin_one() {
    let (w, h) = (5usize, 4usize);
    let moore = NeighborMooreDonut::new(Size2D::new(w, h));
    let grid = NeighborsGridDonut::new(1, vec![w, h]);
    for x in -2..3 {
        for y in -2..2 {
            let p = GridPoint2D { x, y };
            let mut a: Vec<GridPoint2D<i32>> = moore.get_neighbors_idx(&p);
            let mut b: Vec<GridPoint2D<i32>> = grid.get_neighbors_idx(&p);
            a.sort_by_key(|q| (q.x, q.y));
            b.sort_by_key(|q| (q.x, q.y));
            assert_eq!(a, b);
        }
    }
}

#[test]
fn surround_margin_one_is_moore_in_1d_and_3d() {
    let s = NeighborsGridSurround::new(1);
    let p1 = GridPoint1D { x: -7 };
    let mut a: Vec<GridPoint1D<i32>> = s.get_neighbors_idx(&p1);
    let mut b: Vec<GridPoint1D<i32>> = NeighborMoore::new().get_neighbors_idx(&p1);
    a.sort_by_key(|q| q.x);
    b.sort_by_key(|q| q.x);
    assert_eq!(a, b);
    let p3 = GridPoint3D { x: 1, y: -2, z: 3 };
    let mut a: Vec<GridPoint3D<i32>> = s.get_neighbors_idx(&p3);
    let mut b: Vec<GridPoint3D<i32>> = NeighborMoore::new().get_neighbors_idx(&p3);
    assert_eq!(a.len(), 26);
    a.sort_by_key(|q| (q.x, q.y, q.z));
    b.sort_by_key(|q| (q.x, q.y, q.z));
    assert_eq!(a, b);
}

#[test]
fn uniform_margin_equals_variable_margin() {
    let p = GridPointND::new(&[1, -1]);
    let a: Vec<GridPointND<i32>> = NeighborsGridSurround::new(2).get_neighbors_idx(&p);
    let b: Vec<GridPointND<i32>> =
        NeighborsGridSurround::new_with_variable_margin(&[(2, 2), (2, 2)]).get_neighbors_idx(&p);
    assert_eq!(a.len(), 24);
    let (av, bv): (Vec<Vec<i32>>, Vec<Vec<i32>>) = (
        a.iter().map(|q| q.indices().to_vec()).collect(),
        b.iter().map(|q| q.indices().to_vec()).collect(),
    );
    assert_eq!(av, bv);
    let a: Vec<GridPointND<i32>> = NeighborsGridDonut::new(1, vec![4, 4]).get_neighbors_idx(&p);
    let b: Vec<GridPointND<i32>> =
        NeighborsGridDonut::new_with_variable_margin(&[(1, 1), (1, 1)], vec![4, 4]).get_neighbors_idx(&p);
    let (av, bv): (Vec<Vec<i32>>, Vec<Vec<i32>>) = (
        a.iter().map(|q| q.indices().to_vec()).collect(),
        b.iter().map(|q| q.indices().to_vec()).collect(),
    );
    assert_eq!(av.len(), 8);
    assert_eq!(av, bv);
}

#[test]
fn neighbours_computable_checks() {
    let p = GridPointND::new(&[0, 0]);
    assert!(NeighborsGridSurround::new(3).neighbors_computable(&p));
    assert!(!NeighborsGridSurround::new(usize::MAX).neighbors_computable(&p));
    let edge = GridPointND::new(&[i32::MAX, 0]);
    assert!(!NeighborsGridSurround::new(1).neighbors_computable(&edge));
    assert!(NeighborsGridDonut::new(1, vec![3, 3]).neighbors_computable(&p));
    // An axis must be longer than its two margins.
    assert!(!NeighborsGridDonut::new(1, vec![2, 3]).neighbors_computable(&p));
}
