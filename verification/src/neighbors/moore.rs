//! The Moore neighbourhood on an unbounded grid: every cell at distance one
//! along each axis.

use super::{shift, shift_ok, views, BoardNeighborManager};
use crate::index::{GridPoint1D, GridPoint2D, GridPoint3D};
use vstd::prelude::*;

verus! {

pub struct NeighborMoore {}

impl NeighborMoore {
    pub fn new() -> (r: Self) {
        Self {}
    }
}

pub open spec fn p3(x: i32, y: i32, z: i32) -> GridPoint3D<i32> {
    GridPoint3D { x, y, z }
}

pub open spec fn p2(x: i32, y: i32) -> GridPoint2D<i32> {
    GridPoint2D { x, y }
}

impl BoardNeighborManager<GridPoint3D<i32>> for NeighborMoore {
    open spec fn neighbors_defined(&self, idx: GridPoint3D<i32>) -> bool {
        shift_ok(idx.x, 1) && shift_ok(idx.y, 1) && shift_ok(idx.z, 1)
    }

    /// The 26 surrounding cells, `z` slowest, then `x`, then `y`.
    open spec fn spec_neighbors(&self, idx: GridPoint3D<i32>) -> Seq<GridPoint3D<i32>> {
        let (x0, x1, x2) = (shift(idx.x, -1), idx.x, shift(idx.x, 1));
        let (y0, y1, y2) = (shift(idx.y, -1), idx.y, shift(idx.y, 1));
        let (z0, z1, z2) = (shift(idx.z, -1), idx.z, shift(idx.z, 1));
        seq![
            p3(x0, y0, z0), p3(x0, y1, z0), p3(x0, y2, z0),
            p3(x1, y0, z0), p3(x1, y1, z0), p3(x1, y2, z0),
            p3(x2, y0, z0), p3(x2, y1, z0), p3(x2, y2, z0),
            p3(x0, y0, z1), p3(x0, y1, z1), p3(x0, y2, z1),
            p3(x1, y0, z1), p3(x1, y2, z1),
            p3(x2, y0, z1), p3(x2, y1, z1), p3(x2, y2, z1),
            p3(x0, y0, z2), p3(x0, y1, z2), p3(x0, y2, z2),
            p3(x1, y0, z2), p3(x1, y1, z2), p3(x1, y2, z2),
            p3(x2, y0, z2), p3(x2, y1, z2), p3(x2, y2, z2),
        ]
    }

    fn get_neighbors_idx(&self, idx: &GridPoint3D<i32>) -> (r: Vec<GridPoint3D<i32>>) {
        let (x0, x1, x2) = (idx.x - 1, idx.x, idx.x + 1);
        let (y0, y1, y2) = (idx.y - 1, idx.y, idx.y + 1);
        let (z0, z1, z2) = (idx.z - 1, idx.z, idx.z + 1);
        let r = vec![
            GridPoint3D::new(x0, y0, z0),
            GridPoint3D::new(x0, y1, z0),
            GridPoint3D::new(x0, y2, z0),
            GridPoint3D::new(x1, y0, z0),
            GridPoint3D::new(x1, y1, z0),
            GridPoint3D::new(x1, y2, z0),
            GridPoint3D::new(x2, y0, z0),
            GridPoint3D::new(x2, y1, z0),
            GridPoint3D::new(x2, y2, z0),
            GridPoint3D::new(x0, y0, z1),
            GridPoint3D::new(x0, y1, z1),
            GridPoint3D::new(x0, y2, z1),
            GridPoint3D::new(x1, y0, z1),
            GridPoint3D::new(x1, y2, z1),
            GridPoint3D::new(x2, y0, z1),
            GridPoint3D::new(x2, y1, z1),
            GridPoint3D::new(x2, y2, z1),
            GridPoint3D::new(x0, y0, z2),
            GridPoint3D::new(x0, y1, z2),
            GridPoint3D::new(x0, y2, z2),
            GridPoint3D::new(x1, y0, z2),
            GridPoint3D::new(x1, y1, z2),
            GridPoint3D::new(x1, y2, z2),
            GridPoint3D::new(x2, y0, z2),
            GridPoint3D::new(x2, y1, z2),
            GridPoint3D::new(x2, y2, z2),
        ];
        assert(views(r@) =~= <Self as BoardNeighborManager<GridPoint3D<i32>>>::spec_neighbors(self, *idx));
        r
    }
}

impl BoardNeighborManager<GridPoint2D<i32>> for NeighborMoore {
    open spec fn neighbors_defined(&self, idx: GridPoint2D<i32>) -> bool {
        shift_ok(idx.x, 1) && shift_ok(idx.y, 1)
    }

    /// The 8 surrounding cells, `x` slowest.
    open spec fn spec_neighbors(&self, idx: GridPoint2D<i32>) -> Seq<GridPoint2D<i32>> {
        let (x0, x1, x2) = (shift(idx.x, -1), idx.x, shift(idx.x, 1));
        let (y0, y1, y2) = (shift(idx.y, -1), idx.y, shift(idx.y, 1));
        seq![
            p2(x0, y0), p2(x0, y1), p2(x0, y2),
            p2(x1, y0), p2(x1, y2),
            p2(x2, y0), p2(x2, y1), p2(x2, y2),
        ]
    }

    fn get_neighbors_idx(&self, idx: &GridPoint2D<i32>) -> (r: Vec<GridPoint2D<i32>>) {
        let (x0, x1, x2) = (idx.x - 1, idx.x, idx.x + 1);
        let (y0, y1, y2) = (idx.y - 1, idx.y, idx.y + 1);
        let r = vec![
            GridPoint2D::new(x0, y0),
            GridPoint2D::new(x0, y1),
            GridPoint2D::new(x0, y2),
            GridPoint2D::new(x1, y0),
            GridPoint2D::new(x1, y2),
            GridPoint2D::new(x2, y0),
            GridPoint2D::new(x2, y1),
            GridPoint2D::new(x2, y2),
        ];
        assert(views(r@) =~= <Self as BoardNeighborManager<GridPoint2D<i32>>>::spec_neighbors(self, *idx));
        r
    }
}

impl BoardNeighborManager<GridPoint1D<i32>> for NeighborMoore {
    open spec fn neighbors_defined(&self, idx: GridPoint1D<i32>) -> bool {
        shift_ok(idx.x, 1)
    }

    /// The left and the right cell.
    open spec fn spec_neighbors(&self, idx: GridPoint1D<i32>) -> Seq<GridPoint1D<i32>> {
        seq![GridPoint1D { x: shift(idx.x, -1) }, GridPoint1D { x: shift(idx.x, 1) }]
    }

    fn get_neighbors_idx(&self, idx: &GridPoint1D<i32>) -> (r: Vec<GridPoint1D<i32>>) {
        let r = vec![GridPoint1D::new(idx.x - 1), GridPoint1D::new(idx.x + 1)];
        assert(views(r@) =~= <Self as BoardNeighborManager<GridPoint1D<i32>>>::spec_neighbors(self, *idx));
        r
    }
}

/// The Moore neighbours of a cell are the eight distinct cells around it:
/// each differs from it by at most one on each axis and none is the cell.
pub proof fn lemma_moore_2d_around(n: NeighborMoore, idx: GridPoint2D<i32>)
    requires
        <NeighborMoore as BoardNeighborManager<GridPoint2D<i32>>>::neighbors_defined(&n, idx),
    ensures
        ({
            let nb = <NeighborMoore as BoardNeighborManager<GridPoint2D<i32>>>::spec_neighbors(&n, idx);
            &&& nb.len() == 8
            &&& nb.no_duplicates()
            &&& forall|q: GridPoint2D<i32>|
                #![trigger nb.contains(q)]
                nb.contains(q) <==> (q != idx && idx.x - 1 <= q.x <= idx.x + 1 && idx.y - 1 <= q.y
                    <= idx.y + 1)
        }),
{
    let nb = <NeighborMoore as BoardNeighborManager<GridPoint2D<i32>>>::spec_neighbors(&n, idx);
    assert forall|q: GridPoint2D<i32>|
        #![trigger nb.contains(q)]
        (q != idx && idx.x - 1 <= q.x <= idx.x + 1 && idx.y - 1 <= q.y <= idx.y + 1) implies nb.contains(q) by {
        let i = if q.x == idx.x - 1 {
            if q.y == idx.y - 1 { 0int } else if q.y == idx.y { 1 } else { 2 }
        } else if q.x == idx.x {
            if q.y == idx.y - 1 { 3int } else { 4 }
        } else {
            if q.y == idx.y - 1 { 5int } else if q.y == idx.y { 6 } else { 7 }
        };
        assert(nb[i] == q);
    }
}


/// The Moore neighbours of a three-dimensional cell are the twenty-six
/// distinct cells around it: each differs from it by at most one on each
/// axis and none is the cell.
pub proof fn lemma_moore_3d_around(n: NeighborMoore, idx: GridPoint3D<i32>)
    requires
        <NeighborMoore as BoardNeighborManager<GridPoint3D<i32>>>::neighbors_defined(&n, idx),
    ensures
        ({
            let nb = <NeighborMoore as BoardNeighborManager<GridPoint3D<i32>>>::spec_neighbors(&n, idx);
            &&& nb.len() == 26
            &&& nb.no_duplicates()
            &&& forall|q: GridPoint3D<i32>|
                #![trigger nb.contains(q)]
                nb.contains(q) <==> (q != idx && idx.x - 1 <= q.x <= idx.x + 1 && idx.y - 1 <= q.y
                    <= idx.y + 1 && idx.z - 1 <= q.z <= idx.z + 1)
        }),
{
    let nb = <NeighborMoore as BoardNeighborManager<GridPoint3D<i32>>>::spec_neighbors(&n, idx);
    assert forall|q: GridPoint3D<i32>|
        #![trigger nb.contains(q)]
        (q != idx && idx.x - 1 <= q.x <= idx.x + 1 && idx.y - 1 <= q.y <= idx.y + 1 && idx.z - 1
            <= q.z <= idx.z + 1) implies nb.contains(q) by {
        // The cells run `z` slowest, then `x`, then `y`, skipping the centre.
        let (dz, dx, dy) = (q.z - idx.z + 1, q.x - idx.x + 1, q.y - idx.y + 1);
        let flat = dz * 9 + dx * 3 + dy;
        let i = if flat < 13 {
            flat
        } else {
            flat - 1
        };
        assert(0 <= dz <= 2 && 0 <= dx <= 2 && 0 <= dy <= 2 && flat != 13);
        assert(nb[i] == q);
    }
}

/// The Moore neighbours of a one-dimensional cell are the two distinct
/// cells next to it.
pub proof fn lemma_moore_1d_around(n: NeighborMoore, idx: GridPoint1D<i32>)
    requires
        <NeighborMoore as BoardNeighborManager<GridPoint1D<i32>>>::neighbors_defined(&n, idx),
    ensures
        ({
            let nb = <NeighborMoore as BoardNeighborManager<GridPoint1D<i32>>>::spec_neighbors(&n, idx);
            &&& nb.len() == 2
            &&& nb.no_duplicates()
            &&& forall|q: GridPoint1D<i32>|
                #![trigger nb.contains(q)]
                nb.contains(q) <==> (q != idx && idx.x - 1 <= q.x <= idx.x + 1)
        }),
{
    let nb = <NeighborMoore as BoardNeighborManager<GridPoint1D<i32>>>::spec_neighbors(&n, idx);
    assert forall|q: GridPoint1D<i32>|
        #![trigger nb.contains(q)]
        (q != idx && idx.x - 1 <= q.x <= idx.x + 1) implies nb.contains(q) by {
        if q.x == idx.x - 1 {
            assert(nb[0] == q);
        } else {
            assert(nb[1] == q);
        }
    }
}

} // verus!
