//! Neighbours on a grid of triangles: a cell whose coordinates sum to an
//! even number points up, any other cell points down.

use super::{shift, shift_ok, views, BoardNeighborManager};
use crate::index::{GridPoint1D, GridPoint2D};
use crate::neighbors::moore::p2;
use vstd::prelude::*;

verus! {

pub struct NeighborMooreTriangle {}

impl NeighborMooreTriangle {
    pub fn new() -> (r: Self) {
        Self {}
    }
}

/// Whether the triangle at `(x, y)` points up.
pub open spec fn is_pointing_up(x: i32, y: i32) -> bool {
    (x + y) % 2 == 0
}

impl BoardNeighborManager<GridPoint2D<i32>> for NeighborMooreTriangle {
    open spec fn neighbors_defined(&self, idx: GridPoint2D<i32>) -> bool {
        shift_ok(idx.x, 2) && shift_ok(idx.y, 1) && i32::MIN <= idx.x + idx.y <= i32::MAX
    }

    /// The four orthogonal cells, then the two cells two columns away on
    /// the row below (pointing up) or above (pointing down).
    open spec fn spec_neighbors(&self, idx: GridPoint2D<i32>) -> Seq<GridPoint2D<i32>> {
        let dy = if is_pointing_up(idx.x, idx.y) {
            -1
        } else {
            1
        };
        seq![
            p2(shift(idx.x, 1), idx.y),
            p2(shift(idx.x, -1), idx.y),
            p2(idx.x, shift(idx.y, -1)),
            p2(idx.x, shift(idx.y, 1)),
            p2(shift(idx.x, -2), shift(idx.y, dy)),
            p2(shift(idx.x, 2), shift(idx.y, dy)),
        ]
    }

    fn get_neighbors_idx(&self, idx: &GridPoint2D<i32>) -> (r: Vec<GridPoint2D<i32>>) {
        let is_pointing_up = (idx.x + idx.y) % 2 == 0;
        let r = if is_pointing_up {
            vec![
                GridPoint2D::new(idx.x + 1, idx.y),
                GridPoint2D::new(idx.x - 1, idx.y),
                GridPoint2D::new(idx.x, idx.y - 1),
                GridPoint2D::new(idx.x, idx.y + 1),
                GridPoint2D::new(idx.x - 2, idx.y - 1),
                GridPoint2D::new(idx.x + 2, idx.y - 1),
            ]
        } else {
            vec![
                GridPoint2D::new(idx.x + 1, idx.y),
                GridPoint2D::new(idx.x - 1, idx.y),
                GridPoint2D::new(idx.x, idx.y - 1),
                GridPoint2D::new(idx.x, idx.y + 1),
                GridPoint2D::new(idx.x - 2, idx.y + 1),
                GridPoint2D::new(idx.x + 2, idx.y + 1),
            ]
        };
        assert(views(r@) =~= <Self as BoardNeighborManager<GridPoint2D<i32>>>::spec_neighbors(self, *idx));
        r
    }
}

impl BoardNeighborManager<GridPoint1D<i32>> for NeighborMooreTriangle {
    open spec fn neighbors_defined(&self, idx: GridPoint1D<i32>) -> bool {
        shift_ok(idx.x, 1)
    }

    open spec fn spec_neighbors(&self, idx: GridPoint1D<i32>) -> Seq<GridPoint1D<i32>> {
        seq![GridPoint1D { x: shift(idx.x, -1) }, GridPoint1D { x: shift(idx.x, 1) }]
    }

    fn get_neighbors_idx(&self, idx: &GridPoint1D<i32>) -> (r: Vec<GridPoint1D<i32>>) {
        let r = vec![GridPoint1D::new(idx.x - 1), GridPoint1D::new(idx.x + 1)];
        assert(views(r@) =~= <Self as BoardNeighborManager<GridPoint1D<i32>>>::spec_neighbors(self, *idx));
        r
    }
}


/// Whether the six neighbours of `p` on the triangle grid can be computed.
pub open spec fn triangle_defined(p: GridPoint2D<i32>) -> bool {
    <NeighborMooreTriangle as BoardNeighborManager<GridPoint2D<i32>>>::neighbors_defined(
        &NeighborMooreTriangle {},
        p,
    )
}

/// The six neighbours of `p` on the triangle grid.
pub open spec fn triangle_neighbors(p: GridPoint2D<i32>) -> Seq<GridPoint2D<i32>> {
    <NeighborMooreTriangle as BoardNeighborManager<GridPoint2D<i32>>>::spec_neighbors(
        &NeighborMooreTriangle {},
        p,
    )
}

/// The six neighbours of a triangle at `(x, y)`: the four cells next to it
/// on its row and column, and the two cells two columns away on the row
/// below when `x + y` is even (the triangle points up) or on the row above
/// when it is odd (it points down); each once.
pub proof fn lemma_triangle_neighbors(p: GridPoint2D<i32>)
    requires
        triangle_defined(p),
    ensures
        triangle_neighbors(p).len() == 6,
        triangle_neighbors(p).no_duplicates(),
        forall|q: GridPoint2D<i32>|
            #![trigger triangle_neighbors(p).contains(q)]
            triangle_neighbors(p).contains(q) <==> {
                let far_row = if (p.x + p.y) % 2 == 0 {
                    p.y - 1
                } else {
                    p.y + 1
                };
                ||| q.y == p.y && (q.x == p.x - 1 || q.x == p.x + 1)
                ||| q.x == p.x && (q.y == p.y - 1 || q.y == p.y + 1)
                ||| q.y == far_row && (q.x == p.x - 2 || q.x == p.x + 2)
            },
{
    let nb = triangle_neighbors(p);
    let far_row = if (p.x + p.y) % 2 == 0 {
        p.y - 1
    } else {
        p.y + 1
    };
    assert forall|q: GridPoint2D<i32>|
        #![trigger nb.contains(q)]
        ({
            ||| q.y == p.y && (q.x == p.x - 1 || q.x == p.x + 1)
            ||| q.x == p.x && (q.y == p.y - 1 || q.y == p.y + 1)
            ||| q.y == far_row && (q.x == p.x - 2 || q.x == p.x + 2)
        }) implies nb.contains(q) by {
        if q.y == p.y && q.x == p.x + 1 {
            assert(nb[0] == q);
        } else if q.y == p.y && q.x == p.x - 1 {
            assert(nb[1] == q);
        } else if q.x == p.x && q.y == p.y - 1 {
            assert(nb[2] == q);
        } else if q.x == p.x && q.y == p.y + 1 {
            assert(nb[3] == q);
        } else if q.x == p.x - 2 {
            assert(nb[4] == q);
        } else {
            assert(nb[5] == q);
        }
    }
}

/// On a line of triangles, the neighbours of a cell are the two cells next
/// to it, each once.
pub proof fn lemma_triangle_1d_neighbors(p: GridPoint1D<i32>)
    requires
        <NeighborMooreTriangle as BoardNeighborManager<GridPoint1D<i32>>>::neighbors_defined(
            &NeighborMooreTriangle {},
            p,
        ),
    ensures
        ({
            let nb = <NeighborMooreTriangle as BoardNeighborManager<GridPoint1D<i32>>>::spec_neighbors(
                &NeighborMooreTriangle {},
                p,
            );
            &&& nb.len() == 2
            &&& nb.no_duplicates()
            &&& forall|q: GridPoint1D<i32>|
                #![trigger nb.contains(q)]
                nb.contains(q) <==> (q.x == p.x - 1 || q.x == p.x + 1)
        }),
{
    let nb = <NeighborMooreTriangle as BoardNeighborManager<GridPoint1D<i32>>>::spec_neighbors(
        &NeighborMooreTriangle {},
        p,
    );
    assert forall|q: GridPoint1D<i32>|
        #![trigger nb.contains(q)]
        (q.x == p.x - 1 || q.x == p.x + 1) implies nb.contains(q) by {
        if q.x == p.x - 1 {
            assert(nb[0] == q);
        } else {
            assert(nb[1] == q);
        }
    }
}

proof fn lemma_triangle_one_way(p: GridPoint2D<i32>, q: GridPoint2D<i32>)
    requires
        triangle_defined(p),
        triangle_defined(q),
        triangle_neighbors(p).contains(q),
    ensures
        triangle_neighbors(q).contains(p),
{
    let s = triangle_neighbors(p);
    let t = triangle_neighbors(q);
    let i = choose|i: int| 0 <= i < s.len() && s[i] == q;
    if i == 0 {
        assert(t[1] == p);
    } else if i == 1 {
        assert(t[0] == p);
    } else if i == 2 {
        assert(t[3] == p);
    } else if i == 3 {
        assert(t[2] == p);
    } else if i == 4 {
        assert(t[5] == p);
    } else {
        assert(t[4] == p);
    }
}

/// Being neighbours on the triangle grid is symmetric: `q` is among the
/// neighbours of `p` exactly when `p` is among those of `q`.
pub proof fn lemma_triangle_symmetric(p: GridPoint2D<i32>, q: GridPoint2D<i32>)
    requires
        triangle_defined(p),
        triangle_defined(q),
    ensures
        triangle_neighbors(p).contains(q) <==> triangle_neighbors(q).contains(p),
{
    if triangle_neighbors(p).contains(q) {
        lemma_triangle_one_way(p, q);
    }
    if triangle_neighbors(q).contains(p) {
        lemma_triangle_one_way(q, p);
    }
}

} // verus!
