//! The Moore neighbourhood on a finite grid whose opposite edges are joined
//! (a torus): a neighbour that would fall off one edge comes back on the
//! opposite one.

use super::{shift, shift_ok, views, BoardNeighborManager};
use crate::grid_util::{dim_len_ok, spec_dim_idx_max, spec_dim_idx_min, Size1D, Size2D, Size3D};
use crate::index::{GridPoint1D, GridPoint2D, GridPoint3D};
use crate::neighbors::grid_donut::{
    board_max, board_min, donut_axis, lemma_donut_members, lemma_ring_offsets, same_on_ring,
    within_on_ring, NeighborsGridDonut,
};
use crate::neighbors::moore::{p2, p3};
use vstd::prelude::*;

verus! {

pub struct NeighborMooreDonut<T> {
    grid_size: T,
}

impl<T> NeighborMooreDonut<T> {
    pub closed spec fn spec_grid_size(&self) -> T {
        self.grid_size
    }

    pub fn new(grid_size: T) -> (r: Self)
        ensures
            r.spec_grid_size() == grid_size,
    {
        Self { grid_size }
    }
}

/// The lower neighbour along an axis with indices `lo..=hi`: `v - 1`, or
/// `hi` when `v - 1` falls below `lo`.
pub open spec fn wrap_lo(v: i32, lo: int, hi: int) -> i32 {
    if v - 1 < lo {
        hi as i32
    } else {
        shift(v, -1)
    }
}

/// The upper neighbour along an axis with indices `lo..=hi`: `v + 1`, or
/// `lo` when `v + 1` passes `hi` (and the lower side did not wrap).
pub open spec fn wrap_hi(v: i32, lo: int, hi: int) -> i32 {
    if v - 1 < lo {
        shift(v, 1)
    } else if v + 1 > hi {
        lo as i32
    } else {
        shift(v, 1)
    }
}

/// An axis of `len` cells that the neighbour rule can work with: at least
/// three cells, with both end indices `i32` values.
pub open spec fn axis_ok(len: usize) -> bool {
    &&& len >= 3
    &&& dim_len_ok(len)
    &&& i32::MIN <= spec_dim_idx_min(len) <= i32::MAX
    &&& i32::MIN <= spec_dim_idx_max(len) <= i32::MAX
}

fn axis_neighbors(v: i32, lo: i64, hi: i64) -> (r: (i32, i32))
    requires
        shift_ok(v, 1),
        i32::MIN <= lo <= i32::MAX,
        i32::MIN <= hi <= i32::MAX,
    ensures
        r.0 == wrap_lo(v, lo as int, hi as int),
        r.1 == wrap_hi(v, lo as int, hi as int),
{
    let lo32 = lo as i32;
    let hi32 = hi as i32;
    let mut a = v - 1;
    let mut c = v + 1;
    if a < lo32 {
        a = hi32;
    } else if c > hi32 {
        c = lo32;
    }
    (a, c)
}

impl BoardNeighborManager<GridPoint3D<i32>> for NeighborMooreDonut<Size3D> {
    open spec fn neighbors_defined(&self, idx: GridPoint3D<i32>) -> bool {
        &&& axis_ok(self.spec_grid_size().spec_width())
        &&& axis_ok(self.spec_grid_size().spec_height())
        &&& axis_ok(self.spec_grid_size().spec_depth())
        &&& shift_ok(idx.x, 1) && shift_ok(idx.y, 1) && shift_ok(idx.z, 1)
    }

    /// The 26 surrounding cells with wrapping, in the order of `NeighborMoore`.
    open spec fn spec_neighbors(&self, idx: GridPoint3D<i32>) -> Seq<GridPoint3D<i32>> {
        let (w, h, d) = (
            self.spec_grid_size().spec_width(),
            self.spec_grid_size().spec_height(),
            self.spec_grid_size().spec_depth(),
        );
        let x0 = wrap_lo(idx.x, spec_dim_idx_min(w), spec_dim_idx_max(w));
        let x2 = wrap_hi(idx.x, spec_dim_idx_min(w), spec_dim_idx_max(w));
        let y0 = wrap_lo(idx.y, spec_dim_idx_min(h), spec_dim_idx_max(h));
        let y2 = wrap_hi(idx.y, spec_dim_idx_min(h), spec_dim_idx_max(h));
        let z0 = wrap_lo(idx.z, spec_dim_idx_min(d), spec_dim_idx_max(d));
        let z2 = wrap_hi(idx.z, spec_dim_idx_min(d), spec_dim_idx_max(d));
        let (x1, y1, z1) = (idx.x, idx.y, idx.z);
        seq![
            p3(x0, y0, z0), p3(x0, y1, z0), p3(x0, y2, z0),
            p3(x1, y0, z0), p3(x1, y1, z0), p3(x1, y2, z0),
            p3(x2, y0, z0), p3(x2, y1, z0), p3(x2, y2, z0),
            p3(x0, y0, z1), p3(x0, y1, z1), p3(x0, y2, z1),
            p3(x1, y0, z1), p3(x1, y2, z1),
            p3(x2, y0, z1), p3(x2, y1, z1), p3(x2, y2, z1),
            p3(x0, y0, z2), p3(x0, y1, z2), p3(x0, y2, z2),
            p3(x1, y0, z2), p3(x1, y1, z2), p3(x1, y2, z2),
            p3(x2, y0, z2), p3(x2, y1, z2), p3(x2, y2, z2),
        ]
    }

    fn get_neighbors_idx(&self, idx: &GridPoint3D<i32>) -> (r: Vec<GridPoint3D<i32>>) {
        let (x0, x2) = axis_neighbors(idx.x, self.grid_size.x_idx_min(), self.grid_size.x_idx_max());
        let (y0, y2) = axis_neighbors(idx.y, self.grid_size.y_idx_min(), self.grid_size.y_idx_max());
        let (z0, z2) = axis_neighbors(idx.z, self.grid_size.z_idx_min(), self.grid_size.z_idx_max());
        let (x1, y1, z1) = (idx.x, idx.y, idx.z);
        let r = vec![
            GridPoint3D::new(x0, y0, z0),
            GridPoint3D::new(x0, y1, z0),
            GridPoint3D::new(x0, y2, z0),
            GridPoint3D::new(x1, y0, z0),
            GridPoint3D::new(x1, y1, z0),
            GridPoint3D::new(x1, y2, z0),
            GridPoint3D::new(x2, y0, z0),
            GridPoint3D::new(x2, y1, z0),
            GridPoint3D::new(x2, y2, z0),
            GridPoint3D::new(x0, y0, z1),
            GridPoint3D::new(x0, y1, z1),
            GridPoint3D::new(x0, y2, z1),
            GridPoint3D::new(x1, y0, z1),
            GridPoint3D::new(x1, y2, z1),
            GridPoint3D::new(x2, y0, z1),
            GridPoint3D::new(x2, y1, z1),
            GridPoint3D::new(x2, y2, z1),
            GridPoint3D::new(x0, y0, z2),
            GridPoint3D::new(x0, y1, z2),
            GridPoint3D::new(x0, y2, z2),
            GridPoint3D::new(x1, y0, z2),
            GridPoint3D::new(x1, y1, z2),
            GridPoint3D::new(x1, y2, z2),
            GridPoint3D::new(x2, y0, z2),
            GridPoint3D::new(x2, y1, z2),
            GridPoint3D::new(x2, y2, z2),
        ];
        assert(views(r@) =~= <Self as BoardNeighborManager<GridPoint3D<i32>>>::spec_neighbors(self, *idx));
        r
    }
}

impl BoardNeighborManager<GridPoint2D<i32>> for NeighborMooreDonut<Size2D> {
    open spec fn neighbors_defined(&self, idx: GridPoint2D<i32>) -> bool {
        &&& axis_ok(self.spec_grid_size().spec_width())
        &&& axis_ok(self.spec_grid_size().spec_height())
        &&& shift_ok(idx.x, 1) && shift_ok(idx.y, 1)
    }

    /// The 8 surrounding cells with wrapping, in the order of `NeighborMoore`.
    open spec fn spec_neighbors(&self, idx: GridPoint2D<i32>) -> Seq<GridPoint2D<i32>> {
        let (w, h) = (self.spec_grid_size().spec_width(), self.spec_grid_size().spec_height());
        let x0 = wrap_lo(idx.x, spec_dim_idx_min(w), spec_dim_idx_max(w));
        let x2 = wrap_hi(idx.x, spec_dim_idx_min(w), spec_dim_idx_max(w));
        let y0 = wrap_lo(idx.y, spec_dim_idx_min(h), spec_dim_idx_max(h));
        let y2 = wrap_hi(idx.y, spec_dim_idx_min(h), spec_dim_idx_max(h));
        let (x1, y1) = (idx.x, idx.y);
        seq![
            p2(x0, y0), p2(x0, y1), p2(x0, y2),
            p2(x1, y0), p2(x1, y2),
            p2(x2, y0), p2(x2, y1), p2(x2, y2),
        ]
    }

    fn get_neighbors_idx(&self, idx: &GridPoint2D<i32>) -> (r: Vec<GridPoint2D<i32>>) {
        let (x0, x2) = axis_neighbors(idx.x, self.grid_size.x_idx_min(), self.grid_size.x_idx_max());
        let (y0, y2) = axis_neighbors(idx.y, self.grid_size.y_idx_min(), self.grid_size.y_idx_max());
        let (x1, y1) = (idx.x, idx.y);
        let r = vec![
            GridPoint2D::new(x0, y0),
            GridPoint2D::new(x0, y1),
            GridPoint2D::new(x0, y2),
            GridPoint2D::new(x1, y0),
            GridPoint2D::new(x1, y2),
            GridPoint2D::new(x2, y0),
            GridPoint2D::new(x2, y1),
            GridPoint2D::new(x2, y2),
        ];
        assert(views(r@) =~= <Self as BoardNeighborManager<GridPoint2D<i32>>>::spec_neighbors(self, *idx));
        r
    }
}

impl BoardNeighborManager<GridPoint1D<i32>> for NeighborMooreDonut<Size1D> {
    open spec fn neighbors_defined(&self, idx: GridPoint1D<i32>) -> bool {
        axis_ok(self.spec_grid_size().spec_width()) && shift_ok(idx.x, 1)
    }

    /// The left and the right cell with wrapping.
    open spec fn spec_neighbors(&self, idx: GridPoint1D<i32>) -> Seq<GridPoint1D<i32>> {
        let w = self.spec_grid_size().spec_width();
        seq![
            GridPoint1D { x: wrap_lo(idx.x, spec_dim_idx_min(w), spec_dim_idx_max(w)) },
            GridPoint1D { x: wrap_hi(idx.x, spec_dim_idx_min(w), spec_dim_idx_max(w)) },
        ]
    }

    fn get_neighbors_idx(&self, idx: &GridPoint1D<i32>) -> (r: Vec<GridPoint1D<i32>>) {
        let (left, right) = axis_neighbors(idx.x, self.grid_size.x_idx_min(), self.grid_size.x_idx_max());
        let r = vec![GridPoint1D::new(left), GridPoint1D::new(right)];
        assert(views(r@) =~= <Self as BoardNeighborManager<GridPoint1D<i32>>>::spec_neighbors(self, *idx));
        r
    }
}

/// Whether `v` is one of the indices `lo..=hi` of an axis of `len` cells.
pub open spec fn on_axis(v: i32, len: usize) -> bool {
    spec_dim_idx_min(len) <= v <= spec_dim_idx_max(len)
}

/// Whether `p` is a cell of a grid of size `size`.
pub open spec fn on_board_2d(size: Size2D, p: GridPoint2D<i32>) -> bool {
    on_axis(p.x, size.spec_width()) && on_axis(p.y, size.spec_height())
}

proof fn lemma_axis_wrap(v: i32, len: usize)
    requires
        axis_ok(len),
        on_axis(v, len),
        shift_ok(v, 1),
    ensures
        on_axis(wrap_lo(v, spec_dim_idx_min(len), spec_dim_idx_max(len)), len),
        on_axis(wrap_hi(v, spec_dim_idx_min(len), spec_dim_idx_max(len)), len),
        wrap_lo(v, spec_dim_idx_min(len), spec_dim_idx_max(len)) != v,
        wrap_hi(v, spec_dim_idx_min(len), spec_dim_idx_max(len)) != v,
        wrap_lo(v, spec_dim_idx_min(len), spec_dim_idx_max(len)) != wrap_hi(
            v,
            spec_dim_idx_min(len),
            spec_dim_idx_max(len),
        ),
{
    if len <= i64::MAX {
        crate::grid_util::lemma_axis_covers_len(len);
    } else {
        let l = len;
        assert((l as i64) < 0) by (bit_vector)
            requires
                l > (i64::MAX as usize),
        ;
    }
}

/// On a torus whose sides have at least three cells, the neighbours of a
/// cell of the board are eight distinct cells of the board, none of them the
/// cell itself.
pub proof fn lemma_moore_donut_2d_on_board(n: NeighborMooreDonut<Size2D>, idx: GridPoint2D<i32>)
    requires
        <NeighborMooreDonut<Size2D> as BoardNeighborManager<GridPoint2D<i32>>>::neighbors_defined(
            &n,
            idx,
        ),
        on_board_2d(n.spec_grid_size(), idx),
    ensures
        ({
            let nb = <NeighborMooreDonut<Size2D> as BoardNeighborManager<
                GridPoint2D<i32>,
            >>::spec_neighbors(&n, idx);
            &&& nb.len() == 8
            &&& nb.no_duplicates()
            &&& forall|i: int|
                0 <= i < nb.len() ==> on_board_2d(n.spec_grid_size(), #[trigger] nb[i]) && nb[i]
                    != idx
        }),
{
    lemma_axis_wrap(idx.x, n.spec_grid_size().spec_width());
    lemma_axis_wrap(idx.y, n.spec_grid_size().spec_height());
}

/// Whether `p` is a cell of a grid of size `size`.
pub open spec fn on_board_3d(size: Size3D, p: GridPoint3D<i32>) -> bool {
    &&& on_axis(p.x, size.spec_width())
    &&& on_axis(p.y, size.spec_height())
    &&& on_axis(p.z, size.spec_depth())
}

/// On a torus whose sides have at least three cells, the neighbours of a
/// cell of the board are twenty-six distinct cells of the board, none of
/// them the cell itself.
pub proof fn lemma_moore_donut_3d_on_board(n: NeighborMooreDonut<Size3D>, idx: GridPoint3D<i32>)
    requires
        <NeighborMooreDonut<Size3D> as BoardNeighborManager<GridPoint3D<i32>>>::neighbors_defined(
            &n,
            idx,
        ),
        on_board_3d(n.spec_grid_size(), idx),
    ensures
        ({
            let nb = <NeighborMooreDonut<Size3D> as BoardNeighborManager<
                GridPoint3D<i32>,
            >>::spec_neighbors(&n, idx);
            &&& nb.len() == 26
            &&& nb.no_duplicates()
            &&& forall|i: int|
                0 <= i < nb.len() ==> on_board_3d(n.spec_grid_size(), #[trigger] nb[i]) && nb[i]
                    != idx
        }),
{
    lemma_axis_wrap(idx.x, n.spec_grid_size().spec_width());
    lemma_axis_wrap(idx.y, n.spec_grid_size().spec_height());
    lemma_axis_wrap(idx.z, n.spec_grid_size().spec_depth());
}

/// On a ring of at least three cells, the two neighbours of a cell of the
/// ring are two distinct cells of the ring, neither of them the cell itself.
pub proof fn lemma_moore_donut_1d_on_board(n: NeighborMooreDonut<Size1D>, idx: GridPoint1D<i32>)
    requires
        <NeighborMooreDonut<Size1D> as BoardNeighborManager<GridPoint1D<i32>>>::neighbors_defined(
            &n,
            idx,
        ),
        on_axis(idx.x, n.spec_grid_size().spec_width()),
    ensures
        ({
            let nb = <NeighborMooreDonut<Size1D> as BoardNeighborManager<
                GridPoint1D<i32>,
            >>::spec_neighbors(&n, idx);
            &&& nb.len() == 2
            &&& nb[0] != nb[1]
            &&& forall|i: int|
                0 <= i < nb.len() ==> on_axis((#[trigger] nb[i]).x, n.spec_grid_size().spec_width())
                    && nb[i] != idx
        }),
{
    lemma_axis_wrap(idx.x, n.spec_grid_size().spec_width());
}

/// Along a ring of at least three cells, the wrapped neighbours of a cell
/// and the cell itself are exactly the cells of the ring that lie within one
/// of it around the ring.
proof fn lemma_wrap_is_ring_step(v: i32, len: usize, u: i32)
    requires
        axis_ok(len),
        on_axis(v, len),
        shift_ok(v, 1),
    ensures
        (u == wrap_lo(v, spec_dim_idx_min(len), spec_dim_idx_max(len)) || u == v || u == wrap_hi(
            v,
            spec_dim_idx_min(len),
            spec_dim_idx_max(len),
        )) <==> (on_axis(u, len) && within_on_ring(u as int, v as int, 1, 1, len)),
{
    let (lo, hi) = (spec_dim_idx_min(len), spec_dim_idx_max(len));
    lemma_axis_wrap(v, len);
    if len <= i64::MAX {
        crate::grid_util::lemma_axis_covers_len(len);
    } else {
        let l = len;
        assert((l as i64) < 0) by (bit_vector)
            requires
                l > (i64::MAX as usize),
        ;
    }
    let l = len as int;
    assert(hi - lo + 1 == l);
    let a = wrap_lo(v, lo, hi);
    let c = wrap_hi(v, lo, hi);
    if u == a || u == v || u == c {
        let d: int = if u == v {
            0
        } else if u == a {
            -1
        } else {
            1
        };
        let x = u - v - d;
        assert(x == 0 || x == l || x == -l);
        lemma_ring_offsets(x, l);
        assert(same_on_ring(u as int, v as int, d, len));
    }
    if on_axis(u, len) && within_on_ring(u as int, v as int, 1, 1, len) {
        let d = choose|d: int| -1 <= d <= 1 && #[trigger] same_on_ring(u as int, v as int, d, len);
        let x = u - v - d;
        lemma_ring_offsets(x, l);
    }
}

/// On a ring of at least three cells, the neighbours of a cell of the ring
/// are exactly the other cells of the ring within one of it around the ring.
pub proof fn lemma_moore_donut_1d_wraps(n: NeighborMooreDonut<Size1D>, p: GridPoint1D<i32>)
    requires
        <NeighborMooreDonut<Size1D> as BoardNeighborManager<GridPoint1D<i32>>>::neighbors_defined(
            &n,
            p,
        ),
        on_axis(p.x, n.spec_grid_size().spec_width()),
    ensures
        forall|q: GridPoint1D<i32>|
            #![trigger <NeighborMooreDonut<Size1D> as BoardNeighborManager<GridPoint1D<i32>>>::spec_neighbors(&n, p).contains(q)]
            <NeighborMooreDonut<Size1D> as BoardNeighborManager<GridPoint1D<i32>>>::spec_neighbors(
                &n,
                p,
            ).contains(q) <==> (q != p && on_axis(q.x, n.spec_grid_size().spec_width())
                && within_on_ring(q.x as int, p.x as int, 1, 1, n.spec_grid_size().spec_width())),
{
    let nb = <NeighborMooreDonut<Size1D> as BoardNeighborManager<GridPoint1D<i32>>>::spec_neighbors(
        &n,
        p,
    );
    let w = n.spec_grid_size().spec_width();
    lemma_axis_wrap(p.x, w);
    assert forall|q: GridPoint1D<i32>| nb.contains(q) <==> (q != p && on_axis(q.x, w) && within_on_ring(
        q.x as int,
        p.x as int,
        1,
        1,
        w,
    )) by {
        lemma_wrap_is_ring_step(p.x, w, q.x);
        if q != p && on_axis(q.x, w) && within_on_ring(q.x as int, p.x as int, 1, 1, w) {
            if q.x == nb[0].x {
                assert(nb[0] == q);
            } else {
                assert(nb[1] == q);
            }
        }
    }
}

/// On a torus whose sides have at least three cells, the neighbours of a
/// cell of the board are exactly the other cells of the board that lie,
/// around each side's ring, within one of it on both axes.
pub proof fn lemma_moore_donut_2d_wraps(n: NeighborMooreDonut<Size2D>, p: GridPoint2D<i32>)
    requires
        <NeighborMooreDonut<Size2D> as BoardNeighborManager<GridPoint2D<i32>>>::neighbors_defined(
            &n,
            p,
        ),
        on_board_2d(n.spec_grid_size(), p),
    ensures
        forall|q: GridPoint2D<i32>|
            #![trigger <NeighborMooreDonut<Size2D> as BoardNeighborManager<GridPoint2D<i32>>>::spec_neighbors(&n, p).contains(q)]
            <NeighborMooreDonut<Size2D> as BoardNeighborManager<GridPoint2D<i32>>>::spec_neighbors(
                &n,
                p,
            ).contains(q) <==> (q != p && on_board_2d(n.spec_grid_size(), q) && within_on_ring(
                q.x as int,
                p.x as int,
                1,
                1,
                n.spec_grid_size().spec_width(),
            ) && within_on_ring(q.y as int, p.y as int, 1, 1, n.spec_grid_size().spec_height())),
{
    let nb = <NeighborMooreDonut<Size2D> as BoardNeighborManager<GridPoint2D<i32>>>::spec_neighbors(
        &n,
        p,
    );
    let (w, h) = (n.spec_grid_size().spec_width(), n.spec_grid_size().spec_height());
    let x0 = wrap_lo(p.x, spec_dim_idx_min(w), spec_dim_idx_max(w));
    let y0 = wrap_lo(p.y, spec_dim_idx_min(h), spec_dim_idx_max(h));
    lemma_axis_wrap(p.x, w);
    lemma_axis_wrap(p.y, h);
    lemma_moore_donut_2d_on_board(n, p);
    assert forall|q: GridPoint2D<i32>| nb.contains(q) <==> (q != p && on_board_2d(n.spec_grid_size(), q)
        && within_on_ring(q.x as int, p.x as int, 1, 1, w) && within_on_ring(
        q.y as int,
        p.y as int,
        1,
        1,
        h,
    )) by {
        lemma_wrap_is_ring_step(p.x, w, q.x);
        lemma_wrap_is_ring_step(p.y, h, q.y);
        if nb.contains(q) {
            let i = choose|i: int| 0 <= i < nb.len() && nb[i] == q;
            assert(nb[i] != p);
        }
        if q != p && on_board_2d(n.spec_grid_size(), q) && within_on_ring(q.x as int, p.x as int, 1, 1, w)
            && within_on_ring(q.y as int, p.y as int, 1, 1, h) {
            let dx: int = if q.x == x0 { 0 } else if q.x == p.x { 1 } else { 2 };
            let dy: int = if q.y == y0 { 0 } else if q.y == p.y { 1 } else { 2 };
            let flat = dx * 3 + dy;
            let i = if flat < 4 { flat } else { flat - 1 };
            assert(flat != 4);
            assert(nb[i] == q);
        }
    }
}

/// On a torus whose sides have at least three cells, the neighbours of a
/// cell of the board are exactly the other cells of the board that lie,
/// around each side's ring, within one of it on all three axes.
pub proof fn lemma_moore_donut_3d_wraps(n: NeighborMooreDonut<Size3D>, p: GridPoint3D<i32>)
    requires
        <NeighborMooreDonut<Size3D> as BoardNeighborManager<GridPoint3D<i32>>>::neighbors_defined(
            &n,
            p,
        ),
        on_board_3d(n.spec_grid_size(), p),
    ensures
        forall|q: GridPoint3D<i32>|
            #![trigger <NeighborMooreDonut<Size3D> as BoardNeighborManager<GridPoint3D<i32>>>::spec_neighbors(&n, p).contains(q)]
            <NeighborMooreDonut<Size3D> as BoardNeighborManager<GridPoint3D<i32>>>::spec_neighbors(
                &n,
                p,
            ).contains(q) <==> (q != p && on_board_3d(n.spec_grid_size(), q) && within_on_ring(
                q.x as int,
                p.x as int,
                1,
                1,
                n.spec_grid_size().spec_width(),
            ) && within_on_ring(q.y as int, p.y as int, 1, 1, n.spec_grid_size().spec_height())
                && within_on_ring(q.z as int, p.z as int, 1, 1, n.spec_grid_size().spec_depth())),
{
    let nb = <NeighborMooreDonut<Size3D> as BoardNeighborManager<GridPoint3D<i32>>>::spec_neighbors(
        &n,
        p,
    );
    let (w, h, d) = (
        n.spec_grid_size().spec_width(),
        n.spec_grid_size().spec_height(),
        n.spec_grid_size().spec_depth(),
    );
    let x0 = wrap_lo(p.x, spec_dim_idx_min(w), spec_dim_idx_max(w));
    let y0 = wrap_lo(p.y, spec_dim_idx_min(h), spec_dim_idx_max(h));
    let z0 = wrap_lo(p.z, spec_dim_idx_min(d), spec_dim_idx_max(d));
    lemma_axis_wrap(p.x, w);
    lemma_axis_wrap(p.y, h);
    lemma_axis_wrap(p.z, d);
    lemma_moore_donut_3d_on_board(n, p);
    assert forall|q: GridPoint3D<i32>| nb.contains(q) <==> (q != p && on_board_3d(n.spec_grid_size(), q)
        && within_on_ring(q.x as int, p.x as int, 1, 1, w) && within_on_ring(
        q.y as int,
        p.y as int,
        1,
        1,
        h,
    ) && within_on_ring(q.z as int, p.z as int, 1, 1, d)) by {
        lemma_wrap_is_ring_step(p.x, w, q.x);
        lemma_wrap_is_ring_step(p.y, h, q.y);
        lemma_wrap_is_ring_step(p.z, d, q.z);
        if nb.contains(q) {
            let i = choose|i: int| 0 <= i < nb.len() && nb[i] == q;
            assert(nb[i] != p);
        }
        if q != p && on_board_3d(n.spec_grid_size(), q) && within_on_ring(q.x as int, p.x as int, 1, 1, w)
            && within_on_ring(q.y as int, p.y as int, 1, 1, h) && within_on_ring(
            q.z as int,
            p.z as int,
            1,
            1,
            d,
        ) {
            let dx: int = if q.x == x0 { 0 } else if q.x == p.x { 1 } else { 2 };
            let dy: int = if q.y == y0 { 0 } else if q.y == p.y { 1 } else { 2 };
            let dz: int = if q.z == z0 { 0 } else if q.z == p.z { 1 } else { 2 };
            let flat = dz * 9 + dx * 3 + dy;
            let i = if flat < 13 { flat } else { flat - 1 };
            assert(flat != 13);
            assert(nb[i] == q);
        }
    }
}

/// Along an axis of at least three cells, the range of margin one around a
/// cell of the axis holds the cell and its two wrapped neighbours, and
/// nothing else.
proof fn lemma_donut_axis_one(v: i32, len: usize, u: i32)
    requires
        axis_ok(len),
        len <= i32::MAX,
        on_axis(v, len),
        shift_ok(v, 1),
    ensures
        donut_axis(v, 1, 1, len).contains(u) <==> (u == wrap_lo(v, spec_dim_idx_min(len), spec_dim_idx_max(len))
            || u == v || u == wrap_hi(v, spec_dim_idx_min(len), spec_dim_idx_max(len))),
{
    crate::grid_util::lemma_axis_covers_len(len);
    let (lo, hi) = (spec_dim_idx_min(len), spec_dim_idx_max(len));
    assert(board_min(len) == lo);
    assert(board_max(len) == hi);
    let ax = donut_axis(v, 1, 1, len);
    let a = wrap_lo(v, lo, hi);
    let c = wrap_hi(v, lo, hi);
    if v == lo {
        assert(ax =~= seq![v, c, a]);
    } else if v == hi {
        assert(ax =~= seq![a, v, c]);
    } else {
        assert(ax =~= seq![a, v, c]);
    }
    if u == a || u == v || u == c {
        assert(ax.contains(u)) by {
            if v == lo {
                if u == a { assert(ax[2] == u); } else if u == v { assert(ax[0] == u); } else { assert(ax[1] == u); }
            } else {
                if u == a { assert(ax[0] == u); } else if u == v { assert(ax[1] == u); } else { assert(ax[2] == u); }
            }
        }
    }
}

/// On a torus whose sides have at least three cells, the Moore neighbours
/// of a cell of the board are the neighbours that `NeighborsGridDonut` finds
/// with a margin of one on both sides of both axes, on a board of the same
/// shape: the same eight cells, in another order.
pub proof fn lemma_moore_donut_is_grid_donut_one(
    n: NeighborMooreDonut<Size2D>,
    g: NeighborsGridDonut,
    p: GridPoint2D<i32>,
)
    requires
        <NeighborMooreDonut<Size2D> as BoardNeighborManager<GridPoint2D<i32>>>::neighbors_defined(
            &n,
            p,
        ),
        on_board_2d(n.spec_grid_size(), p),
        <NeighborsGridDonut as BoardNeighborManager<GridPoint2D<i32>>>::neighbors_defined(&g, p),
        g.margin_at(0) == (1usize, 1usize),
        g.margin_at(1) == (1usize, 1usize),
        g.spec_board_shape()[0] == n.spec_grid_size().spec_width(),
        g.spec_board_shape()[1] == n.spec_grid_size().spec_height(),
    ensures
        <NeighborMooreDonut<Size2D> as BoardNeighborManager<GridPoint2D<i32>>>::spec_neighbors(
            &n,
            p,
        ).to_set() == <NeighborsGridDonut as BoardNeighborManager<GridPoint2D<i32>>>::spec_neighbors(
            &g,
            p,
        ).to_set(),
{
    let md = <NeighborMooreDonut<Size2D> as BoardNeighborManager<GridPoint2D<i32>>>::spec_neighbors(
        &n,
        p,
    );
    let gd = <NeighborsGridDonut as BoardNeighborManager<GridPoint2D<i32>>>::spec_neighbors(&g, p);
    let c = seq![p.x, p.y];
    let (w, h) = (n.spec_grid_size().spec_width(), n.spec_grid_size().spec_height());
    let x0 = wrap_lo(p.x, spec_dim_idx_min(w), spec_dim_idx_max(w));
    let x2 = wrap_hi(p.x, spec_dim_idx_min(w), spec_dim_idx_max(w));
    let y0 = wrap_lo(p.y, spec_dim_idx_min(h), spec_dim_idx_max(h));
    let y2 = wrap_hi(p.y, spec_dim_idx_min(h), spec_dim_idx_max(h));
    let _ = g.margin_at(0);
    let _ = g.margin_at(1);
    assert(w <= i32::MAX && h <= i32::MAX);
    lemma_moore_donut_2d_on_board(n, p);
    assert(g.axes(c)[0] == donut_axis(p.x, 1, 1, w));
    assert(g.axes(c)[1] == donut_axis(p.y, 1, 1, h));
    assert forall|q: GridPoint2D<i32>| md.contains(q) <==> gd.contains(q) by {
        let s = seq![q.x, q.y];
        lemma_donut_axis_one(p.x, w, q.x);
        lemma_donut_axis_one(p.y, h, q.y);
        lemma_donut_members(g, c, s);
        let wanted = q != p && (q.x == x0 || q.x == p.x || q.x == x2) && (q.y == y0 || q.y == p.y
            || q.y == y2);
        assert(md.contains(q) <==> wanted) by {
            if md.contains(q) {
                let i = choose|i: int| 0 <= i < md.len() && md[i] == q;
                assert(md[i] != p);
            }
            if wanted {
                let i = if q.x == x0 {
                    if q.y == y0 { 0int } else if q.y == p.y { 1 } else { 2 }
                } else if q.x == p.x {
                    if q.y == y0 { 3int } else { 4 }
                } else {
                    if q.y == y0 { 5int } else if q.y == p.y { 6 } else { 7 }
                };
                assert(md[i] == q);
            }
        }
        assert(gd.contains(q) <==> g.donut(c).contains(s)) by {
            let d = g.donut(c);
            if gd.contains(q) {
                let i = choose|i: int| 0 <= i < gd.len() && gd[i] == q;
                lemma_donut_members(g, c, d[i]);
                assert(d.contains(d[i]));
                assert(d[i] =~= s);
            }
            if d.contains(s) {
                let i = choose|i: int| 0 <= i < d.len() && d[i] == s;
                assert(gd[i] == q);
            }
        }
        assert(s != c <==> q != p) by {
            if q == p {
                assert(s =~= c);
            }
            if s == c {
                assert(s[0] == c[0] && s[1] == c[1]);
            }
        }
        let ax = g.axes(c);
        assert((forall|k: int| 0 <= k < c.len() ==> ax[k].contains(#[trigger] s[k])) <==> (
        ax[0].contains(s[0]) && ax[1].contains(s[1]))) by {
            if ax[0].contains(s[0]) && ax[1].contains(s[1]) {
                assert forall|k: int| 0 <= k < c.len() implies ax[k].contains(#[trigger] s[k]) by {
                    if k == 0 {
                    } else {
                        assert(k == 1);
                    }
                }
            }
        }
    }
    assert(md.to_set() =~= gd.to_set());
}


} // verus!
