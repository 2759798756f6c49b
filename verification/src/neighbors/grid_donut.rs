//! Every cell within a margin on each side of each axis, on a finite grid
//! whose opposite edges are joined: the part of the margin that falls off
//! one edge continues from the opposite edge.

use super::{views, BoardNeighborManager};
use crate::index::{GridPoint1D, GridPoint2D, GridPoint3D, GridPointND, ToGridPointND};
use crate::neighbors::grid_surround::{to_points_1d, to_points_2d, to_points_3d};
use itertools::Itertools;
use vstd::prelude::*;

verus! {

/// Every way to pick one coordinate from each of `dims`, in order, the last
/// list varying fastest.
pub open spec fn seq_product(dims: Seq<Seq<i32>>) -> Seq<Seq<i32>>
    decreases dims.len(),
{
    if dims.len() == 0 {
        seq![seq![]]
    } else {
        prepend_all(dims[0], seq_product(dims.drop_first()))
    }
}

/// Each of `heads` in front of each of `tails`, `heads` varying slowest.
pub open spec fn prepend_all(heads: Seq<i32>, tails: Seq<Seq<i32>>) -> Seq<Seq<i32>>
    decreases heads.len(),
{
    if heads.len() == 0 {
        seq![]
    } else {
        tails.map_values(|t: Seq<i32>| seq![heads[0]] + t) + prepend_all(heads.drop_first(), tails)
    }
}

/// What `multi_cartesian_product` yields for `dims`: no list at all for
/// no input lists, else every pick of one coordinate per list.
pub open spec fn cartesian(dims: Seq<Seq<i32>>) -> Seq<Seq<i32>> {
    if dims.len() == 0 {
        seq![]
    } else {
        seq_product(dims)
    }
}

proof fn lemma_prepend_all_len(heads: Seq<i32>, tails: Seq<Seq<i32>>, m: int)
    requires
        forall|j: int| 0 <= j < tails.len() ==> (#[trigger] tails[j]).len() == m,
    ensures
        forall|j: int| 0 <= j < prepend_all(heads, tails).len() ==> (#[trigger] prepend_all(heads, tails)[j]).len() == m + 1,
    decreases heads.len(),
{
    if heads.len() > 0 {
        lemma_prepend_all_len(heads.drop_first(), tails, m);
        let first = tails.map_values(|t: Seq<i32>| seq![heads[0]] + t);
        let rest = prepend_all(heads.drop_first(), tails);
        assert forall|j: int| 0 <= j < (first + rest).len() implies (#[trigger] (first + rest)[j]).len() == m + 1 by {
            if j < first.len() {
                assert(first[j] == seq![heads[0]] + tails[j]);
            } else {
                assert((first + rest)[j] == rest[j - first.len()]);
            }
        }
    }
}

proof fn lemma_product_len(dims: Seq<Seq<i32>>)
    ensures
        forall|j: int| 0 <= j < seq_product(dims).len() ==> (#[trigger] seq_product(dims)[j]).len() == dims.len(),
    decreases dims.len(),
{
    if dims.len() > 0 {
        lemma_product_len(dims.drop_first());
        lemma_prepend_all_len(dims[0], seq_product(dims.drop_first()), dims.len() - 1);
    }
}

/// The lists of `dims`, each taken by its view.
pub open spec fn vec_views(dims: Seq<Vec<i32>>) -> Seq<Seq<i32>> {
    dims.map_values(|v: Vec<i32>| v@)
}

/// Calls `Itertools::multi_cartesian_product` on the lists of `dims` and
/// collects what it yields. Its source (itertools 0.10.5) yields nothing for
/// no lists and otherwise every pick of one item per list, advancing the
/// last list first.
#[verifier::external_body]
fn multi_cartesian_product(dims: Vec<Vec<i32>>) -> (r: Vec<Vec<i32>>)
    ensures
        vec_views(r@) == cartesian(vec_views(dims@)),
{
    dims.into_iter().multi_cartesian_product().collect()
}

/// `a..=b` as a list of `i32`.
pub open spec fn range_incl(a: int, b: int) -> Seq<i32> {
    Seq::new(if b >= a { (b - a + 1) as nat } else { 0 }, |j: int| (a + j) as i32)
}

/// The smallest index of an axis of `len` cells.
pub open spec fn board_min(len: usize) -> int {
    -((len / 2) as int)
}

/// The largest index of an axis of `len` cells.
pub open spec fn board_max(len: usize) -> int {
    (len / 2) as int - if len % 2 == 1 {
        0int
    } else {
        1int
    }
}

/// The coordinates along one axis that are within `neg` below and `pos`
/// above `v` on an axis of `len` cells, the part that falls off one edge
/// continuing from the other: the in-board range, then the wrapped range.
pub open spec fn donut_axis(v: i32, neg: usize, pos: usize, len: usize) -> Seq<i32> {
    let (bmin, bmax) = (board_min(len), board_max(len));
    let (umin, umax) = (v - neg, v + pos);
    let dmin = if bmin > umin { bmin } else { umin };
    let dmax = if bmax < umax { bmax } else { umax };
    let wrapped = if umin < bmin {
        range_incl(bmax + (umin - bmin) + 1, bmax)
    } else if umax > bmax {
        range_incl(bmin, bmin + (umax - bmax) - 1)
    } else {
        seq![]
    };
    range_incl(dmin, dmax) + wrapped
}

/// `pts` without the items equal to `center`.
pub open spec fn all_except(pts: Seq<Seq<i32>>, center: Seq<i32>) -> Seq<Seq<i32>>
    decreases pts.len(),
{
    if pts.len() == 0 {
        seq![]
    } else {
        let rest = all_except(pts.drop_last(), center);
        if pts.last() != center {
            rest.push(pts.last())
        } else {
            rest
        }
    }
}

/// Neighbours within a margin on every side of a grid of shape
/// `board_shape` whose opposite edges are joined.
pub struct NeighborsGridDonut {
    board_shape: Vec<usize>,
    should_repeat_margin: bool,
    margins: Vec<(usize, usize)>,
}

impl NeighborsGridDonut {
    pub closed spec fn spec_board_shape(&self) -> Seq<usize> {
        self.board_shape@
    }

    pub closed spec fn spec_repeat_margin(&self) -> bool {
        self.should_repeat_margin
    }

    pub closed spec fn spec_margins(&self) -> Seq<(usize, usize)> {
        self.margins@
    }

    /// The margins on axis `k`.
    pub open spec fn margin_at(&self, k: int) -> (usize, usize) {
        if self.spec_repeat_margin() {
            self.spec_margins()[0]
        } else {
            self.spec_margins()[k]
        }
    }

    /// The coordinates along each axis around `p`.
    pub open spec fn axes(&self, p: Seq<i32>) -> Seq<Seq<i32>> {
        Seq::new(
            p.len(),
            |k: int| donut_axis(p[k], self.margin_at(k).0, self.margin_at(k).1, self.spec_board_shape()[k]),
        )
    }

    /// Whether the neighbours of `p` can be computed: there are margins and
    /// a board length for every axis, margins and lengths are `i32` values,
    /// every axis is longer than its two margins, and `p` moved by a margin
    /// stays an `i32`.
    pub open spec fn donut_defined(&self, p: Seq<i32>) -> bool {
        &&& self.spec_margins().len() >= 1
        &&& !self.spec_repeat_margin() ==> self.spec_margins().len() >= p.len()
        &&& self.spec_board_shape().len() >= p.len()
        &&& forall|k: int|
            0 <= k < p.len() ==> {
                let (neg, pos) = #[trigger] self.margin_at(k);
                let len = self.spec_board_shape()[k];
                &&& neg <= i32::MAX
                &&& pos <= i32::MAX
                &&& len <= i32::MAX
                &&& len >= neg + pos + 1
                &&& p[k] - neg >= i32::MIN
                &&& p[k] + pos <= i32::MAX
            }
    }

    /// Every pick of one coordinate per axis around `p`, but `p` itself.
    pub open spec fn donut(&self, p: Seq<i32>) -> Seq<Seq<i32>> {
        all_except(cartesian(self.axes(p)), p)
    }

    /// Equal margin `margin` on both sides of every axis.
    pub fn new(margin: usize, board_shape: Vec<usize>) -> (r: Self)
        ensures
            r.spec_repeat_margin(),
            r.spec_margins() == seq![(margin, margin)],
            r.spec_board_shape() == board_shape@,
    {
        Self { should_repeat_margin: true, margins: vec![(margin, margin)], board_shape }
    }

    /// Margins per axis: `margins[k]` holds the negative and the positive
    /// margin along axis `k`.
    pub fn new_with_variable_margin(margins: &[(usize, usize)], board_shape: Vec<usize>) -> (r: Self)
        requires
            margins@.len() > 0,
        ensures
            !r.spec_repeat_margin(),
            r.spec_margins() == margins@,
            r.spec_board_shape() == board_shape@,
    {
        let mut v: Vec<(usize, usize)> = Vec::new();
        let n = margins.len();
        for i in 0..n
            invariant
                n == margins@.len(),
                v@ == margins@.subrange(0, i as int),
        {
            v.push(margins[i]);
        }
        assert(v@ == margins@);
        Self { should_repeat_margin: false, margins: v, board_shape }
    }

    fn get_margin(&self, k: usize) -> (r: (usize, usize))
        requires
            self.spec_margins().len() >= 1,
            !self.spec_repeat_margin() ==> k < self.spec_margins().len(),
        ensures
            r == self.margin_at(k as int),
    {
        if self.should_repeat_margin {
            self.margins[0]
        } else {
            self.margins[k]
        }
    }

    /// Whether the neighbours of `idx` can be computed.
    pub fn neighbors_computable(&self, idx: &GridPointND<i32>) -> (r: bool)
        ensures
            r == self.donut_defined(idx@),
    {
        let p = idx.indices();
        let n = p.len();
        if self.margins.len() < 1 {
            return false;
        }
        if !self.should_repeat_margin && self.margins.len() < n {
            return false;
        }
        if self.board_shape.len() < n {
            return false;
        }
        for k in 0..n
            invariant
                n == p@.len(),
                p@ == idx@,
                self.spec_margins().len() >= 1,
                !self.spec_repeat_margin() ==> self.spec_margins().len() >= n,
                self.spec_board_shape().len() >= n,
                forall|j: int|
                    0 <= j < k ==> {
                        let (neg, pos) = #[trigger] self.margin_at(j);
                        let len = self.spec_board_shape()[j];
                        &&& neg <= i32::MAX
                        &&& pos <= i32::MAX
                        &&& len <= i32::MAX
                        &&& len >= neg + pos + 1
                        &&& idx@[j] - neg >= i32::MIN
                        &&& idx@[j] + pos <= i32::MAX
                    },
        {
            let (neg, pos) = self.get_margin(k);
            let len = self.board_shape[k];
            let v = p[k];
            proof {
                let _ = self.margin_at(k as int);
            }
            if neg > 0x7fff_ffffusize || pos > 0x7fff_ffffusize || len > 0x7fff_ffffusize {
                return false;
            }
            if len < neg + pos + 1 {
                return false;
            }
            if (v as i64) - (neg as i64) < -0x8000_0000i64 || (v as i64) + (pos as i64) > 0x7fff_ffffi64 {
                return false;
            }
        }
        true
    }

    fn push_range(v: &mut Vec<i32>, a: i32, b: i32)
        ensures
            final(v)@ == old(v)@ + range_incl(a as int, b as int),
    {
        let ghost start = old(v)@;
        let mut i: i64 = a as i64;
        let end: i64 = b as i64;
        assert(v@ =~= start + range_incl(a as int, i as int - 1));
        while i <= end
            invariant
                a <= i,
                i <= end + 1 || i == a,
                end == b,
                v@ =~= start + range_incl(a as int, i as int - 1),
            decreases end + 1 - i,
        {
            v.push(i as i32);
            assert(v@ =~= start + range_incl(a as int, i as int));
            i = i + 1;
        }
        assert(range_incl(a as int, i as int - 1) =~= range_incl(a as int, b as int));
    }

    fn calc_dim_ranges(&self, idx: &[i32]) -> (r: Vec<Vec<i32>>)
        requires
            self.donut_defined(idx@),
        ensures
            vec_views(r@) == self.axes(idx@),
    {
        let n = idx.len();
        let mut res: Vec<Vec<i32>> = Vec::new();
        for k in 0..n
            invariant
                n == idx@.len(),
                self.donut_defined(idx@),
                vec_views(res@) == self.axes(idx@).subrange(0, k as int),
        {
            let (neg, pos) = self.get_margin(k);
            let len = self.board_shape[k];
            let v = idx[k];
            proof {
                let _ = self.margin_at(k as int);
            }
            let neg = neg as i32;
            let pos = pos as i32;
            let len = len as i32;
            let bmin = -(len / 2);
            let bmax = len / 2 - if len % 2 == 1 {
                0
            } else {
                1
            };
            let umin = v - neg;
            let umax = v + pos;
            let dmin = if bmin > umin {
                bmin
            } else {
                umin
            };
            let dmax = if bmax < umax {
                bmax
            } else {
                umax
            };
            let mut axis: Vec<i32> = Vec::new();
            Self::push_range(&mut axis, dmin, dmax);
            if umin < bmin {
                let extension = umin - bmin;
                Self::push_range(&mut axis, bmax + extension + 1, bmax);
            } else if umax > bmax {
                let extension = umax - bmax;
                Self::push_range(&mut axis, bmin, bmin + extension - 1);
            }
            proof {
                assert(axis@ =~= self.axes(idx@)[k as int]);
            }
            let ghost prev = res@;
            res.push(axis);
            proof {
                assert(res@ == prev.push(axis));
                assert(vec_views(res@) =~= vec_views(prev).push(axis@));
                assert(self.axes(idx@).subrange(0, k + 1) =~= self.axes(idx@).subrange(0, k as int).push(
                    self.axes(idx@)[k as int],
                ));
            }
        }
        assert(self.axes(idx@).subrange(0, n as int) =~= self.axes(idx@));
        res
    }

    fn same_point(a: &Vec<i32>, b: &[i32]) -> (r: bool)
        ensures
            r == (a@ == b@),
    {
        if a.len() != b.len() {
            return false;
        }
        let n = a.len();
        for i in 0..n
            invariant
                n == a@.len(),
                n == b@.len(),
                forall|j: int| 0 <= j < i ==> a@[j] == b@[j],
        {
            if a[i] != b[i] {
                return false;
            }
        }
        assert(a@ == b@);
        true
    }

    fn calc_grid_point_surrounding(&self, idx: &GridPointND<i32>) -> (r: Vec<GridPointND<i32>>)
        requires
            self.donut_defined(idx@),
        ensures
            views(r@) == self.donut(idx@),
            forall|j: int| 0 <= j < r@.len() ==> (#[trigger] r@[j])@.len() == idx@.len(),
    {
        let p = idx.indices();
        let dims = self.calc_dim_ranges(p);
        let pts = multi_cartesian_product(dims);
        let ghost all = cartesian(self.axes(idx@));
        proof {
            lemma_product_len(self.axes(idx@));
            assert forall|j: int| 0 <= j < all.len() implies (#[trigger] all[j]).len() == idx@.len() by {
                if self.axes(idx@).len() > 0 {
                    assert(all[j] == seq_product(self.axes(idx@))[j]);
                }
            }
        }
        let mut res: Vec<GridPointND<i32>> = Vec::new();
        let n = pts.len();
        for i in 0..n
            invariant
                n == pts@.len(),
                p@ == idx@,
                vec_views(pts@) == all,
                forall|j: int| 0 <= j < all.len() ==> (#[trigger] all[j]).len() == idx@.len(),
                views(res@) == all_except(all.subrange(0, i as int), idx@),
                forall|j: int| 0 <= j < res@.len() ==> (#[trigger] res@[j])@.len() == idx@.len(),
        {
            proof {
                assert(all.subrange(0, i + 1).drop_last() == all.subrange(0, i as int));
                assert(pts@[i as int]@ == all[i as int]);
            }
            if !Self::same_point(&pts[i], p) {
                let g = GridPointND::new(pts[i].as_slice());
                let ghost prev = res@;
                res.push(g);
                proof {
                    assert(res@ == prev.push(g));
                    assert(views(res@) =~= views(prev).push(g@));
                }
            }
        }
        assert(all.subrange(0, n as int) == all);
        res
    }
}

proof fn lemma_prepend_all_member(heads: Seq<i32>, tails: Seq<Seq<i32>>, j: int)
    requires
        0 <= j < prepend_all(heads, tails).len(),
    ensures
        exists|h: int, t: int|
            0 <= h < heads.len() && 0 <= t < tails.len() && prepend_all(heads, tails)[j] == seq![
                heads[h],
            ] + tails[t],
    decreases heads.len(),
{
    let first = tails.map_values(|t: Seq<i32>| seq![heads[0]] + t);
    let rest = prepend_all(heads.drop_first(), tails);
    assert(prepend_all(heads, tails) == first + rest);
    if j < first.len() {
        assert(prepend_all(heads, tails)[j] == seq![heads[0]] + tails[j]);
    } else {
        lemma_prepend_all_member(heads.drop_first(), tails, j - first.len());
        let (h, t) = choose|h: int, t: int|
            0 <= h < heads.drop_first().len() && 0 <= t < tails.len() && rest[j - first.len()]
                == seq![heads.drop_first()[h]] + tails[t];
        assert(prepend_all(heads, tails)[j] == rest[j - first.len()]);
        assert(heads.drop_first()[h] == heads[h + 1]);
    }
}

proof fn lemma_product_member(dims: Seq<Seq<i32>>, j: int)
    requires
        0 <= j < seq_product(dims).len(),
    ensures
        seq_product(dims)[j].len() == dims.len(),
        forall|k: int| 0 <= k < dims.len() ==> dims[k].contains(#[trigger] seq_product(dims)[j][k]),
    decreases dims.len(),
{
    lemma_product_len(dims);
    if dims.len() > 0 {
        let tails = seq_product(dims.drop_first());
        lemma_prepend_all_member(dims[0], tails, j);
        let (h, t) = choose|h: int, t: int|
            0 <= h < dims[0].len() && 0 <= t < tails.len() && prepend_all(dims[0], tails)[j]
                == seq![dims[0][h]] + tails[t];
        lemma_product_member(dims.drop_first(), t);
        let q = seq_product(dims)[j];
        assert forall|k: int| 0 <= k < dims.len() implies dims[k].contains(#[trigger] q[k]) by {
            if k == 0 {
                assert(q[0] == dims[0][h]);
            } else {
                assert(q[k] == tails[t][k - 1]);
                assert(dims.drop_first()[k - 1] == dims[k]);
                assert(dims.drop_first()[k - 1].contains(tails[t][k - 1]));
            }
        }
    }
}

proof fn lemma_all_except_member(pts: Seq<Seq<i32>>, center: Seq<i32>, i: int)
    requires
        0 <= i < all_except(pts, center).len(),
    ensures
        all_except(pts, center)[i] != center,
        exists|j: int| 0 <= j < pts.len() && pts[j] == all_except(pts, center)[i],
    decreases pts.len(),
{
    let rest = all_except(pts.drop_last(), center);
    if i < rest.len() {
        lemma_all_except_member(pts.drop_last(), center, i);
        assert(all_except(pts, center)[i] == rest[i]);
        let j = choose|j: int| 0 <= j < pts.drop_last().len() && pts.drop_last()[j] == rest[i];
        assert(pts[j] == pts.drop_last()[j]);
    } else {
        assert(all_except(pts, center)[i] == pts.last());
        assert(pts[pts.len() - 1] == pts.last());
    }
}

/// Every pick of one of `heads` put in front of one of `tails` is among
/// `prepend_all(heads, tails)`.
proof fn lemma_prepend_all_complete(heads: Seq<i32>, tails: Seq<Seq<i32>>, h: i32, t: Seq<i32>)
    requires
        heads.contains(h),
        tails.contains(t),
    ensures
        prepend_all(heads, tails).contains(seq![h] + t),
    decreases heads.len(),
{
    let first = tails.map_values(|u: Seq<i32>| seq![heads[0]] + u);
    let rest = prepend_all(heads.drop_first(), tails);
    assert(prepend_all(heads, tails) == first + rest);
    let tj = choose|j: int| 0 <= j < tails.len() && tails[j] == t;
    if heads[0] == h {
        assert(first[tj] == seq![h] + t);
        assert((first + rest)[tj] == seq![h] + t);
    } else {
        let hj = choose|j: int| 0 <= j < heads.len() && heads[j] == h;
        assert(heads.drop_first()[hj - 1] == h);
        lemma_prepend_all_complete(heads.drop_first(), tails, h, t);
        let rj = choose|j: int| 0 <= j < rest.len() && rest[j] == seq![h] + t;
        assert((first + rest)[first.len() + rj] == seq![h] + t);
    }
}

/// Every pick of one coordinate from each of `dims` is in their product.
pub proof fn lemma_product_complete(dims: Seq<Seq<i32>>, q: Seq<i32>)
    requires
        q.len() == dims.len(),
        forall|k: int| 0 <= k < dims.len() ==> dims[k].contains(#[trigger] q[k]),
    ensures
        seq_product(dims).contains(q),
    decreases dims.len(),
{
    if dims.len() == 0 {
        assert(q =~= seq![]);
        assert(seq_product(dims)[0] == q);
    } else {
        let tail = q.drop_first();
        assert forall|k: int| 0 <= k < dims.drop_first().len() implies dims.drop_first()[k].contains(
            #[trigger] tail[k],
        ) by {
            assert(dims.drop_first()[k] == dims[k + 1]);
            assert(tail[k] == q[k + 1]);
        }
        lemma_product_complete(dims.drop_first(), tail);
        assert(dims[0].contains(q[0]));
        lemma_prepend_all_complete(dims[0], seq_product(dims.drop_first()), q[0], tail);
        assert(seq![q[0]] + tail =~= q);
    }
}

/// What `pts` holds, but `center`, `all_except(pts, center)` holds too.
pub proof fn lemma_all_except_complete(pts: Seq<Seq<i32>>, center: Seq<i32>, x: Seq<i32>)
    requires
        pts.contains(x),
        x != center,
    ensures
        all_except(pts, center).contains(x),
    decreases pts.len(),
{
    let rest = all_except(pts.drop_last(), center);
    if pts.last() == x {
        assert(all_except(pts, center) == rest.push(x));
        assert(rest.push(x)[rest.len() as int] == x);
    } else {
        let j = choose|j: int| 0 <= j < pts.len() && pts[j] == x;
        assert(pts.drop_last()[j] == x);
        lemma_all_except_complete(pts.drop_last(), center, x);
        let i = choose|i: int| 0 <= i < rest.len() && rest[i] == x;
        if pts.last() != center {
            assert(rest.push(pts.last())[i] == x);
        }
    }
}

/// The neighbours of `p` are exactly the points off `p` that pick, on each
/// axis, a coordinate of that axis's range around `p`.
pub proof fn lemma_donut_members(g: NeighborsGridDonut, p: Seq<i32>, q: Seq<i32>)
    requires
        p.len() >= 1,
    ensures
        g.donut(p).contains(q) <==> (q != p && q.len() == p.len() && forall|k: int|
            0 <= k < p.len() ==> g.axes(p)[k].contains(#[trigger] q[k])),
{
    let axes = g.axes(p);
    let all = cartesian(axes);
    assert(all == seq_product(axes));
    if g.donut(p).contains(q) {
        let i = choose|i: int| 0 <= i < g.donut(p).len() && g.donut(p)[i] == q;
        lemma_all_except_member(all, p, i);
        let j = choose|j: int| 0 <= j < all.len() && all[j] == q;
        lemma_product_member(axes, j);
    }
    if q != p && q.len() == p.len() && forall|k: int|
        0 <= k < p.len() ==> axes[k].contains(#[trigger] q[k]) {
        lemma_product_complete(axes, q);
        lemma_all_except_complete(all, p, q);
    }
}

proof fn lemma_donut_axis_no_duplicates(v: i32, neg: usize, pos: usize, len: usize)
    requires
        on_donut_axis(v as int, len),
        len >= neg + pos + 1,
        len <= i32::MAX,
        v - neg >= i32::MIN,
        v + pos <= i32::MAX,
    ensures
        donut_axis(v, neg, pos, len).no_duplicates(),
{
    let (bmin, bmax) = (board_min(len), board_max(len));
    let l = len as int;
    assert(bmax - bmin + 1 == l);
    let (umin, umax) = (v - neg, v + pos);
    let dmin = if bmin > umin { bmin } else { umin };
    let dmax = if bmax < umax { bmax } else { umax };
    let inner = range_incl(dmin, dmax);
    let ax = donut_axis(v, neg, pos, len);
    let n = inner.len() as int;
    assert forall|i: int, j: int| 0 <= i < j < ax.len() implies ax[i] != ax[j] by {
        if j < n {
            assert(ax[i] == inner[i] && ax[j] == inner[j]);
        } else if umin < bmin {
            let w = range_incl(bmax + (umin - bmin) + 1, bmax);
            assert(ax[j] == w[j - n]);
            if i < n {
                assert(ax[i] == inner[i]);
            } else {
                assert(ax[i] == w[i - n]);
            }
        } else {
            let w = range_incl(bmin, bmin + (umax - bmax) - 1);
            assert(ax[j] == w[j - n]);
            if i < n {
                assert(ax[i] == inner[i]);
            } else {
                assert(ax[i] == w[i - n]);
            }
        }
    }
}

proof fn lemma_prepend_all_no_duplicates(heads: Seq<i32>, tails: Seq<Seq<i32>>)
    requires
        heads.no_duplicates(),
        tails.no_duplicates(),
    ensures
        prepend_all(heads, tails).no_duplicates(),
    decreases heads.len(),
{
    if heads.len() > 0 {
        let first = tails.map_values(|t: Seq<i32>| seq![heads[0]] + t);
        let rest = prepend_all(heads.drop_first(), tails);
        assert(heads.drop_first().no_duplicates()) by {
            assert forall|a: int, b: int| 0 <= a < b < heads.drop_first().len() implies heads.drop_first()[a]
                != heads.drop_first()[b] by {
                assert(heads.drop_first()[a] == heads[a + 1]);
                assert(heads.drop_first()[b] == heads[b + 1]);
            }
        }
        lemma_prepend_all_no_duplicates(heads.drop_first(), tails);
        let all = first + rest;
        assert(prepend_all(heads, tails) == all);
        assert forall|a: int, b: int| 0 <= a < b < all.len() implies all[a] != all[b] by {
            if b < first.len() {
                assert(all[a] == seq![heads[0]] + tails[a]);
                assert(all[b] == seq![heads[0]] + tails[b]);
                if all[a] == all[b] {
                    assert(tails[a] =~= all[a].drop_first());
                    assert(tails[b] =~= all[b].drop_first());
                }
            } else if a >= first.len() {
                assert(all[a] == rest[a - first.len()]);
                assert(all[b] == rest[b - first.len()]);
            } else {
                assert(all[a] == seq![heads[0]] + tails[a]);
                assert(all[b] == rest[b - first.len()]);
                lemma_prepend_all_member(heads.drop_first(), tails, b - first.len());
                let (h, t) = choose|h: int, t: int|
                    0 <= h < heads.drop_first().len() && 0 <= t < tails.len() && rest[b - first.len()]
                        == seq![heads.drop_first()[h]] + tails[t];
                assert(all[b][0] == heads[h + 1]);
                assert(all[a][0] == heads[0]);
            }
        }
    }
}

proof fn lemma_product_no_duplicates(dims: Seq<Seq<i32>>)
    requires
        forall|k: int| 0 <= k < dims.len() ==> (#[trigger] dims[k]).no_duplicates(),
    ensures
        seq_product(dims).no_duplicates(),
    decreases dims.len(),
{
    if dims.len() > 0 {
        assert forall|k: int| 0 <= k < dims.drop_first().len() implies (#[trigger] dims.drop_first()[k]).no_duplicates() by {
            assert(dims.drop_first()[k] == dims[k + 1]);
        }
        lemma_product_no_duplicates(dims.drop_first());
        assert(dims[0].no_duplicates());
        lemma_prepend_all_no_duplicates(dims[0], seq_product(dims.drop_first()));
    }
}

proof fn lemma_all_except_no_duplicates(pts: Seq<Seq<i32>>, center: Seq<i32>)
    requires
        pts.no_duplicates(),
    ensures
        all_except(pts, center).no_duplicates(),
    decreases pts.len(),
{
    if pts.len() > 0 {
        let init = pts.drop_last();
        assert(init.no_duplicates()) by {
            assert forall|a: int, b: int| 0 <= a < b < init.len() implies init[a] != init[b] by {
                assert(init[a] == pts[a] && init[b] == pts[b]);
            }
        }
        lemma_all_except_no_duplicates(init, center);
        let rest = all_except(init, center);
        if pts.last() != center {
            let all = rest.push(pts.last());
            assert forall|a: int, b: int| 0 <= a < b < all.len() implies all[a] != all[b] by {
                if b == rest.len() {
                    lemma_all_except_member(init, center, a);
                    let j = choose|j: int| 0 <= j < init.len() && init[j] == rest[a];
                    assert(init[j] == pts[j]);
                    assert(all[a] == rest[a]);
                    assert(pts[pts.len() - 1] == pts.last());
                } else {
                    assert(all[a] == rest[a] && all[b] == rest[b]);
                }
            }
        }
    }
}

/// Whether `u` and `v + d` fall on the same cell of a ring of `len` cells.
pub open spec fn same_on_ring(u: int, v: int, d: int, len: usize) -> bool {
    (u - v - d) % (len as int) == 0
}

/// Whether `u` is, around a ring of `len` cells, within `neg` below and
/// `pos` above `v`.
pub open spec fn within_on_ring(u: int, v: int, neg: usize, pos: usize, len: usize) -> bool {
    exists|d: int| -neg <= d <= pos && #[trigger] same_on_ring(u, v, d, len)
}

/// The offsets between two cells of a ring that land on the same cell:
/// within two turns, no turn, one turn either way.
pub proof fn lemma_ring_offsets(x: int, l: int)
    requires
        l > 0,
        -2 * l < x < 2 * l,
    ensures
        x % l == 0 <==> (x == 0 || x == l || x == -l),
{
    vstd::arithmetic::div_mod::lemma_fundamental_div_mod(x, l);
    let q = x / l;
    if x % l == 0 {
        assert(-2 < q < 2) by (nonlinear_arith)
            requires
                x == l * q,
                l > 0,
                -2 * l < x < 2 * l,
        ;
        assert(x == l * q);
        if q == 1 {
            assert(x == l) by (nonlinear_arith)
                requires
                    x == l * q,
                    q == 1,
            ;
        } else if q == -1 {
            assert(x == -l) by (nonlinear_arith)
                requires
                    x == l * q,
                    q == -1,
            ;
        } else {
            assert(q == 0);
            assert(x == 0) by (nonlinear_arith)
                requires
                    x == l * q,
                    q == 0,
            ;
        }
    }
    if x == 0 || x == l || x == -l {
        vstd::arithmetic::div_mod::lemma_mod_self_0(l);
        if x == -l {
            assert((-l) % l == 0) by (nonlinear_arith)
                requires
                    l > 0,
            ;
        }
    }
}

/// Along a wrapped axis longer than its two margins, the range around a
/// cell of the axis holds exactly the cells of the axis that lie, around
/// the ring, within the margins of the cell.
proof fn lemma_donut_axis_members(v: i32, neg: usize, pos: usize, len: usize, u: i32)
    requires
        on_donut_axis(v as int, len),
        len >= neg + pos + 1,
        len <= i32::MAX,
        v - neg >= i32::MIN,
        v + pos <= i32::MAX,
    ensures
        donut_axis(v, neg, pos, len).contains(u) <==> (on_donut_axis(u as int, len) && within_on_ring(
            u as int,
            v as int,
            neg,
            pos,
            len,
        )),
{
    let (bmin, bmax) = (board_min(len), board_max(len));
    let l = len as int;
    assert(bmax - bmin + 1 == l);
    let (umin, umax) = (v - neg, v + pos);
    let dmin = if bmin > umin { bmin } else { umin };
    let dmax = if bmax < umax { bmax } else { umax };
    let inner = range_incl(dmin, dmax);
    let ax = donut_axis(v, neg, pos, len);
    assert(ax.len() >= inner.len());
    assert(forall|i: int| 0 <= i < inner.len() ==> ax[i] == inner[i]);
    if ax.contains(u) {
        let i = choose|i: int| 0 <= i < ax.len() && ax[i] == u;
        let d: int;
        if i < inner.len() {
            assert(u == dmin + i);
            d = u - v;
            lemma_ring_offsets(0, l);
        } else if umin < bmin {
            let w = range_incl(bmax + (umin - bmin) + 1, bmax);
            assert(ax[i] == w[i - inner.len()]);
            assert(u == umin + l + (i - inner.len()));
            d = u - l - v;
            lemma_ring_offsets(l, l);
        } else {
            let w = range_incl(bmin, bmin + (umax - bmax) - 1);
            assert(ax[i] == w[i - inner.len()]);
            assert(u == bmin + (i - inner.len()));
            d = u + l - v;
            lemma_ring_offsets(-l, l);
        }
        assert(same_on_ring(u as int, v as int, d, len));
    }
    if on_donut_axis(u as int, len) && within_on_ring(u as int, v as int, neg, pos, len) {
        let d = choose|d: int| -neg <= d <= pos && #[trigger] same_on_ring(u as int, v as int, d, len);
        let x = u - v - d;
        lemma_ring_offsets(x, l);
        if x == 0 {
            assert(ax[u - dmin] == u);
        } else if x == l {
            let w = range_incl(bmax + (umin - bmin) + 1, bmax);
            let j = inner.len() + (u - (umin + l));
            assert(ax[j] == w[j - inner.len()]);
            assert(ax[j] == u);
        } else {
            let w = range_incl(bmin, bmin + (umax - bmax) - 1);
            let j = inner.len() + (u - bmin);
            assert(ax[j] == w[j - inner.len()]);
            assert(ax[j] == u);
        }
    }
}

/// Whether `v` is one of the indices of an axis of `len` cells.
pub open spec fn on_donut_axis(v: int, len: usize) -> bool {
    board_min(len) <= v <= board_max(len)
}

proof fn lemma_donut_axis_on_board(v: i32, neg: usize, pos: usize, len: usize)
    requires
        on_donut_axis(v as int, len),
        len >= neg + pos + 1,
        len <= i32::MAX,
    ensures
        forall|i: int|
            0 <= i < donut_axis(v, neg, pos, len).len() ==> on_donut_axis(
                #[trigger] donut_axis(v, neg, pos, len)[i] as int,
                len,
            ),
{
    let (bmin, bmax) = (board_min(len), board_max(len));
    assert(bmax - bmin + 1 == len);
    let ax = donut_axis(v, neg, pos, len);
    assert forall|i: int| 0 <= i < ax.len() implies on_donut_axis(#[trigger] ax[i] as int, len) by {
        let (umin, umax) = (v - neg, v + pos);
        let dmin = if bmin > umin { bmin } else { umin };
        let dmax = if bmax < umax { bmax } else { umax };
        let inner = range_incl(dmin, dmax);
        if i < inner.len() {
            assert(ax[i] == inner[i]);
        } else if umin < bmin {
            let w = range_incl(bmax + (umin - bmin) + 1, bmax);
            assert(ax[i] == w[i - inner.len()]);
        } else {
            let w = range_incl(bmin, bmin + (umax - bmax) - 1);
            assert(ax[i] == w[i - inner.len()]);
        }
    }
}

impl NeighborsGridDonut {
    /// On a board whose sides are longer than their two margins, the
    /// neighbours of a cell of the board are cells of the board, none of
    /// them the cell itself.
    pub proof fn lemma_donut_on_board(&self, p: Seq<i32>)
        requires
            self.donut_defined(p),
            forall|k: int| 0 <= k < p.len() ==> on_donut_axis(p[k] as int, #[trigger] self.spec_board_shape()[k]),
        ensures
            forall|i: int|
                0 <= i < self.donut(p).len() ==> {
                    let q = #[trigger] self.donut(p)[i];
                    &&& q != p
                    &&& q.len() == p.len()
                    &&& forall|k: int|
                        0 <= k < p.len() ==> on_donut_axis(#[trigger] q[k] as int, self.spec_board_shape()[k])
                },
    {
        let axes = self.axes(p);
        assert forall|i: int| 0 <= i < self.donut(p).len() implies {
            let q = #[trigger] self.donut(p)[i];
            &&& q != p
            &&& q.len() == p.len()
            &&& forall|k: int|
                0 <= k < p.len() ==> on_donut_axis(#[trigger] q[k] as int, self.spec_board_shape()[k])
        } by {
            let q = self.donut(p)[i];
            lemma_all_except_member(cartesian(axes), p, i);
            let j = choose|j: int| 0 <= j < cartesian(axes).len() && cartesian(axes)[j] == q;
            assert(axes.len() > 0);
            assert(cartesian(axes)[j] == seq_product(axes)[j]);
            lemma_product_member(axes, j);
            assert forall|k: int| 0 <= k < p.len() implies on_donut_axis(
                #[trigger] q[k] as int,
                self.spec_board_shape()[k],
            ) by {
                let (neg, pos) = self.margin_at(k);
                let len = self.spec_board_shape()[k];
                lemma_donut_axis_on_board(p[k], neg, pos, len);
                assert(axes[k] == donut_axis(p[k], neg, pos, len));
                assert(axes[k].contains(q[k]));
                let m = choose|m: int| 0 <= m < axes[k].len() && axes[k][m] == q[k];
            }
        }
    }
}

impl NeighborsGridDonut {
    /// On a wrapped grid whose axes are longer than their two margins, the
    /// neighbours of a cell of the board are exactly the other cells of the
    /// board whose coordinate on every axis `k` lies, around that axis's
    /// ring, within `neg` below and `pos` above the cell's, `(neg, pos)`
    /// being the margins of axis `k`; whatever the margins.
    pub proof fn lemma_donut_wraps(&self, p: Seq<i32>, q: Seq<i32>)
        requires
            self.donut_defined(p),
            forall|k: int| 0 <= k < p.len() ==> on_donut_axis(p[k] as int, #[trigger] self.spec_board_shape()[k]),
        ensures
            self.donut(p).contains(q) <==> {
                &&& q != p
                &&& q.len() == p.len()
                &&& forall|k: int|
                    0 <= k < p.len() ==> on_donut_axis(#[trigger] q[k] as int, self.spec_board_shape()[k])
                        && within_on_ring(
                        q[k] as int,
                        p[k] as int,
                        self.margin_at(k).0,
                        self.margin_at(k).1,
                        self.spec_board_shape()[k],
                    )
            },
    {
        if p.len() == 0 {
            assert(cartesian(self.axes(p)) == Seq::<Seq<i32>>::empty());
            assert(self.donut(p) == Seq::<Seq<i32>>::empty());
            if q.len() == 0 {
                assert(q =~= p);
            }
        } else {
            lemma_donut_members(*self, p, q);
            let axes = self.axes(p);
            if q.len() == p.len() {
                assert forall|k: int| 0 <= k < p.len() implies (axes[k].contains(#[trigger] q[k]) <==> (
                on_donut_axis(q[k] as int, self.spec_board_shape()[k]) && within_on_ring(
                    q[k] as int,
                    p[k] as int,
                    self.margin_at(k).0,
                    self.margin_at(k).1,
                    self.spec_board_shape()[k],
                ))) by {
                    let (neg, pos) = self.margin_at(k);
                    lemma_donut_axis_members(p[k], neg, pos, self.spec_board_shape()[k], q[k]);
                }
            }
        }
    }
}

impl NeighborsGridDonut {
    /// On a wrapped grid whose axes are longer than their two margins, no
    /// cell is listed twice among the neighbours of a cell of the board.
    pub proof fn lemma_donut_no_duplicates(&self, p: Seq<i32>)
        requires
            self.donut_defined(p),
            forall|k: int| 0 <= k < p.len() ==> on_donut_axis(p[k] as int, #[trigger] self.spec_board_shape()[k]),
        ensures
            self.donut(p).no_duplicates(),
    {
        let axes = self.axes(p);
        if p.len() == 0 {
            assert(cartesian(axes) == Seq::<Seq<i32>>::empty());
        } else {
            assert forall|k: int| 0 <= k < axes.len() implies (#[trigger] axes[k]).no_duplicates() by {
                let (neg, pos) = self.margin_at(k);
                lemma_donut_axis_no_duplicates(p[k], neg, pos, self.spec_board_shape()[k]);
            }
            lemma_product_no_duplicates(axes);
            assert(cartesian(axes) == seq_product(axes));
        }
        lemma_all_except_no_duplicates(cartesian(axes), p);
    }
}

impl BoardNeighborManager<GridPointND<i32>> for NeighborsGridDonut {
    open spec fn neighbors_defined(&self, p: Seq<i32>) -> bool {
        self.donut_defined(p)
    }

    open spec fn spec_neighbors(&self, p: Seq<i32>) -> Seq<Seq<i32>> {
        self.donut(p)
    }

    fn get_neighbors_idx(&self, idx: &GridPointND<i32>) -> (r: Vec<GridPointND<i32>>) {
        self.calc_grid_point_surrounding(idx)
    }
}

impl super::CheckedNeighbors<GridPointND<i32>> for NeighborsGridDonut {
    fn can_list_neighbors(&self, idx: &GridPointND<i32>) -> (r: bool) {
        self.neighbors_computable(idx)
    }
}

impl BoardNeighborManager<GridPoint3D<i32>> for NeighborsGridDonut {
    open spec fn neighbors_defined(&self, p: GridPoint3D<i32>) -> bool {
        self.donut_defined(seq![p.x, p.y, p.z])
    }

    open spec fn spec_neighbors(&self, p: GridPoint3D<i32>) -> Seq<GridPoint3D<i32>> {
        to_points_3d(self.donut(seq![p.x, p.y, p.z]))
    }

    fn get_neighbors_idx(&self, idx: &GridPoint3D<i32>) -> (r: Vec<GridPoint3D<i32>>) {
        let nd = idx.to_nd();
        let pts = self.calc_grid_point_surrounding(&nd);
        let ghost target = to_points_3d(views(pts@));
        let mut r: Vec<GridPoint3D<i32>> = Vec::new();
        let n = pts.len();
        for i in 0..n
            invariant
                n == pts@.len(),
                forall|j: int| 0 <= j < n ==> (#[trigger] pts@[j])@.len() == nd@.len(),
                nd@.len() == 3,
                target == to_points_3d(views(pts@)),
                r@ == target.subrange(0, i as int),
        {
            match pts[i].to_3d() {
                Some(q) => {
                    r.push(q);
                },
                None => {
                    assert(false);
                },
            }
            assert(r@ =~= target.subrange(0, i + 1));
        }
        assert(r@ == target);
        assert(views(r@) =~= r@);
        r
    }
}

impl BoardNeighborManager<GridPoint2D<i32>> for NeighborsGridDonut {
    open spec fn neighbors_defined(&self, p: GridPoint2D<i32>) -> bool {
        self.donut_defined(seq![p.x, p.y])
    }

    open spec fn spec_neighbors(&self, p: GridPoint2D<i32>) -> Seq<GridPoint2D<i32>> {
        to_points_2d(self.donut(seq![p.x, p.y]))
    }

    fn get_neighbors_idx(&self, idx: &GridPoint2D<i32>) -> (r: Vec<GridPoint2D<i32>>) {
        let nd = idx.to_nd();
        let pts = self.calc_grid_point_surrounding(&nd);
        let ghost target = to_points_2d(views(pts@));
        let mut r: Vec<GridPoint2D<i32>> = Vec::new();
        let n = pts.len();
        for i in 0..n
            invariant
                n == pts@.len(),
                forall|j: int| 0 <= j < n ==> (#[trigger] pts@[j])@.len() == nd@.len(),
                nd@.len() == 2,
                target == to_points_2d(views(pts@)),
                r@ == target.subrange(0, i as int),
        {
            match pts[i].to_2d() {
                Some(q) => {
                    r.push(q);
                },
                None => {
                    assert(false);
                },
            }
            assert(r@ =~= target.subrange(0, i + 1));
        }
        assert(r@ == target);
        assert(views(r@) =~= r@);
        r
    }
}

impl BoardNeighborManager<GridPoint1D<i32>> for NeighborsGridDonut {
    open spec fn neighbors_defined(&self, p: GridPoint1D<i32>) -> bool {
        self.donut_defined(seq![p.x])
    }

    open spec fn spec_neighbors(&self, p: GridPoint1D<i32>) -> Seq<GridPoint1D<i32>> {
        to_points_1d(self.donut(seq![p.x]))
    }

    fn get_neighbors_idx(&self, idx: &GridPoint1D<i32>) -> (r: Vec<GridPoint1D<i32>>) {
        let nd = idx.to_nd();
        let pts = self.calc_grid_point_surrounding(&nd);
        let ghost target = to_points_1d(views(pts@));
        let mut r: Vec<GridPoint1D<i32>> = Vec::new();
        let n = pts.len();
        for i in 0..n
            invariant
                n == pts@.len(),
                forall|j: int| 0 <= j < n ==> (#[trigger] pts@[j])@.len() == nd@.len(),
                nd@.len() == 1,
                target == to_points_1d(views(pts@)),
                r@ == target.subrange(0, i as int),
        {
            match pts[i].to_1d() {
                Some(q) => {
                    r.push(q);
                },
                None => {
                    assert(false);
                },
            }
            assert(r@ =~= target.subrange(0, i + 1));
        }
        assert(r@ == target);
        assert(views(r@) =~= r@);
        r
    }
}

/// On a board of a given shape, the same margin `m` on both sides of every
/// axis, given once (`new`) or once per axis (`new_with_variable_margin`
/// with `(m, m)` for each of the point's axes), gives the same neighbours of
/// every point, and leaves them computable for the same points.
pub proof fn lemma_donut_uniform_margin(
    a: NeighborsGridDonut,
    b: NeighborsGridDonut,
    m: usize,
    p: Seq<i32>,
)
    requires
        a.spec_repeat_margin(),
        a.spec_margins() == seq![(m, m)],
        !b.spec_repeat_margin(),
        b.spec_margins() == Seq::new(p.len(), |k: int| (m, m)),
        a.spec_board_shape() == b.spec_board_shape(),
        p.len() >= 1,
    ensures
        a.donut_defined(p) == b.donut_defined(p),
        a.donut(p) == b.donut(p),
{
    assert forall|k: int|
        #![trigger a.margin_at(k)]
        #![trigger b.margin_at(k)]
        0 <= k < p.len() implies a.margin_at(k) == b.margin_at(k) by {}
    assert(a.axes(p) =~= b.axes(p));
}

} // verus!
