//! Every cell of the box spanned by a margin on each side of each axis, on
//! an unbounded grid of any dimension.

use super::{views, BoardNeighborManager};
use crate::index::{GridPoint1D, GridPoint2D, GridPoint3D, GridPointND, ToGridPointND};
use crate::neighbors::moore::NeighborMoore;
use vstd::prelude::*;

verus! {

/// `i` written in the mixed radix `lens`, least significant digit first.
pub open spec fn digits(i: int, lens: Seq<usize>) -> Seq<int>
    decreases lens.len(),
{
    if lens.len() == 0 {
        seq![]
    } else {
        seq![i % (lens[0] as int)] + digits(i / (lens[0] as int), lens.drop_first())
    }
}

/// The product of `lens`.
pub open spec fn volume(lens: Seq<usize>) -> int
    decreases lens.len(),
{
    if lens.len() == 0 {
        1
    } else {
        volume(lens.drop_last()) * lens.last()
    }
}

/// The `i`-th cell of the box whose lowest corner is `los` and whose sides
/// have lengths `lens`, the first axis varying fastest.
pub open spec fn box_point(i: int, los: Seq<int>, lens: Seq<usize>) -> Seq<i32> {
    Seq::new(los.len(), |k: int| (los[k] + digits(i, lens)[k]) as i32)
}

/// The first `n` cells of the box, leaving out `center`.
pub open spec fn box_points_except(n: int, los: Seq<int>, lens: Seq<usize>, center: Seq<i32>) -> Seq<Seq<i32>>
    decreases n,
{
    if n <= 0 {
        seq![]
    } else {
        let rest = box_points_except(n - 1, los, lens, center);
        let q = box_point(n - 1, los, lens);
        if q != center {
            rest.push(q)
        } else {
            rest
        }
    }
}

proof fn lemma_digits_len(i: int, lens: Seq<usize>)
    ensures
        digits(i, lens).len() == lens.len(),
    decreases lens.len(),
{
    if lens.len() > 0 {
        lemma_digits_len(i / (lens[0] as int), lens.drop_first());
    }
}

proof fn lemma_digits_range(i: int, lens: Seq<usize>)
    requires
        i >= 0,
        forall|k: int| 0 <= k < lens.len() ==> lens[k] >= 1,
    ensures
        digits(i, lens).len() == lens.len(),
        forall|k: int| 0 <= k < lens.len() ==> 0 <= #[trigger] digits(i, lens)[k] < lens[k],
    decreases lens.len(),
{
    lemma_digits_len(i, lens);
    if lens.len() > 0 {
        let rest = lens.drop_first();
        lemma_digits_range(i / (lens[0] as int), rest);
        assert forall|k: int| 0 <= k < lens.len() implies 0 <= #[trigger] digits(i, lens)[k] < lens[k] by {
            if k > 0 {
                assert(digits(i, lens)[k] == digits(i / (lens[0] as int), rest)[k - 1]);
                assert(rest[k - 1] == lens[k]);
            }
        }
    }
}

proof fn lemma_volume_prefix(lens: Seq<usize>, k: int)
    requires
        0 <= k <= lens.len(),
        forall|j: int| 0 <= j < lens.len() ==> lens[j] >= 1,
    ensures
        1 <= volume(lens.subrange(0, k)) <= volume(lens),
    decreases lens.len() - k,
{
    let sub = lens.subrange(0, k);
    lemma_volume_pos(sub);
    if k < lens.len() {
        lemma_volume_prefix(lens, k + 1);
        let s = lens.subrange(0, k + 1);
        assert(s.drop_last() == sub);
        let a = volume(sub);
        let b = s.last() as int;
        assert(volume(s) == a * b);
        assert(a <= a * b) by (nonlinear_arith)
            requires
                b >= 1,
                a >= 0,
        ;
    } else {
        assert(sub == lens);
    }
}

proof fn lemma_volume_pos(lens: Seq<usize>)
    requires
        forall|j: int| 0 <= j < lens.len() ==> lens[j] >= 1,
    ensures
        volume(lens) >= 1,
    decreases lens.len(),
{
    if lens.len() > 0 {
        lemma_volume_pos(lens.drop_last());
        let a = volume(lens.drop_last());
        let b = lens.last() as int;
        assert(a * b >= 1) by (nonlinear_arith)
            requires
                a >= 1,
                b >= 1,
        ;
    }
}

/// Neighbours within a margin on every side: `margins` holds one
/// `(negative, positive)` pair per axis, or a single pair used on every axis.
pub struct NeighborsGridSurround {
    is_infinite: bool,
    margins: Vec<(usize, usize)>,
}

/// The lowest index along an axis: `v - neg`, cut at `i32::MIN`.
pub open spec fn surround_lo(v: i32, neg: usize) -> int {
    if v - neg >= i32::MIN {
        v - neg
    } else {
        i32::MIN as int
    }
}

/// One past the highest index along an axis.
pub open spec fn surround_hi(v: i32, pos: usize) -> int {
    v + pos + 1
}

impl NeighborsGridSurround {
    pub closed spec fn spec_is_infinite(&self) -> bool {
        self.is_infinite
    }

    pub closed spec fn spec_margins(&self) -> Seq<(usize, usize)> {
        self.margins@
    }

    /// The margins on axis `k`.
    pub open spec fn margin_at(&self, k: int) -> (usize, usize) {
        if self.spec_is_infinite() {
            self.spec_margins()[0]
        } else {
            self.spec_margins()[k]
        }
    }

    /// The lowest corner of the box around `p`.
    pub open spec fn los(&self, p: Seq<i32>) -> Seq<int> {
        Seq::new(p.len(), |k: int| surround_lo(p[k], self.margin_at(k).0))
    }

    /// The side lengths of the box around `p`.
    pub open spec fn lens(&self, p: Seq<i32>) -> Seq<usize> {
        Seq::new(
            p.len(),
            |k: int| (surround_hi(p[k], self.margin_at(k).1) - surround_lo(p[k], self.margin_at(k).0)) as usize,
        )
    }

    /// Whether the box around `p` can be computed: every margin and every
    /// box coordinate is an `i32`, every side length is at most `i32::MAX`,
    /// and the number of cells is a `usize`.
    pub open spec fn surround_defined(&self, p: Seq<i32>) -> bool {
        &&& self.spec_margins().len() >= 1
        &&& !self.spec_is_infinite() ==> self.spec_margins().len() >= p.len()
        &&& forall|k: int|
            0 <= k < p.len() ==> {
                let (neg, pos) = #[trigger] self.margin_at(k);
                &&& neg <= i32::MAX
                &&& pos <= i32::MAX
                &&& surround_hi(p[k], pos) <= i32::MAX
                &&& surround_hi(p[k], pos) - surround_lo(p[k], neg) <= i32::MAX
            }
        &&& volume(self.lens(p)) <= usize::MAX
    }

    /// Every cell of the box around `p` but `p`, the first axis varying fastest.
    pub open spec fn surround(&self, p: Seq<i32>) -> Seq<Seq<i32>> {
        box_points_except(volume(self.lens(p)), self.los(p), self.lens(p), p)
    }

    /// Equal margin `margin` on both sides of every axis.
    pub fn new(margin: usize) -> (r: Self)
        ensures
            r.spec_is_infinite(),
            r.spec_margins() == seq![(margin, margin)],
    {
        Self { is_infinite: true, margins: vec![(margin, margin)] }
    }

    /// Margins per axis: `margins[k]` holds the negative and the positive
    /// margin along axis `k`.
    pub fn new_with_variable_margin(margins: &[(usize, usize)]) -> (r: Self)
        requires
            margins@.len() > 0,
        ensures
            !r.spec_is_infinite(),
            r.spec_margins() == margins@,
    {
        let mut v: Vec<(usize, usize)> = Vec::new();
        let n = margins.len();
        for i in 0..n
            invariant
                n == margins@.len(),
                v@ == margins@.subrange(0, i as int),
        {
            v.push(margins[i]);
        }
        assert(v@ == margins@);
        Self { is_infinite: false, margins: v }
    }

    fn get_margin(&self, k: usize) -> (r: (usize, usize))
        requires
            self.spec_margins().len() >= 1,
            !self.spec_is_infinite() ==> k < self.spec_margins().len(),
        ensures
            r == self.margin_at(k as int),
    {
        if self.is_infinite {
            self.margins[0]
        } else {
            self.margins[k]
        }
    }

    /// Whether the neighbours of `idx` can be computed.
    pub fn neighbors_computable(&self, idx: &GridPointND<i32>) -> (r: bool)
        ensures
            r == self.surround_defined(idx@),
    {
        let p = idx.indices();
        let n = p.len();
        if self.margins.len() < 1 {
            return false;
        }
        if !self.is_infinite && self.margins.len() < n {
            return false;
        }
        let ghost all_lens = self.lens(idx@);
        let mut vol: usize = 1;
        let mut overflow = false;
        let ghost mut ovf_at: int = 0;
        for k in 0..n
            invariant
                n == p@.len(),
                p@ == idx@,
                all_lens == self.lens(idx@),
                self.spec_margins().len() >= 1,
                !self.spec_is_infinite() ==> self.spec_margins().len() >= n,
                forall|j: int|
                    0 <= j < k ==> {
                        let (neg, pos) = #[trigger] self.margin_at(j);
                        &&& neg <= i32::MAX
                        &&& pos <= i32::MAX
                        &&& surround_hi(idx@[j], pos) <= i32::MAX
                        &&& surround_hi(idx@[j], pos) - surround_lo(idx@[j], neg) <= i32::MAX
                    },
                !overflow ==> vol as int == volume(all_lens.subrange(0, k as int)),
                overflow ==> 0 < ovf_at <= k && volume(all_lens.subrange(0, ovf_at)) > usize::MAX,
        {
            let (neg, pos) = self.get_margin(k);
            let v = p[k];
            proof {
                let _ = self.margin_at(k as int);
            }
            if neg > 0x7fff_ffffusize || pos > 0x7fff_ffffusize {
                return false;
            }
            let hi: i64 = v as i64 + pos as i64 + 1;
            if hi > 0x7fff_ffffi64 {
                return false;
            }
            let lo: i64 = if (v as i64) - (neg as i64) >= -0x8000_0000i64 {
                (v as i64) - (neg as i64)
            } else {
                -0x8000_0000i64
            };
            if hi - lo > 0x7fff_ffffi64 {
                return false;
            }
            let len = (hi - lo) as usize;
            proof {
                assert(len == all_lens[k as int]);
                let s = all_lens.subrange(0, k + 1);
                assert(s.drop_last() == all_lens.subrange(0, k as int));
            }
            if !overflow {
                match vol.checked_mul(len) {
                    Some(x) => {
                        vol = x;
                    },
                    None => {
                        overflow = true;
                        proof {
                            ovf_at = k + 1;
                        }
                    },
                }
            }
        }
        proof {
            assert(all_lens.subrange(0, n as int) == all_lens);
            assert forall|j: int| 0 <= j < all_lens.len() implies all_lens[j] >= 1 by {
                let _ = self.margin_at(j);
            }
            if overflow {
                lemma_volume_prefix(all_lens, ovf_at);
            }
        }
        !overflow
    }

    fn calc_dim_ranges(&self, idx: &[i32]) -> (r: (Vec<i32>, Vec<usize>, usize))
        requires
            self.surround_defined(idx@),
        ensures
            r.0@.len() == idx@.len(),
            forall|k: int| 0 <= k < idx@.len() ==> r.0@[k] as int == self.los(idx@)[k],
            r.1@ == self.lens(idx@),
            r.2 as int == volume(self.lens(idx@)),
    {
        let n = idx.len();
        let mut los: Vec<i32> = Vec::new();
        let mut lens: Vec<usize> = Vec::new();
        let mut vol: usize = 1;
        let ghost all_lens = self.lens(idx@);
        proof {
            assert forall|j: int| 0 <= j < all_lens.len() implies all_lens[j] >= 1 by {
                let _ = self.margin_at(j);
            }
        }
        for k in 0..n
            invariant
                n == idx@.len(),
                self.surround_defined(idx@),
                all_lens == self.lens(idx@),
                forall|j: int| 0 <= j < all_lens.len() ==> all_lens[j] >= 1,
                los@.len() == k,
                forall|j: int| 0 <= j < k ==> los@[j] as int == self.los(idx@)[j],
                lens@ == all_lens.subrange(0, k as int),
                vol as int == volume(all_lens.subrange(0, k as int)),
        {
            let (neg, pos) = self.get_margin(k);
            let v = idx[k];
            proof {
                let _ = self.margin_at(k as int);
            }
            let lo: i32 = if (v as i64) - (neg as i64) >= i32::MIN as i64 {
                v - (neg as i32)
            } else {
                i32::MIN
            };
            let hi: i32 = v + (pos as i32) + 1;
            let len = (hi - lo) as usize;
            proof {
                lemma_volume_prefix(all_lens, k + 1);
                let s = all_lens.subrange(0, k + 1);
                assert(s.drop_last() == all_lens.subrange(0, k as int));
                assert(len == all_lens[k as int]);
            }
            los.push(lo);
            lens.push(len);
            vol = vol * len;
            proof {
                assert(lens@ == all_lens.subrange(0, k + 1));
            }
        }
        assert(all_lens.subrange(0, n as int) == all_lens);
        (los, lens, vol)
    }

    fn decode(i: usize, los: &Vec<i32>, lens: &Vec<usize>) -> (r: Vec<i32>)
        requires
            los@.len() == lens@.len(),
            forall|k: int| 0 <= k < lens@.len() ==> lens@[k] >= 1,
            forall|k: int| 0 <= k < lens@.len() ==> los@[k] + lens@[k] - 1 <= i32::MAX,
            forall|k: int| 0 <= k < lens@.len() ==> lens@[k] <= i32::MAX,
        ensures
            r@ == box_point(i as int, los@.map_values(|x: i32| x as int), lens@),
    {
        let ghost lo_int = los@.map_values(|x: i32| x as int);
        let ghost all = digits(i as int, lens@);
        proof {
            lemma_digits_range(i as int, lens@);
        }
        let n = lens.len();
        let mut r: Vec<i32> = Vec::new();
        let mut cur = i;
        let ghost mut done: Seq<int> = seq![];
        assert(lens@.skip(0) == lens@);
        assert(all == done + digits(cur as int, lens@.skip(0)));
        for k in 0..n
            invariant
                n == lens@.len(),
                los@.len() == n,
                lo_int == los@.map_values(|x: i32| x as int),
                forall|j: int| 0 <= j < n ==> lens@[j] >= 1,
                forall|j: int| 0 <= j < n ==> los@[j] + lens@[j] - 1 <= i32::MAX,
                forall|j: int| 0 <= j < n ==> lens@[j] <= i32::MAX,
                all == digits(i as int, lens@),
                all.len() == n,
                forall|j: int| 0 <= j < n ==> 0 <= #[trigger] all[j] < lens@[j],
                done.len() == k,
                all == done + digits(cur as int, lens@.skip(k as int)),
                r@.len() == k,
                forall|j: int| 0 <= j < k ==> r@[j] == (lo_int[j] + all[j]) as i32,
        {
            let len = lens[k];
            let d = cur % len;
            proof {
                let rest = lens@.skip(k as int);
                assert(rest[0] == len);
                assert(rest.drop_first() == lens@.skip(k + 1));
                assert(digits(cur as int, rest) == seq![(cur % len) as int] + digits(
                    (cur / len) as int,
                    lens@.skip(k + 1),
                ));
                assert(all == (done + seq![d as int]) + digits((cur / len) as int, lens@.skip(k + 1)));
                assert(all[k as int] == d);
            }
            let coord = los[k] + d as i32;
            let ghost prev = r@;
            r.push(coord);
            assert(r@ == prev.push(coord));
            proof {
                done = done + seq![d as int];
            }
            cur = cur / len;
        }
        proof {
            assert(lens@.skip(n as int).len() == 0);
            assert(all == done);
        }
        assert(r@ == box_point(i as int, lo_int, lens@));
        r
    }

    fn same_point(a: &Vec<i32>, b: &[i32]) -> (r: bool)
        ensures
            r == (a@ == b@),
    {
        if a.len() != b.len() {
            return false;
        }
        let n = a.len();
        for i in 0..n
            invariant
                n == a@.len(),
                n == b@.len(),
                forall|j: int| 0 <= j < i ==> a@[j] == b@[j],
        {
            if a[i] != b[i] {
                return false;
            }
        }
        assert(a@ == b@);
        true
    }

    fn calc_grid_point_surrounding(&self, idx: &GridPointND<i32>) -> (r: Vec<GridPointND<i32>>)
        requires
            self.surround_defined(idx@),
        ensures
            views(r@) == self.surround(idx@),
            forall|j: int| 0 <= j < r@.len() ==> (#[trigger] r@[j])@.len() == idx@.len(),
    {
        let p = idx.indices();
        let (los, lens, vol) = self.calc_dim_ranges(p);
        let ghost lo_int = los@.map_values(|x: i32| x as int);
        proof {
            assert(lo_int == self.los(idx@));
            assert forall|k: int| 0 <= k < lens@.len() implies lens@[k] >= 1 by {
                let _ = self.margin_at(k);
            }
            assert forall|k: int| 0 <= k < lens@.len() implies los@[k] + lens@[k] - 1 <= i32::MAX by {
                let _ = self.margin_at(k);
            }
            assert forall|k: int| 0 <= k < lens@.len() implies lens@[k] <= i32::MAX by {
                let _ = self.margin_at(k);
            }
        }
        let mut res: Vec<GridPointND<i32>> = Vec::new();
        for i in 0..vol
            invariant
                self.surround_defined(idx@),
                p@ == idx@,
                lo_int == los@.map_values(|x: i32| x as int),
                lo_int == self.los(idx@),
                lens@ == self.lens(idx@),
                los@.len() == lens@.len(),
                los@.len() == idx@.len(),
                forall|k: int| 0 <= k < lens@.len() ==> lens@[k] >= 1,
                forall|k: int| 0 <= k < lens@.len() ==> los@[k] + lens@[k] - 1 <= i32::MAX,
                forall|k: int| 0 <= k < lens@.len() ==> lens@[k] <= i32::MAX,
                views(res@) == box_points_except(i as int, lo_int, lens@, idx@),
                forall|j: int| 0 <= j < res@.len() ==> (#[trigger] res@[j])@.len() == idx@.len(),
        {
            let q = Self::decode(i, &los, &lens);
            if !Self::same_point(&q, p) {
                let g = GridPointND::new(q.as_slice());
                let ghost prev = res@;
                res.push(g);
                proof {
                    assert(res@ == prev.push(g));
                    assert(views(res@) =~= views(prev).push(g@));
                }
            }
        }
        res
    }
}

proof fn lemma_box_points_except(n: int, los: Seq<int>, lens: Seq<usize>, center: Seq<i32>)
    ensures
        forall|i: int|
            0 <= i < box_points_except(n, los, lens, center).len() ==> {
                let q = #[trigger] box_points_except(n, los, lens, center)[i];
                &&& q != center
                &&& exists|j: int| 0 <= j < n && q == box_point(j, los, lens)
            },
    decreases n,
{
    if n > 0 {
        lemma_box_points_except(n - 1, los, lens, center);
        let rest = box_points_except(n - 1, los, lens, center);
        let all = box_points_except(n, los, lens, center);
        assert forall|i: int| 0 <= i < all.len() implies {
            let q = #[trigger] all[i];
            &&& q != center
            &&& exists|j: int| 0 <= j < n && q == box_point(j, los, lens)
        } by {
            if i < rest.len() {
                assert(all[i] == rest[i]);
                let q = rest[i];
                let j = choose|j: int| 0 <= j < n - 1 && q == box_point(j, los, lens);
                assert(0 <= j < n && q == box_point(j, los, lens));
            } else {
                assert(all[i] == box_point(n - 1, los, lens));
            }
        }
    }
}

/// `ds` read in the mixed radix `lens`, least significant digit first.
spec fn digits_value(ds: Seq<int>, lens: Seq<usize>) -> int
    decreases lens.len(),
{
    if lens.len() == 0 || ds.len() == 0 {
        0
    } else {
        ds[0] + (lens[0] as int) * digits_value(ds.drop_first(), lens.drop_first())
    }
}

proof fn lemma_volume_first(lens: Seq<usize>)
    requires
        lens.len() > 0,
    ensures
        volume(lens) == lens[0] * volume(lens.drop_first()),
    decreases lens.len(),
{
    if lens.len() > 1 {
        lemma_volume_first(lens.drop_last());
        assert(lens.drop_last().drop_first() == lens.drop_first().drop_last());
        assert(lens.drop_first().last() == lens.last());
        assert(lens.drop_last()[0] == lens[0]);
        assert(volume(lens) == volume(lens.drop_last()) * lens.last());
        assert(volume(lens.drop_first()) == volume(lens.drop_first().drop_last())
            * lens.drop_first().last());
        let a = lens[0] as int;
        let b = volume(lens.drop_last().drop_first());
        let c = lens.last() as int;
        assert((a * b) * c == a * (b * c)) by (nonlinear_arith);
    } else {
        assert(lens.drop_last().len() == 0);
        assert(lens.drop_first().len() == 0);
        assert(lens.last() == lens[0]);
        assert(volume(lens.drop_last()) == 1);
        assert(volume(lens.drop_first()) == 1);
        assert(volume(lens) == volume(lens.drop_last()) * lens.last());
    }
}

proof fn lemma_digits_injective(i: int, j: int, lens: Seq<usize>)
    requires
        forall|k: int| 0 <= k < lens.len() ==> lens[k] >= 1,
        0 <= i < volume(lens),
        0 <= j < volume(lens),
        digits(i, lens) == digits(j, lens),
    ensures
        i == j,
    decreases lens.len(),
{
    if lens.len() == 0 {
        assert(volume(lens) == 1);
    } else {
        let l0 = lens[0] as int;
        let rest = lens.drop_first();
        lemma_volume_first(lens);
        lemma_volume_pos(rest);
        let v = volume(rest);
        lemma_digits_len(i / l0, rest);
        lemma_digits_len(j / l0, rest);
        assert(digits(i, lens)[0] == digits(j, lens)[0]);
        assert(digits(i, lens)[0] == i % l0);
        assert(digits(j, lens)[0] == j % l0);
        assert(digits(i / l0, rest) == digits(i, lens).drop_first());
        assert(digits(j / l0, rest) == digits(j, lens).drop_first());
        assert(0 <= i / l0 < v && 0 <= j / l0 < v) by (nonlinear_arith)
            requires
                l0 >= 1,
                0 <= i < l0 * v,
                0 <= j < l0 * v,
        ;
        assert forall|k: int| 0 <= k < rest.len() implies rest[k] >= 1 by {
            assert(rest[k] == lens[k + 1]);
        }
        lemma_digits_injective(i / l0, j / l0, rest);
        assert(i == l0 * (i / l0) + i % l0 && j == l0 * (j / l0) + j % l0) by (nonlinear_arith)
            requires
                l0 >= 1,
        ;
    }
}

proof fn lemma_digits_of_value(ds: Seq<int>, lens: Seq<usize>)
    requires
        ds.len() == lens.len(),
        forall|k: int| 0 <= k < lens.len() ==> 0 <= #[trigger] ds[k] < lens[k],
    ensures
        0 <= digits_value(ds, lens) < volume(lens),
        digits(digits_value(ds, lens), lens) == ds,
    decreases lens.len(),
{
    if lens.len() > 0 {
        let l0 = lens[0] as int;
        let rest = lens.drop_first();
        let d0 = ds[0];
        assert forall|k: int| 0 <= k < rest.len() implies 0 <= #[trigger] ds.drop_first()[k]
            < rest[k] by {
            assert(ds.drop_first()[k] == ds[k + 1]);
            assert(rest[k] == lens[k + 1]);
        }
        lemma_digits_of_value(ds.drop_first(), rest);
        lemma_volume_first(lens);
        let rv = digits_value(ds.drop_first(), rest);
        let val = digits_value(ds, lens);
        assert(val == d0 + l0 * rv);
        assert(val % l0 == d0 && val / l0 == rv) by (nonlinear_arith)
            requires
                val == d0 + l0 * rv,
                0 <= d0 < l0,
        ;
        assert(0 <= val < l0 * volume(rest)) by (nonlinear_arith)
            requires
                val == d0 + l0 * rv,
                0 <= d0 < l0,
                0 <= rv < volume(rest),
        ;
        assert(digits(val, lens) =~= ds);
    }
}

/// The number of the first `n` cells of a box that are not `center`.
spec fn count_not_center(n: int, los: Seq<int>, lens: Seq<usize>, center: Seq<i32>) -> int
    decreases n,
{
    if n <= 0 {
        0
    } else {
        count_not_center(n - 1, los, lens, center) + if box_point(n - 1, los, lens) != center {
            1int
        } else {
            0int
        }
    }
}

proof fn lemma_box_points_except_len(n: int, los: Seq<int>, lens: Seq<usize>, center: Seq<i32>)
    ensures
        box_points_except(n, los, lens, center).len() == count_not_center(n, los, lens, center),
    decreases n,
{
    if n > 0 {
        lemma_box_points_except_len(n - 1, los, lens, center);
    }
}

/// Whether two cells of the box are the same only where they have the same
/// number: the box coordinates stay in the range of `i32`.
spec fn box_fits(los: Seq<int>, lens: Seq<usize>) -> bool {
    &&& los.len() == lens.len()
    &&& forall|k: int| 0 <= k < lens.len() ==> lens[k] >= 1
    &&& forall|k: int|
        0 <= k < lens.len() ==> i32::MIN <= #[trigger] los[k] && los[k] + lens[k] <= i32::MAX + 1
}

proof fn lemma_box_point_injective(i: int, j: int, los: Seq<int>, lens: Seq<usize>)
    requires
        box_fits(los, lens),
        0 <= i < volume(lens),
        0 <= j < volume(lens),
        box_point(i, los, lens) == box_point(j, los, lens),
    ensures
        i == j,
{
    lemma_digits_range(i, lens);
    lemma_digits_range(j, lens);
    assert forall|k: int| 0 <= k < lens.len() implies digits(i, lens)[k] == digits(j, lens)[k] by {
        assert(box_point(i, los, lens)[k] == box_point(j, los, lens)[k]);
        let a = los[k] + digits(i, lens)[k];
        let b = los[k] + digits(j, lens)[k];
        assert(i32::MIN <= a <= i32::MAX && i32::MIN <= b <= i32::MAX);
        assert(box_point(i, los, lens)[k] == a as i32);
        assert(box_point(j, los, lens)[k] == b as i32);
        assert((a as i32) as int == a && (b as i32) as int == b);
    }
    assert(digits(i, lens) =~= digits(j, lens));
    lemma_digits_injective(i, j, lens);
}

proof fn lemma_count_not_center(n: int, c: int, los: Seq<int>, lens: Seq<usize>, center: Seq<i32>)
    requires
        box_fits(los, lens),
        0 <= n <= volume(lens),
        0 <= c < volume(lens),
        box_point(c, los, lens) == center,
    ensures
        count_not_center(n, los, lens, center) == if c < n { n - 1 } else { n },
    decreases n,
{
    if n > 0 {
        lemma_count_not_center(n - 1, c, los, lens, center);
        if box_point(n - 1, los, lens) == center {
            lemma_box_point_injective(n - 1, c, los, lens);
        }
    }
}

proof fn lemma_box_points_except_distinct(n: int, los: Seq<int>, lens: Seq<usize>, center: Seq<i32>)
    requires
        box_fits(los, lens),
        0 <= n <= volume(lens),
    ensures
        box_points_except(n, los, lens, center).no_duplicates(),
        forall|i: int|
            0 <= i < box_points_except(n, los, lens, center).len() ==> exists|j: int|
                0 <= j < n && #[trigger] box_points_except(n, los, lens, center)[i] == box_point(
                    j,
                    los,
                    lens,
                ),
    decreases n,
{
    if n > 0 {
        lemma_box_points_except_distinct(n - 1, los, lens, center);
        let rest = box_points_except(n - 1, los, lens, center);
        let all = box_points_except(n, los, lens, center);
        let q = box_point(n - 1, los, lens);
        assert forall|i: int| 0 <= i < all.len() implies exists|j: int|
            0 <= j < n && #[trigger] all[i] == box_point(j, los, lens) by {
            if i < rest.len() {
                assert(all[i] == rest[i]);
                let j = choose|j: int| 0 <= j < n - 1 && rest[i] == box_point(j, los, lens);
                assert(0 <= j < n && all[i] == box_point(j, los, lens));
            } else {
                assert(all[i] == q);
            }
        }
        if q != center {
            assert forall|a: int, b: int| 0 <= a < b < all.len() implies all[a] != all[b] by {
                if b == all.len() - 1 {
                    assert(all[b] == q);
                    assert(all[a] == rest[a]);
                    let j = choose|j: int| 0 <= j < n - 1 && rest[a] == box_point(j, los, lens);
                    if rest[a] == q {
                        lemma_box_point_injective(j, n - 1, los, lens);
                    }
                } else {
                    assert(all[a] == rest[a] && all[b] == rest[b]);
                }
            }
        }
    }
}

impl NeighborsGridSurround {
    /// Away from the lowest `i32` values, the neighbours of a cell are the
    /// cells of the box of side `negative + positive + 1` on each axis around
    /// it, each once, but the cell itself: as many as the box has cells, less
    /// one.
    pub proof fn lemma_surround_count(&self, p: Seq<i32>)
        requires
            self.surround_defined(p),
            forall|k: int| 0 <= k < p.len() ==> p[k] - (#[trigger] self.margin_at(k)).0 >= i32::MIN,
        ensures
            self.surround(p).len() == volume(self.lens(p)) - 1,
            self.surround(p).no_duplicates(),
            forall|k: int|
                0 <= k < p.len() ==> #[trigger] self.lens(p)[k] == self.margin_at(k).0 + self.margin_at(
                    k,
                ).1 + 1,
    {
        let los = self.los(p);
        let lens = self.lens(p);
        let n = volume(lens);
        assert forall|k: int| 0 <= k < p.len() implies #[trigger] lens[k] == self.margin_at(k).0
            + self.margin_at(k).1 + 1 by {
            let (neg, pos) = self.margin_at(k);
            assert(surround_lo(p[k], neg) == p[k] - neg);
        }
        assert(box_fits(los, lens)) by {
            assert forall|k: int| 0 <= k < lens.len() implies lens[k] >= 1 by {
                let (neg, pos) = self.margin_at(k);
                assert(surround_hi(p[k], pos) - surround_lo(p[k], neg) >= 1);
            }
            assert forall|k: int| 0 <= k < lens.len() implies i32::MIN <= #[trigger] los[k]
                && los[k] + lens[k] <= i32::MAX + 1 by {
                let (neg, pos) = self.margin_at(k);
                assert(surround_hi(p[k], pos) - surround_lo(p[k], neg) <= i32::MAX);
            }
        }
        let ds = Seq::new(p.len(), |k: int| self.margin_at(k).0 as int);
        assert forall|k: int| 0 <= k < lens.len() implies 0 <= #[trigger] ds[k] < lens[k] by {
            let (neg, pos) = self.margin_at(k);
            assert(surround_lo(p[k], neg) == p[k] - neg);
        }
        lemma_digits_of_value(ds, lens);
        let c = digits_value(ds, lens);
        assert(box_point(c, los, lens) =~= p) by {
            assert forall|k: int| 0 <= k < p.len() implies box_point(c, los, lens)[k] == p[k] by {
                let (neg, pos) = self.margin_at(k);
                assert(surround_lo(p[k], neg) == p[k] - neg);
                assert(digits(c, lens)[k] == neg);
            }
        }
        lemma_count_not_center(n, c, los, lens, p);
        lemma_box_points_except_len(n, los, lens, p);
        lemma_box_points_except_distinct(n, los, lens, p);
    }

    /// The neighbours of a cell never include the cell itself, and each lies
    /// within the margins around it on every axis.
    pub proof fn lemma_surround_within_margins(&self, p: Seq<i32>)
        requires
            self.surround_defined(p),
        ensures
            forall|i: int|
                0 <= i < self.surround(p).len() ==> {
                    let q = #[trigger] self.surround(p)[i];
                    &&& q != p
                    &&& q.len() == p.len()
                    &&& forall|k: int|
                        0 <= k < p.len() ==> p[k] - self.margin_at(k).0 <= #[trigger] q[k] <= p[k]
                            + self.margin_at(k).1
                },
    {
        let los = self.los(p);
        let lens = self.lens(p);
        let n = volume(lens);
        lemma_box_points_except(n, los, lens, p);
        assert forall|k: int| 0 <= k < lens.len() implies lens[k] >= 1 by {
            let (neg, pos) = self.margin_at(k);
            assert(surround_hi(p[k], pos) - surround_lo(p[k], neg) >= 1);
        }
        assert forall|i: int| 0 <= i < self.surround(p).len() implies {
            let q = #[trigger] self.surround(p)[i];
            &&& q != p
            &&& q.len() == p.len()
            &&& forall|k: int|
                0 <= k < p.len() ==> p[k] - self.margin_at(k).0 <= #[trigger] q[k] <= p[k]
                    + self.margin_at(k).1
        } by {
            let q = self.surround(p)[i];
            let j = choose|j: int| 0 <= j < n && q == box_point(j, los, lens);
            lemma_digits_range(j, lens);
            assert forall|k: int| 0 <= k < p.len() implies p[k] - self.margin_at(k).0 <= #[trigger] q[k]
                <= p[k] + self.margin_at(k).1 by {
                let (neg, pos) = self.margin_at(k);
                let d = digits(j, lens)[k];
                assert(0 <= d < lens[k]);
                assert(q[k] == (los[k] + d) as i32);
            }
        }
    }
}

impl BoardNeighborManager<GridPointND<i32>> for NeighborsGridSurround {
    open spec fn neighbors_defined(&self, p: Seq<i32>) -> bool {
        self.surround_defined(p)
    }

    open spec fn spec_neighbors(&self, p: Seq<i32>) -> Seq<Seq<i32>> {
        self.surround(p)
    }

    fn get_neighbors_idx(&self, idx: &GridPointND<i32>) -> (r: Vec<GridPointND<i32>>) {
        self.calc_grid_point_surrounding(idx)
    }
}

/// The points of `pts` as 3D points.
impl super::CheckedNeighbors<GridPointND<i32>> for NeighborsGridSurround {
    fn can_list_neighbors(&self, idx: &GridPointND<i32>) -> (r: bool) {
        self.neighbors_computable(idx)
    }
}

pub open spec fn to_points_3d(pts: Seq<Seq<i32>>) -> Seq<GridPoint3D<i32>> {
    pts.map_values(|q: Seq<i32>| GridPoint3D { x: q[0], y: q[1], z: q[2] })
}

impl BoardNeighborManager<GridPoint3D<i32>> for NeighborsGridSurround {
    open spec fn neighbors_defined(&self, p: GridPoint3D<i32>) -> bool {
        self.surround_defined(seq![p.x, p.y, p.z])
    }

    open spec fn spec_neighbors(&self, p: GridPoint3D<i32>) -> Seq<GridPoint3D<i32>> {
        to_points_3d(self.surround(seq![p.x, p.y, p.z]))
    }

    fn get_neighbors_idx(&self, idx: &GridPoint3D<i32>) -> (r: Vec<GridPoint3D<i32>>) {
        let nd = idx.to_nd();
        let pts = self.calc_grid_point_surrounding(&nd);
        let ghost target = to_points_3d(views(pts@));
        let mut r: Vec<GridPoint3D<i32>> = Vec::new();
        let n = pts.len();
        for i in 0..n
            invariant
                n == pts@.len(),
                forall|j: int| 0 <= j < n ==> (#[trigger] pts@[j])@.len() == nd@.len(),
                nd@.len() == 3,
                target == to_points_3d(views(pts@)),
                r@ == target.subrange(0, i as int),
        {
            match pts[i].to_3d() {
                Some(q) => {
                    r.push(q);
                },
                None => {
                    assert(false);
                },
            }
            assert(r@ =~= target.subrange(0, i + 1));
        }
        assert(r@ == target);
        assert(views(r@) =~= r@);
        r
    }
}

/// The points of `pts` as 2D points.
pub open spec fn to_points_2d(pts: Seq<Seq<i32>>) -> Seq<GridPoint2D<i32>> {
    pts.map_values(|q: Seq<i32>| GridPoint2D { x: q[0], y: q[1] })
}

impl BoardNeighborManager<GridPoint2D<i32>> for NeighborsGridSurround {
    open spec fn neighbors_defined(&self, p: GridPoint2D<i32>) -> bool {
        self.surround_defined(seq![p.x, p.y])
    }

    open spec fn spec_neighbors(&self, p: GridPoint2D<i32>) -> Seq<GridPoint2D<i32>> {
        to_points_2d(self.surround(seq![p.x, p.y]))
    }

    fn get_neighbors_idx(&self, idx: &GridPoint2D<i32>) -> (r: Vec<GridPoint2D<i32>>) {
        let nd = idx.to_nd();
        let pts = self.calc_grid_point_surrounding(&nd);
        let ghost target = to_points_2d(views(pts@));
        let mut r: Vec<GridPoint2D<i32>> = Vec::new();
        let n = pts.len();
        for i in 0..n
            invariant
                n == pts@.len(),
                forall|j: int| 0 <= j < n ==> (#[trigger] pts@[j])@.len() == nd@.len(),
                nd@.len() == 2,
                target == to_points_2d(views(pts@)),
                r@ == target.subrange(0, i as int),
        {
            match pts[i].to_2d() {
                Some(q) => {
                    r.push(q);
                },
                None => {
                    assert(false);
                },
            }
            assert(r@ =~= target.subrange(0, i + 1));
        }
        assert(r@ == target);
        assert(views(r@) =~= r@);
        r
    }
}

/// The points of `pts` as 1D points.
pub open spec fn to_points_1d(pts: Seq<Seq<i32>>) -> Seq<GridPoint1D<i32>> {
    pts.map_values(|q: Seq<i32>| GridPoint1D { x: q[0] })
}

impl BoardNeighborManager<GridPoint1D<i32>> for NeighborsGridSurround {
    open spec fn neighbors_defined(&self, p: GridPoint1D<i32>) -> bool {
        self.surround_defined(seq![p.x])
    }

    open spec fn spec_neighbors(&self, p: GridPoint1D<i32>) -> Seq<GridPoint1D<i32>> {
        to_points_1d(self.surround(seq![p.x]))
    }

    fn get_neighbors_idx(&self, idx: &GridPoint1D<i32>) -> (r: Vec<GridPoint1D<i32>>) {
        let nd = idx.to_nd();
        let pts = self.calc_grid_point_surrounding(&nd);
        let ghost target = to_points_1d(views(pts@));
        let mut r: Vec<GridPoint1D<i32>> = Vec::new();
        let n = pts.len();
        for i in 0..n
            invariant
                n == pts@.len(),
                forall|j: int| 0 <= j < n ==> (#[trigger] pts@[j])@.len() == nd@.len(),
                nd@.len() == 1,
                target == to_points_1d(views(pts@)),
                r@ == target.subrange(0, i as int),
        {
            match pts[i].to_1d() {
                Some(q) => {
                    r.push(q);
                },
                None => {
                    assert(false);
                },
            }
            assert(r@ =~= target.subrange(0, i + 1));
        }
        assert(r@ == target);
        assert(views(r@) =~= r@);
        r
    }
}

/// With a margin of one on both sides of both axes, the neighbours of a
/// two-dimensional cell are the Moore neighbours: the same eight cells,
/// each once, in another order.
pub proof fn lemma_surround_one_is_moore(s: NeighborsGridSurround, p: GridPoint2D<i32>)
    requires
        <NeighborsGridSurround as BoardNeighborManager<GridPoint2D<i32>>>::neighbors_defined(&s, p),
        s.margin_at(0) == (1usize, 1usize),
        s.margin_at(1) == (1usize, 1usize),
        crate::neighbors::shift_ok(p.x, 1),
        crate::neighbors::shift_ok(p.y, 1),
    ensures
        ({
            let nb = <NeighborsGridSurround as BoardNeighborManager<GridPoint2D<i32>>>::spec_neighbors(&s, p);
            let moore = <NeighborMoore as BoardNeighborManager<GridPoint2D<i32>>>::spec_neighbors(
                &NeighborMoore {  },
                p,
            );
            &&& nb.len() == 8
            &&& nb.no_duplicates()
            &&& nb.to_set() == moore.to_set()
        }),
{
    let c = seq![p.x, p.y];
    let sur = s.surround(c);
    let nb = to_points_2d(sur);
    let moore = <NeighborMoore as BoardNeighborManager<GridPoint2D<i32>>>::spec_neighbors(
        &NeighborMoore {  },
        p,
    );
    s.lemma_surround_count(c);
    s.lemma_surround_within_margins(c);
    crate::neighbors::moore::lemma_moore_2d_around(NeighborMoore {  }, p);
    let lens = s.lens(c);
    assert(lens[0] == 3 && lens[1] == 3);
    assert(lens.drop_last().drop_last().len() == 0);
    assert(volume(lens.drop_last()) == volume(lens.drop_last().drop_last()) * lens[0]);
    assert(volume(lens) == volume(lens.drop_last()) * lens[1]);
    assert(nb.len() == 8);
    assert forall|i: int| 0 <= i < nb.len() implies moore.contains(#[trigger] nb[i]) by {
        let q = sur[i];
        assert(q.len() == 2);
        assert(nb[i] == GridPoint2D { x: q[0], y: q[1] });
        if nb[i] == p {
            assert(q =~= c);
        }
    }
    assert(nb.no_duplicates()) by {
        assert forall|a: int, b: int| 0 <= a < b < nb.len() implies nb[a] != nb[b] by {
            assert(sur[a].len() == 2 && sur[b].len() == 2);
            if nb[a] == nb[b] {
                assert(sur[a] =~= sur[b]);
            }
        }
    }
    nb.unique_seq_to_set();
    moore.unique_seq_to_set();
    assert(nb.to_set().subset_of(moore.to_set()));
    vstd::set_lib::lemma_subset_equality(nb.to_set(), moore.to_set());
}

/// With a margin of one on both sides of each of three axes, the neighbours
/// of a three-dimensional cell are the Moore neighbours: the same
/// twenty-six cells, each once, in another order.
pub proof fn lemma_surround_one_is_moore_3d(s: NeighborsGridSurround, p: GridPoint3D<i32>)
    requires
        <NeighborsGridSurround as BoardNeighborManager<GridPoint3D<i32>>>::neighbors_defined(&s, p),
        s.margin_at(0) == (1usize, 1usize),
        s.margin_at(1) == (1usize, 1usize),
        s.margin_at(2) == (1usize, 1usize),
        crate::neighbors::shift_ok(p.x, 1),
        crate::neighbors::shift_ok(p.y, 1),
        crate::neighbors::shift_ok(p.z, 1),
    ensures
        ({
            let nb = <NeighborsGridSurround as BoardNeighborManager<GridPoint3D<i32>>>::spec_neighbors(&s, p);
            let moore = <NeighborMoore as BoardNeighborManager<GridPoint3D<i32>>>::spec_neighbors(
                &NeighborMoore {  },
                p,
            );
            &&& nb.len() == 26
            &&& nb.no_duplicates()
            &&& nb.to_set() == moore.to_set()
        }),
{
    let c = seq![p.x, p.y, p.z];
    let sur = s.surround(c);
    let nb = to_points_3d(sur);
    let moore = <NeighborMoore as BoardNeighborManager<GridPoint3D<i32>>>::spec_neighbors(
        &NeighborMoore {  },
        p,
    );
    s.lemma_surround_count(c);
    s.lemma_surround_within_margins(c);
    crate::neighbors::moore::lemma_moore_3d_around(NeighborMoore {  }, p);
    let lens = s.lens(c);
    assert(lens[0] == 3 && lens[1] == 3 && lens[2] == 3);
    assert(lens.drop_last().drop_last().drop_last().len() == 0);
    assert(volume(lens.drop_last().drop_last()) == volume(lens.drop_last().drop_last().drop_last())
        * lens[0]);
    assert(volume(lens.drop_last()) == volume(lens.drop_last().drop_last()) * lens[1]);
    assert(volume(lens) == volume(lens.drop_last()) * lens[2]);
    assert(nb.len() == 26);
    assert forall|i: int| 0 <= i < nb.len() implies moore.contains(#[trigger] nb[i]) by {
        let q = sur[i];
        assert(q.len() == 3);
        assert(nb[i] == GridPoint3D { x: q[0], y: q[1], z: q[2] });
        if nb[i] == p {
            assert(q =~= c);
        }
    }
    assert(nb.no_duplicates()) by {
        assert forall|a: int, b: int| 0 <= a < b < nb.len() implies nb[a] != nb[b] by {
            assert(sur[a].len() == 3 && sur[b].len() == 3);
            if nb[a] == nb[b] {
                assert(sur[a] =~= sur[b]);
            }
        }
    }
    nb.unique_seq_to_set();
    moore.unique_seq_to_set();
    assert(nb.to_set().subset_of(moore.to_set()));
    vstd::set_lib::lemma_subset_equality(nb.to_set(), moore.to_set());
}

/// With a margin of one on both sides, the neighbours of a one-dimensional
/// cell are the Moore neighbours: the two cells next to it.
pub proof fn lemma_surround_one_is_moore_1d(s: NeighborsGridSurround, p: GridPoint1D<i32>)
    requires
        <NeighborsGridSurround as BoardNeighborManager<GridPoint1D<i32>>>::neighbors_defined(&s, p),
        s.margin_at(0) == (1usize, 1usize),
        crate::neighbors::shift_ok(p.x, 1),
    ensures
        ({
            let nb = <NeighborsGridSurround as BoardNeighborManager<GridPoint1D<i32>>>::spec_neighbors(&s, p);
            let moore = <NeighborMoore as BoardNeighborManager<GridPoint1D<i32>>>::spec_neighbors(
                &NeighborMoore {  },
                p,
            );
            &&& nb.len() == 2
            &&& nb.no_duplicates()
            &&& nb.to_set() == moore.to_set()
        }),
{
    let c = seq![p.x];
    let sur = s.surround(c);
    let nb = to_points_1d(sur);
    let moore = <NeighborMoore as BoardNeighborManager<GridPoint1D<i32>>>::spec_neighbors(
        &NeighborMoore {  },
        p,
    );
    s.lemma_surround_count(c);
    s.lemma_surround_within_margins(c);
    crate::neighbors::moore::lemma_moore_1d_around(NeighborMoore {  }, p);
    let lens = s.lens(c);
    assert(lens[0] == 3);
    assert(lens.drop_last().len() == 0);
    assert(volume(lens) == volume(lens.drop_last()) * lens[0]);
    assert(nb.len() == 2);
    assert forall|i: int| 0 <= i < nb.len() implies moore.contains(#[trigger] nb[i]) by {
        let q = sur[i];
        assert(q.len() == 1);
        assert(nb[i] == GridPoint1D { x: q[0] });
        if nb[i] == p {
            assert(q =~= c);
        }
    }
    assert(nb.no_duplicates()) by {
        assert forall|a: int, b: int| 0 <= a < b < nb.len() implies nb[a] != nb[b] by {
            assert(sur[a].len() == 1 && sur[b].len() == 1);
            if nb[a] == nb[b] {
                assert(sur[a] =~= sur[b]);
            }
        }
    }
    nb.unique_seq_to_set();
    moore.unique_seq_to_set();
    assert(nb.to_set().subset_of(moore.to_set()));
    vstd::set_lib::lemma_subset_equality(nb.to_set(), moore.to_set());
}


/// The same margin `m` on both sides of every axis, given once (`new`) or
/// once per axis (`new_with_variable_margin` with `(m, m)` for each of the
/// point's axes), gives the same neighbours of every point, and leaves them
/// computable for the same points.
pub proof fn lemma_surround_uniform_margin(
    a: NeighborsGridSurround,
    b: NeighborsGridSurround,
    m: usize,
    p: Seq<i32>,
)
    requires
        a.spec_is_infinite(),
        a.spec_margins() == seq![(m, m)],
        !b.spec_is_infinite(),
        b.spec_margins() == Seq::new(p.len(), |k: int| (m, m)),
        p.len() >= 1,
    ensures
        a.surround_defined(p) == b.surround_defined(p),
        a.surround(p) == b.surround(p),
{
    assert forall|k: int|
        #![trigger a.margin_at(k)]
        #![trigger b.margin_at(k)]
        0 <= k < p.len() implies a.margin_at(k) == b.margin_at(k) by {}
    assert(a.los(p) =~= b.los(p));
    assert(a.lens(p) =~= b.lens(p));
}

} // verus!
