//! The space of a board: the list of its cell indices.

use crate::index::{CellIndex, GridPointND};
use crate::neighbors::grid_surround::volume;
use crate::neighbors::views;
use vstd::prelude::*;

verus! {

/// Lists the cells of a board; indices are taken by their views.
pub trait BoardSpaceManager<CI: View>: Sized {
    spec fn spec_indices(&self) -> Seq<CI::V>;

    fn indices_iter(&self) -> (r: Vec<CI>)
        ensures
            views(r@) == self.spec_indices(),
    ;

    fn indices_par_iter(&self) -> (r: Vec<CI>)
        ensures
            views(r@) == self.spec_indices(),
    ;
}

/// The coordinates this grid gives cell number `cur` of a grid of shape
/// `shape`: `cur / shape[0]`, then the same for `cur % shape[0]` on the
/// remaining axes.
pub open spec fn grid_coords(cur: int, shape: Seq<usize>) -> Seq<int>
    decreases shape.len(),
{
    if shape.len() == 0 {
        seq![]
    } else {
        seq![cur / (shape[0] as int)] + grid_coords(cur % (shape[0] as int), shape.drop_first())
    }
}

/// The coordinates of cell number `i`, as `i32` values.
pub open spec fn grid_cell(i: int, shape: Seq<usize>) -> Seq<i32> {
    grid_coords(i, shape).map_values(|c: int| c as i32)
}

/// Whether every coordinate of every cell of `shape` is an `i32` and the
/// product of the first axes, taken one axis at a time, is a `usize`.
pub open spec fn grid_shape_ok(shape: Seq<usize>) -> bool {
    &&& forall|k: int| 0 <= k <= shape.len() ==> #[trigger] volume(shape.subrange(0, k)) <= usize::MAX
    &&& forall|i: int, k: int|
        0 <= i < volume(shape) && 0 <= k < shape.len() ==> #[trigger] grid_coords(i, shape)[k]
            <= i32::MAX
}

proof fn lemma_grid_coords_len(cur: int, shape: Seq<usize>)
    ensures
        grid_coords(cur, shape).len() == shape.len(),
    decreases shape.len(),
{
    if shape.len() > 0 {
        lemma_grid_coords_len(cur % (shape[0] as int), shape.drop_first());
    }
}

proof fn lemma_volume_zero_or_dims_positive(shape: Seq<usize>)
    ensures
        volume(shape) == 0 || forall|k: int| 0 <= k < shape.len() ==> shape[k] >= 1,
        volume(shape) >= 0,
    decreases shape.len(),
{
    if shape.len() > 0 {
        let rest = shape.drop_last();
        lemma_volume_zero_or_dims_positive(rest);
        let a = volume(rest);
        let b = shape.last() as int;
        assert(a * b >= 0) by (nonlinear_arith)
            requires
                a >= 0,
                b >= 0,
        ;
        if a * b != 0 {
            assert(a != 0 && b != 0) by (nonlinear_arith)
                requires
                    a * b != 0,
            ;
            assert forall|k: int| 0 <= k < shape.len() implies shape[k] >= 1 by {
                if k < rest.len() {
                    assert(rest[k] == shape[k]);
                }
            }
        }
    }
}

/// A grid of the given shape; its cells are numbered `0..` the product of
/// the shape and get their coordinates from `grid_coords`.
pub struct GridND {
    indices_cache: Vec<GridPointND<i32>>,
}

impl GridND {
    pub closed spec fn spec_cells(&self) -> Seq<Seq<i32>> {
        views(self.indices_cache@)
    }

    pub fn new(shape: Vec<usize>) -> (r: Self)
        requires
            grid_shape_ok(shape@),
        ensures
            r.spec_cells() == Seq::new(volume(shape@) as nat, |i: int| grid_cell(i, shape@)),
    {
        let indices_cache = Self::indices_vec(&shape);
        Self { indices_cache }
    }

    fn indices_vec(shape: &Vec<usize>) -> (r: Vec<GridPointND<i32>>)
        requires
            grid_shape_ok(shape@),
        ensures
            views(r@) == Seq::new(volume(shape@) as nat, |i: int| grid_cell(i, shape@)),
    {
        let n = shape.len();
        let mut num_cell: usize = 1;
        proof {
            lemma_volume_zero_or_dims_positive(shape@);
        }
        for k in 0..n
            invariant
                n == shape@.len(),
                grid_shape_ok(shape@),
                num_cell as int == volume(shape@.subrange(0, k as int)),
                volume(shape@) == 0 || forall|j: int| 0 <= j < n ==> shape@[j] >= 1,
        {
            proof {
                let s = shape@.subrange(0, k + 1);
                assert(s.drop_last() == shape@.subrange(0, k as int));
                assert(volume(shape@.subrange(0, k + 1)) <= usize::MAX);
            }
            num_cell = num_cell * shape[k];
        }
        assert(shape@.subrange(0, n as int) == shape@);
        assert(volume(shape@) <= usize::MAX) by {
            assert(volume(shape@.subrange(0, n as int)) <= usize::MAX);
        }
        let ghost target = Seq::new(volume(shape@) as nat, |i: int| grid_cell(i, shape@));
        let mut res: Vec<GridPointND<i32>> = Vec::new();
        for i in 0..num_cell
            invariant
                n == shape@.len(),
                grid_shape_ok(shape@),
                num_cell as int == volume(shape@),
                num_cell > 0 ==> forall|j: int| 0 <= j < n ==> shape@[j] >= 1,
                target == Seq::new(volume(shape@) as nat, |i: int| grid_cell(i, shape@)),
                views(res@) == target.subrange(0, i as int),
        {
            let mut coords: Vec<i32> = Vec::new();
            let mut cur: usize = i;
            let ghost all = grid_coords(i as int, shape@);
            let ghost mut done: Seq<int> = seq![];
            proof {
                lemma_grid_coords_len(i as int, shape@);
                assert(shape@.skip(0) == shape@);
            }
            for k in 0..n
                invariant
                    n == shape@.len(),
                    grid_shape_ok(shape@),
                    0 <= i < volume(shape@),
                    forall|j: int| 0 <= j < n ==> shape@[j] >= 1,
                    all == grid_coords(i as int, shape@),
                    all.len() == n,
                    done.len() == k,
                    all == done + grid_coords(cur as int, shape@.skip(k as int)),
                    coords@.len() == k,
                    forall|j: int| 0 <= j < k ==> coords@[j] == all[j] as i32,
            {
                let dim = shape[k];
                proof {
                    let rest = shape@.skip(k as int);
                    assert(rest[0] == dim);
                    assert(rest.drop_first() == shape@.skip(k + 1));
                    assert(all == (done + seq![(cur / dim) as int]) + grid_coords(
                        (cur % dim) as int,
                        shape@.skip(k + 1),
                    ));
                    assert(all[k as int] == (cur / dim) as int);
                    assert(grid_coords(i as int, shape@)[k as int] <= i32::MAX);
                }
                let c = (cur / dim) as i32;
                let ghost prev = coords@;
                coords.push(c);
                assert(coords@ == prev.push(c));
                proof {
                    done = done + seq![(cur / dim) as int];
                }
                cur = cur % dim;
            }
            proof {
                assert(shape@.skip(n as int).len() == 0);
                assert(all == done);
                assert(coords@ =~= grid_cell(i as int, shape@));
            }
            let g = GridPointND::new(coords.as_slice());
            let ghost prev = res@;
            res.push(g);
            proof {
                assert(res@ == prev.push(g));
                assert(views(res@) =~= views(prev).push(g@));
                assert(views(res@) =~= target.subrange(0, i + 1));
            }
        }
        assert(target.subrange(0, num_cell as int) == target);
        res
    }
}

impl GridND {
    fn copy_cells(&self) -> (r: Vec<GridPointND<i32>>)
        ensures
            views(r@) == self.spec_cells(),
    {
        let mut r: Vec<GridPointND<i32>> = Vec::new();
        let n = self.indices_cache.len();
        for i in 0..n
            invariant
                n == self.indices_cache@.len(),
                views(r@) == views(self.indices_cache@).subrange(0, i as int),
        {
            let g = self.indices_cache[i].copy_index();
            let ghost prev = r@;
            r.push(g);
            proof {
                assert(r@ == prev.push(g));
                assert(views(r@) =~= views(prev).push(g@));
                assert(views(r@) =~= views(self.indices_cache@).subrange(0, i + 1));
            }
        }
        assert(views(self.indices_cache@).subrange(0, n as int) == views(self.indices_cache@));
        r
    }
}

impl BoardSpaceManager<GridPointND<i32>> for GridND {
    open spec fn spec_indices(&self) -> Seq<Seq<i32>> {
        self.spec_cells()
    }

    fn indices_iter(&self) -> (r: Vec<GridPointND<i32>>) {
        self.copy_cells()
    }

    fn indices_par_iter(&self) -> (r: Vec<GridPointND<i32>>) {
        self.copy_cells()
    }
}

} // verus!
