//! Sizes of one-, two- and three-dimensional grids centred on the origin.

use vstd::prelude::*;

verus! {

/// Rust's `/` on signed integers: division rounding towards zero.
pub open spec fn trunc_div(a: int, b: int) -> int
    recommends b > 0,
{
    if a >= 0 {
        a / b
    } else {
        -((-a) / b)
    }
}

/// The smallest index along a dimension of `len` cells: `-(len as i64) / 2`.
pub open spec fn spec_dim_idx_min(len: usize) -> int {
    trunc_div(-((len as i64) as int), 2)
}

/// The largest index along a dimension of `len` cells:
/// `len as i64 + dim_idx_min(len) - 1`.
pub open spec fn spec_dim_idx_max(len: usize) -> int {
    (len as i64) as int + spec_dim_idx_min(len) - 1
}

/// The one value of `len` on which `-(len as i64)` overflows.
pub open spec fn dim_len_ok(len: usize) -> bool {
    (len as i64) != i64::MIN
}

/// The indices along a dimension of `len` cells run from its smallest to its
/// largest index and number exactly `len`; for a dimension of at least one
/// cell they include the origin, with the extra cell of an even length on
/// the negative side.
pub proof fn lemma_axis_covers_len(len: usize)
    requires
        len <= i64::MAX,
    ensures
        spec_dim_idx_max(len) - spec_dim_idx_min(len) + 1 == len,
        len >= 1 ==> spec_dim_idx_min(len) <= 0 <= spec_dim_idx_max(len),
        spec_dim_idx_min(len) == -(len / 2),
{
    assert((len as i64) as int == len);
}

fn dim_idx_min(len: usize) -> (r: i64)
    requires
        dim_len_ok(len),
    ensures
        r as int == spec_dim_idx_min(len),
{
    let x = len as i64;
    let neg = -x;
    neg / 2
}

fn dim_idx_max(len: usize) -> (r: i64)
    requires
        dim_len_ok(len),
    ensures
        r as int == spec_dim_idx_max(len),
{
    let x = len as i64;
    let m = dim_idx_min(len);
    x + m - 1
}

/// A one-dimensional grid size.
#[derive(Clone, Copy, Debug)]
pub struct Size1D {
    width: usize,
}

impl Size1D {
    pub closed spec fn spec_width(&self) -> usize {
        self.width
    }

    pub fn new(width: usize) -> (r: Self)
        ensures
            r.spec_width() == width,
    {
        Self { width }
    }

    pub fn width(&self) -> (r: usize)
        ensures
            r == self.spec_width(),
    {
        self.width
    }

    pub fn x_idx_min(&self) -> (r: i64)
        requires
            dim_len_ok(self.spec_width()),
        ensures
            r as int == spec_dim_idx_min(self.spec_width()),
    {
        dim_idx_min(self.width())
    }

    pub fn x_idx_max(&self) -> (r: i64)
        requires
            dim_len_ok(self.spec_width()),
        ensures
            r as int == spec_dim_idx_max(self.spec_width()),
    {
        dim_idx_max(self.width())
    }
}

/// A 2-dimensional grid size.
#[derive(Clone, Copy, Debug)]
pub struct Size2D {
    width: usize,
    height: usize,
}

impl Size2D {
    pub closed spec fn spec_width(&self) -> usize {
        self.width
    }

    pub closed spec fn spec_height(&self) -> usize {
        self.height
    }

    pub fn new(width: usize, height: usize) -> (r: Self)
        ensures
            r.spec_width() == width,
            r.spec_height() == height,
    {
        Self { width, height }
    }

    pub fn width(&self) -> (r: usize)
        ensures
            r == self.spec_width(),
    {
        self.width
    }

    pub fn height(&self) -> (r: usize)
        ensures
            r == self.spec_height(),
    {
        self.height
    }

    pub fn x_idx_min(&self) -> (r: i64)
        requires
            dim_len_ok(self.spec_width()),
        ensures
            r as int == spec_dim_idx_min(self.spec_width()),
    {
        dim_idx_min(self.width())
    }

    pub fn x_idx_max(&self) -> (r: i64)
        requires
            dim_len_ok(self.spec_width()),
        ensures
            r as int == spec_dim_idx_max(self.spec_width()),
    {
        dim_idx_max(self.width())
    }

    pub fn y_idx_min(&self) -> (r: i64)
        requires
            dim_len_ok(self.spec_height()),
        ensures
            r as int == spec_dim_idx_min(self.spec_height()),
    {
        dim_idx_min(self.height())
    }

    pub fn y_idx_max(&self) -> (r: i64)
        requires
            dim_len_ok(self.spec_height()),
        ensures
            r as int == spec_dim_idx_max(self.spec_height()),
    {
        dim_idx_max(self.height())
    }
}

/// A 3-dimensional grid size.
#[derive(Clone, Copy, Debug)]
pub struct Size3D {
    width: usize,
    height: usize,
    depth: usize,
}

impl Size3D {
    pub closed spec fn spec_width(&self) -> usize {
        self.width
    }

    pub closed spec fn spec_height(&self) -> usize {
        self.height
    }

    pub closed spec fn spec_depth(&self) -> usize {
        self.depth
    }

    pub fn new(width: usize, height: usize, depth: usize) -> (r: Self)
        ensures
            r.spec_width() == width,
            r.spec_height() == height,
            r.spec_depth() == depth,
    {
        Self { width, height, depth }
    }

    pub fn width(&self) -> (r: usize)
        ensures
            r == self.spec_width(),
    {
        self.width
    }

    pub fn height(&self) -> (r: usize)
        ensures
            r == self.spec_height(),
    {
        self.height
    }

    pub fn depth(&self) -> (r: usize)
        ensures
            r == self.spec_depth(),
    {
        self.depth
    }

    pub fn x_idx_min(&self) -> (r: i64)
        requires
            dim_len_ok(self.spec_width()),
        ensures
            r as int == spec_dim_idx_min(self.spec_width()),
    {
        dim_idx_min(self.width())
    }

    pub fn x_idx_max(&self) -> (r: i64)
        requires
            dim_len_ok(self.spec_width()),
        ensures
            r as int == spec_dim_idx_max(self.spec_width()),
    {
        dim_idx_max(self.width())
    }

    pub fn y_idx_min(&self) -> (r: i64)
        requires
            dim_len_ok(self.spec_height()),
        ensures
            r as int == spec_dim_idx_min(self.spec_height()),
    {
        dim_idx_min(self.height())
    }

    pub fn y_idx_max(&self) -> (r: i64)
        requires
            dim_len_ok(self.spec_height()),
        ensures
            r as int == spec_dim_idx_max(self.spec_height()),
    {
        dim_idx_max(self.height())
    }

    pub fn z_idx_min(&self) -> (r: i64)
        requires
            dim_len_ok(self.spec_depth()),
        ensures
            r as int == spec_dim_idx_min(self.spec_depth()),
    {
        dim_idx_min(self.depth())
    }

    pub fn z_idx_max(&self) -> (r: i64)
        requires
            dim_len_ok(self.spec_depth()),
        ensures
            r as int == spec_dim_idx_max(self.spec_depth()),
    {
        dim_idx_max(self.depth())
    }
}

} // verus!
