//! Grid indices in one, two, three and any number of dimensions.

use vstd::prelude::*;

verus! {

/// Conversion of a fixed-dimension point into an N-dimensional one.
pub trait ToGridPointND<T: Copy>: Sized {
    /// The coordinates of the point, first dimension first.
    spec fn coords(&self) -> Seq<T>;

    fn to_nd(&self) -> (r: GridPointND<T>)
        ensures
            r@ == self.coords(),
    ;
}

#[derive(Clone, Copy, Debug, PartialEq, Eq, Structural, Hash)]
pub struct GridPoint1D<T> {
    pub x: T,
}

#[derive(Clone, Copy, Debug, PartialEq, Eq, Structural, Hash)]
pub struct GridPoint2D<T> {
    pub x: T,
    pub y: T,
}

#[derive(Clone, Copy, Debug, PartialEq, Eq, Structural, Hash)]
pub struct GridPoint3D<T> {
    pub x: T,
    pub y: T,
    pub z: T,
}

/// A point with any number of coordinates.
#[derive(Clone, Debug, Hash)]
pub struct GridPointND<T> {
    indices: Vec<T>,
}

impl<T> View for GridPoint1D<T> {
    type V = GridPoint1D<T>;

    open spec fn view(&self) -> GridPoint1D<T> {
        *self
    }
}

impl<T> View for GridPoint2D<T> {
    type V = GridPoint2D<T>;

    open spec fn view(&self) -> GridPoint2D<T> {
        *self
    }
}

impl<T> View for GridPoint3D<T> {
    type V = GridPoint3D<T>;

    open spec fn view(&self) -> GridPoint3D<T> {
        *self
    }
}

impl<T> View for GridPointND<T> {
    type V = Seq<T>;

    closed spec fn view(&self) -> Seq<T> {
        self.indices@
    }
}

impl<T: Copy> ToGridPointND<T> for GridPoint1D<T> {
    open spec fn coords(&self) -> Seq<T> {
        seq![self.x]
    }

    fn to_nd(&self) -> (r: GridPointND<T>) {
        let v = vec![self.x];
        GridPointND::new(v.as_slice())
    }
}

impl<T: Copy> ToGridPointND<T> for GridPoint2D<T> {
    open spec fn coords(&self) -> Seq<T> {
        seq![self.x, self.y]
    }

    fn to_nd(&self) -> (r: GridPointND<T>) {
        let v = vec![self.x, self.y];
        GridPointND::new(v.as_slice())
    }
}

impl<T: Copy> ToGridPointND<T> for GridPoint3D<T> {
    open spec fn coords(&self) -> Seq<T> {
        seq![self.x, self.y, self.z]
    }

    fn to_nd(&self) -> (r: GridPointND<T>) {
        let v = vec![self.x, self.y, self.z];
        GridPointND::new(v.as_slice())
    }
}

impl<T: Copy> GridPointND<T> {
    /// A point with the given coordinates, in order.
    pub fn new(indices: &[T]) -> (r: Self)
        ensures
            r@ == indices@,
    {
        let mut v: Vec<T> = Vec::new();
        let n = indices.len();
        for i in 0..n
            invariant
                n == indices@.len(),
                v@ == indices@.subrange(0, i as int),
        {
            v.push(indices[i]);
        }
        assert(v@ == indices@);
        Self { indices: v }
    }

    /// The coordinates, in order.
    pub fn indices(&self) -> (r: &[T])
        ensures
            r@ == self@,
    {
        self.indices.as_slice()
    }

    /// The point as a one-dimensional point, if it has exactly one coordinate.
    pub fn to_1d(&self) -> (r: Option<GridPoint1D<T>>)
        ensures
            r is Some <==> self@.len() == 1,
            r matches Some(p) ==> p.coords() == self@,
    {
        if self.indices.len() == 1 {
            Some(GridPoint1D { x: self.indices[0] })
        } else {
            None
        }
    }

    /// The point as a two-dimensional point, if it has exactly two coordinates.
    pub fn to_2d(&self) -> (r: Option<GridPoint2D<T>>)
        ensures
            r is Some <==> self@.len() == 2,
            r matches Some(p) ==> p.coords() == self@,
    {
        if self.indices.len() == 2 {
            Some(GridPoint2D { x: self.indices[0], y: self.indices[1] })
        } else {
            None
        }
    }

    /// The point as a three-dimensional point, if it has exactly three coordinates.
    pub fn to_3d(&self) -> (r: Option<GridPoint3D<T>>)
        ensures
            r is Some <==> self@.len() == 3,
            r matches Some(p) ==> p.coords() == self@,
    {
        if self.indices.len() == 3 {
            Some(GridPoint3D { x: self.indices[0], y: self.indices[1], z: self.indices[2] })
        } else {
            None
        }
    }
}

/// A point converted to N dimensions and back is the point it was: the
/// conversion back gives a point with the coordinates of the N-dimensional
/// point (`to_1d`, `to_2d`, `to_3d`), which are those of the starting point
/// (`to_nd`), and a point is determined by its coordinates.
pub proof fn lemma_nd_round_trip<T: Copy>(
    p1: GridPoint1D<T>,
    q1: GridPoint1D<T>,
    p2: GridPoint2D<T>,
    q2: GridPoint2D<T>,
    p3: GridPoint3D<T>,
    q3: GridPoint3D<T>,
)
    ensures
        q1.coords() == p1.coords() ==> q1 == p1,
        q2.coords() == p2.coords() ==> q2 == p2,
        q3.coords() == p3.coords() ==> q3 == p3,
{
    if q1.coords() == p1.coords() {
        assert(q1.coords()[0] == p1.coords()[0]);
    }
    if q2.coords() == p2.coords() {
        assert(q2.coords()[0] == p2.coords()[0]);
        assert(q2.coords()[1] == p2.coords()[1]);
    }
    if q3.coords() == p3.coords() {
        assert(q3.coords()[0] == p3.coords()[0]);
        assert(q3.coords()[1] == p3.coords()[1]);
        assert(q3.coords()[2] == p3.coords()[2]);
    }
}

/// Equality of N-dimensional points as this library defines it: the
/// coordinates agree on every dimension that both points have.
pub open spec fn nd_points_agree<T>(a: Seq<T>, b: Seq<T>) -> bool {
    forall|i: int| 0 <= i < a.len() && i < b.len() ==> #[trigger] a[i] == b[i]
}

impl PartialEq for GridPointND<i32> {
    fn eq(&self, other: &Self) -> (r: bool) {
        let n = if self.indices.len() < other.indices.len() {
            self.indices.len()
        } else {
            other.indices.len()
        };
        let mut i: usize = 0;
        while i < n
            invariant
                n <= self@.len(),
                n <= other@.len(),
                n == self@.len() || n == other@.len(),
                i <= n,
                forall|j: int| 0 <= j < i ==> self@[j] == other@[j],
            decreases n - i,
        {
            if self.indices[i] != other.indices[i] {
                return false;
            }
            i = i + 1;
        }
        true
    }
}

impl vstd::std_specs::cmp::PartialEqSpecImpl for GridPointND<i32> {
    open spec fn obeys_eq_spec() -> bool {
        true
    }

    open spec fn eq_spec(&self, other: &Self) -> bool {
        nd_points_agree(self@, other@)
    }
}

impl<T> GridPoint3D<T> {
    pub fn new(x: T, y: T, z: T) -> (r: Self)
        ensures
            r == (GridPoint3D { x, y, z }),
    {
        Self { x, y, z }
    }
}

impl<T> GridPoint2D<T> {
    pub fn new(x: T, y: T) -> (r: Self)
        ensures
            r == (GridPoint2D { x, y }),
    {
        Self { x, y }
    }
}

impl<T> GridPoint1D<T> {
    pub fn new(x: T) -> (r: Self)
        ensures
            r == (GridPoint1D { x }),
    {
        Self { x }
    }
}

/// A cell index that can be compared and duplicated by its view.
pub trait CellIndex: View + Sized {
    fn same_index(&self, other: &Self) -> (r: bool)
        ensures
            r == (self@ == other@),
    ;

    fn copy_index(&self) -> (r: Self)
        ensures
            r@ == self@,
    ;
}

impl CellIndex for GridPoint1D<i32> {
    fn same_index(&self, other: &Self) -> (r: bool) {
        self.x == other.x
    }

    fn copy_index(&self) -> (r: Self) {
        *self
    }
}

impl CellIndex for GridPoint2D<i32> {
    fn same_index(&self, other: &Self) -> (r: bool) {
        self.x == other.x && self.y == other.y
    }

    fn copy_index(&self) -> (r: Self) {
        *self
    }
}

impl CellIndex for GridPoint3D<i32> {
    fn same_index(&self, other: &Self) -> (r: bool) {
        self.x == other.x && self.y == other.y && self.z == other.z
    }

    fn copy_index(&self) -> (r: Self) {
        *self
    }
}

impl CellIndex for GridPointND<i32> {
    fn same_index(&self, other: &Self) -> (r: bool) {
        if self.indices.len() != other.indices.len() {
            return false;
        }
        let n = self.indices.len();
        for i in 0..n
            invariant
                n == self@.len(),
                n == other@.len(),
                forall|j: int| 0 <= j < i ==> self@[j] == other@[j],
        {
            if self.indices[i] != other.indices[i] {
                return false;
            }
        }
        assert(self@ =~= other@);
        true
    }

    fn copy_index(&self) -> (r: Self) {
        GridPointND::new(self.indices())
    }
}

} // verus!
