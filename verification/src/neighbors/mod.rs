//! Neighbourhood rules: which cells count as neighbours of a cell.

use vstd::prelude::*;

pub mod grid_donut;
pub mod grid_surround;
pub mod moore;
pub mod moore_donut;
pub mod moore_triangle;

verus! {

/// Computes the neighbours of a cell index; indices are compared by their views.
pub trait BoardNeighborManager<CI: View>: Sized {
    /// The indices whose neighbours the rule can compute.
    spec fn neighbors_defined(&self, idx: CI::V) -> bool;

    /// The neighbours of `idx`, in the order the rule lists them.
    spec fn spec_neighbors(&self, idx: CI::V) -> Seq<CI::V>;

    fn get_neighbors_idx(&self, idx: &CI) -> (r: Vec<CI>)
        requires
            self.neighbors_defined(idx@),
        ensures
            views(r@) == self.spec_neighbors(idx@),
    ;
}

/// A neighbourhood rule that can tell, before listing them, whether the
/// neighbours of an index can be computed.
pub trait CheckedNeighbors<CI: View>: BoardNeighborManager<CI> {
    fn can_list_neighbors(&self, idx: &CI) -> (r: bool)
        ensures
            r == self.neighbors_defined(idx@),
    ;
}

/// The views of a sequence of indices.
pub open spec fn views<CI: View>(s: Seq<CI>) -> Seq<CI::V> {
    s.map_values(|c: CI| c@)
}

/// `v + d` as an `i32`, for offsets that stay in range.
pub open spec fn shift(v: i32, d: int) -> i32 {
    (v + d) as i32
}

/// Whether `v + d` is an `i32` for every `d` in `-m..=m`.
pub open spec fn shift_ok(v: i32, m: int) -> bool {
    i32::MIN <= v - m && v + m <= i32::MAX
}

} // verus!
