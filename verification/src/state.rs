//! Cell states.

use vstd::prelude::*;

verus! {

/// The state of a cell that is either alive or dead.
#[derive(Clone, Copy, Debug, PartialEq, Eq, Structural, Hash)]
pub enum BinaryState {
    Alive,
    Dead,
}

/// The two states of John Conway's Game of Life.
#[derive(Clone, Copy, Debug, PartialEq, Eq, Structural, Hash)]
pub enum ConwayState {
    Alive,
    Dead,
}

/// A state out of `N` discrete levels, `N - 1` being fully alive and `0`
/// fully decayed.
#[derive(Clone, Copy, Debug)]
pub struct DiscreteState<const N: usize> {
    val: u8,
}

impl<const N: usize> DiscreteState<N> {
    pub closed spec fn spec_val(&self) -> u8 {
        self.val
    }

    /// A fully alive state, of value `N - 1`.
    pub fn new() -> (r: Self)
        requires
            1 <= N <= 256,
        ensures
            r.spec_val() == N - 1,
    {
        Self { val: (N - 1) as u8 }
    }

    pub fn val(&self) -> (r: &u8)
        ensures
            *r == self.spec_val(),
    {
        &self.val
    }

    /// The state one level lower, or the same state at level zero.
    pub fn decay(&self) -> (r: Self)
        ensures
            self.spec_val() == 0 ==> r.spec_val() == 0,
            self.spec_val() > 0 ==> r.spec_val() == self.spec_val() - 1,
    {
        if *self.val() == 0 {
            *self
        } else {
            Self { val: self.val - 1 }
        }
    }
}

/// A cell that holds a state, for boards that keep cells rather than states.
pub trait Cell<T>: Sized {
    fn new_from_state(state: T) -> Self;

    fn state(&self) -> &T;

    fn set_state(&mut self, new_state: T);
}

/// A cell state that can be compared with another.
pub trait CellState: Copy + Sized {
    fn same_state(&self, other: &Self) -> (r: bool)
        ensures
            r == (*self == *other),
    ;
}

impl CellState for BinaryState {
    fn same_state(&self, other: &Self) -> (r: bool) {
        match (self, other) {
            (BinaryState::Alive, BinaryState::Alive) => true,
            (BinaryState::Dead, BinaryState::Dead) => true,
            _ => false,
        }
    }
}

impl CellState for ConwayState {
    fn same_state(&self, other: &Self) -> (r: bool) {
        match (self, other) {
            (ConwayState::Alive, ConwayState::Alive) => true,
            (ConwayState::Dead, ConwayState::Dead) => true,
            _ => false,
        }
    }
}

impl CellState for u8 {
    fn same_state(&self, other: &Self) -> (r: bool) {
        *self == *other
    }
}

} // verus!
