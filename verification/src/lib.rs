//! A generic cellular-automaton engine: grid indices, neighbourhood rules,
//! evolution strategies, sparse state storage and board evolution, together
//! with the persistence helpers used to record and replay runs.

pub mod grid_util;
pub mod index;
pub mod state;
pub mod strategy;
pub mod neighbors;
pub mod board_states;
pub mod board;
pub mod space;
pub mod persistence;
pub mod predefined;
pub mod control;
pub mod callback;
pub mod replay;
pub mod config;
pub mod interval;
