//! Conway's Game of Life on a fixed-size grid with a dead border.
//!
//! - [`Cell`] is the state of one position.
//! - [`Coord`] is a position, and knows its neighbours.
//! - [`Grid`] holds the cells and computes the next generation.
//! - [`Board`] is the mathematical model of a grid in which the contracts
//!   are stated.

pub mod board;
pub mod cell;
pub mod grid;
pub mod math;

pub use board::Board;
pub use cell::Cell;
pub use grid::Grid;
pub use math::{Coord, Neighbors};
