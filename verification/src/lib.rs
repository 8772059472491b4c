//! An edge-matching tiling puzzle solver.
//!
//! A puzzle instance is a fixed list of square tiles, each side labeled with a
//! color. The solver searches for an arrangement of all tiles on an `n`-by-`n`
//! board such that every pair of touching sides carries the same color.

pub mod grid;
pub mod laws;
pub mod puzzle;
pub mod search;
pub mod tile;

pub use grid::Grid;
pub use puzzle::Puzzle;
pub use search::search;
pub use search::solve;
pub use search::SolveError;
pub use tile::Block;
pub use tile::Color;
