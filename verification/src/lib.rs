//! A depth-bounded game-tree search engine for four-in-a-row on a grid of
//! seven rows and nine columns.
pub mod bits;
pub mod board;
pub mod driver;
pub mod lines;
pub mod position;
pub mod solver;
pub mod table;
