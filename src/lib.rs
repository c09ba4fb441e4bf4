//! Rules and evaluation engine for five-in-a-row on a square grid.
//!
//! The board owns its cells and a precomputed adjacency table; the rule
//! checker owns the board, indexes every five-cell line (a window), detects
//! finished games and keeps a running position score that it patches on
//! each move by looking only at the windows through the changed cell, which
//! it finds by walking the board's links into a `SliceDeque`.
pub mod cross_point;
pub mod utils;
pub mod board;
pub mod evaluation_dfa;
pub mod tuple;
pub mod window;
pub mod rule_checker;
pub mod board_controller;
pub mod segment;
