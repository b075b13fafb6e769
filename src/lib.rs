//! Generation of Latin-square game boards.
//!
//! A board is an `n`×`n` grid of tiles `0..n` in which every row and every
//! column holds each tile exactly once. The library builds the canonical
//! board, rotates square grids in place by a quarter turn, and shuffles a
//! board with an injected random source while keeping it a Latin square.

pub mod grid;
pub mod rotate;
pub mod latin;
pub mod board;
pub mod randomize;
pub mod render;
