//! A fifteen-tile sliding puzzle engine.
//!
//! Sixteen slots form a four by four grid, numbered row by row. Fifteen of
//! them hold the tiles 1 to 15 and one is empty; a move slides a tile from a
//! slot beside the empty one into it.

pub mod grid;
pub mod board;
pub mod random;
pub mod shuffle;
pub mod text;
pub mod setup;
pub mod render;
pub mod game;
