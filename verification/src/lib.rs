//! Move engine of a word-placement board game: the tile bag, the board with
//! its premium squares, and the validation and scoring of a move.

pub mod adjacency;
pub mod bag;
pub mod board;
pub mod engine;
pub mod game;
pub mod tile;
