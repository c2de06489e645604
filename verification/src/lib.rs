//! Connect Four for two players: a grid into which pieces drop, the rules of
//! a game on it, the picture of the grid as text, and the reading of a
//! player's input.

pub mod piece;
pub mod text;
pub mod field;
pub mod input;
pub mod game;
pub mod render;
