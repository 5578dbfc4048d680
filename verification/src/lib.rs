//! A Connect-N game engine: a rows-by-columns grid into which players drop
//! symbols, with gravity placement and win/tie detection over rows, columns
//! and both diagonals. Rendering and keyboard input are left to callers.

pub mod config;
pub mod game;
