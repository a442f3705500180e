//! The server side: the grid, terrain generation, sessions and the
//! coordinator that runs the game.

pub mod chance;
pub mod config;
pub mod coordinator;
pub mod visibility;
pub mod generator;
pub mod grid;
pub mod player;
pub mod tick;
