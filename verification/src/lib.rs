//! The authoritative simulation engine of a grid-based territory-conquest
//! game: the grid of cells, the per-player fog-of-war projection, path-driven
//! battle resolution, and the coordinator that ties sessions, phase and ticks
//! together. Every function carries a contract that Verus proves.

pub mod shared;
pub mod client;
pub mod server;
