//! What the server is configured with.

use vstd::prelude::*;
use crate::server::generator::{default_terrain_config, TerrainConfig};

verus! {

/// The settings of a server. A growth period of zero switches that growth
/// off.
#[derive(Debug, Clone, Copy, PartialEq, Eq, Structural)]
pub struct Config {
    pub terrain_config: TerrainConfig,
    /// Milliseconds between two ticks.
    pub tick_ms: u64,
    /// Every so many ticks each owned plain tile gains a troop.
    pub tile_growth_tick: u32,
    /// Every so many ticks each owned city or capital gains a troop.
    pub city_growth_tick: u32,
    pub capital_growth_tick: u32,
    /// How far an owned city or capital sees.
    pub city_visibility_radius: usize,
    /// How far any other owned cell sees.
    pub tile_visibility_radius: usize,
    /// Whether mountains out of vision are hidden.
    pub fow_mountains: bool,
    /// Whether swamps out of vision are hidden.
    pub fow_swamps: bool,
}

/// The settings a server has when it is given none.
pub open spec fn default_config() -> Config {
    Config {
        terrain_config: default_terrain_config(),
        tick_ms: 500,
        tile_growth_tick: 25,
        city_growth_tick: 10,
        capital_growth_tick: 5,
        city_visibility_radius: 3,
        tile_visibility_radius: 1,
        fow_mountains: false,
        fow_swamps: false,
    }
}

impl Config {
    pub fn default() -> (config: Config)
        ensures
            config == default_config(),
    {
        Config {
            terrain_config: TerrainConfig::default(),
            tick_ms: 500,
            tile_growth_tick: 25,
            city_growth_tick: 10,
            capital_growth_tick: 5,
            city_visibility_radius: 3,
            tile_visibility_radius: 1,
            fow_mountains: false,
            fow_swamps: false,
        }
    }
}

} // verus!
