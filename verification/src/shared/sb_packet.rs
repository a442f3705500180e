//! What a client tells the server.

use vstd::prelude::*;
use std::collections::HashMap;
use super::path::{Path, PathModel};
use super::Color;

verus! {

#[derive(Debug, Clone)]
pub enum SBPacket {
    Login(Login),
    GiveMeMap,
    UpdatePaths(UpdatePaths),
    StartGame,
}

#[derive(Debug, Clone)]
pub struct Login {
    pub username: String,
    pub color_bid: Option<Color>,
}

#[derive(Debug, Clone)]
pub struct UpdatePaths {
    pub paths: HashMap<u32, Path>,
}

/// The routes of a set of paths, by path id.
pub open spec fn routes_of(paths: Map<u32, Path>) -> Map<u32, Seq<u32>> {
    paths.map_values(|path: Path| path@.tiles)
}

/// The content of each path of a set, by path id.
pub open spec fn paths_model(paths: Map<u32, Path>) -> Map<u32, PathModel> {
    paths.map_values(|path: Path| path@)
}

} // verus!
