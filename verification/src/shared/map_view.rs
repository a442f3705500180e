use vstd::prelude::*;
use std::collections::HashMap;
use super::player::PlayerId;
use super::terrain::Terrain;

verus! {

/// One cell as a player is allowed to see it.
#[derive(Debug, Clone, Copy, PartialEq, Eq, Structural)]
pub struct Cell {
    pub terrain: Terrain,
    pub troops: u32,
    pub owner_id: Option<PlayerId>,
    pub fog_of_war: bool,
}

/// The part of the grid that one player is shown, keyed by cell index.
#[derive(Debug)]
pub struct MapView {
    pub width: usize,
    pub height: usize,
    pub cells: HashMap<usize, Cell>,
}

/// The mathematical content of a [`MapView`].
pub ghost struct MapViewModel {
    pub width: usize,
    pub height: usize,
    pub cells: Map<usize, Cell>,
}

impl View for MapView {
    type V = MapViewModel;

    open spec fn view(&self) -> MapViewModel {
        MapViewModel { width: self.width, height: self.height, cells: self.cells@ }
    }
}

} // verus!
