use vstd::prelude::*;

verus! {

/// What a cell of the grid is made of.
#[derive(Clone, Copy, Debug, PartialEq, Eq, Structural)]
pub enum Terrain {
    Default,
    Mountain,
    Swamp,
    Desert,
    City,
    Capital,
}

} // verus!
