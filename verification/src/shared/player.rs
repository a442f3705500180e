use vstd::prelude::*;
use super::Color;

verus! {

/// The identity of a player session: the 128 bits of its UUID.
pub type PlayerId = u128;

/// What every session is told about a player.
#[derive(Debug, Clone)]
pub struct PlayerView {
    pub id: PlayerId,
    pub name: String,
    pub color: Color,
    pub alive: bool,
}

/// The mathematical content of a [`PlayerView`].
pub ghost struct PlayerViewModel {
    pub id: PlayerId,
    pub name: Seq<char>,
    pub color: Color,
    pub alive: bool,
}

impl View for PlayerView {
    type V = PlayerViewModel;

    open spec fn view(&self) -> PlayerViewModel {
        PlayerViewModel { id: self.id, name: self.name@, color: self.color, alive: self.alive }
    }
}

} // verus!
