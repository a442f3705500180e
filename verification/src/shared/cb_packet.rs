//! What the server tells a client.

use vstd::prelude::*;
use super::game_state::GameState;
use super::map_view::{MapView, MapViewModel};
use super::player::{PlayerId, PlayerView, PlayerViewModel};
use super::Color;

verus! {

#[derive(Debug)]
pub enum CBPacket {
    LoginAccepted(LoginAccepted),
    MapSync(MapSync),
    SyncPlayers(SyncPlayers),
    SetGameState(GameState),
    MovementConfirmed(MovementConfirmed),
}

#[derive(Debug)]
pub struct MapSync {
    pub map: MapView,
}

#[derive(Debug, Clone, Copy, PartialEq, Eq, Structural)]
pub struct LoginAccepted {
    pub player_id: PlayerId,
    pub color: Color,
}

#[derive(Debug)]
pub struct SyncPlayers {
    pub players: Vec<PlayerView>,
}

/// A path has been resolved up to the cell at index `valid_until`.
#[derive(Debug, Clone, Copy, PartialEq, Eq, Structural)]
pub struct MovementConfirmed {
    pub path_id: u32,
    pub valid_until: u32,
}

/// The mathematical content of a [`CBPacket`].
pub ghost enum CBPacketModel {
    LoginAccepted(LoginAccepted),
    MapSync(MapViewModel),
    SyncPlayers(Seq<PlayerViewModel>),
    SetGameState(GameState),
    MovementConfirmed(MovementConfirmed),
}

/// The content of each view of a roster, in order.
pub open spec fn roster_model(players: Seq<PlayerView>) -> Seq<PlayerViewModel> {
    players.map_values(|p: PlayerView| p@)
}

impl View for CBPacket {
    type V = CBPacketModel;

    open spec fn view(&self) -> CBPacketModel {
        match *self {
            CBPacket::LoginAccepted(accepted) => CBPacketModel::LoginAccepted(accepted),
            CBPacket::MapSync(sync) => CBPacketModel::MapSync(sync.map@),
            CBPacket::SyncPlayers(sync) => CBPacketModel::SyncPlayers(roster_model(sync.players@)),
            CBPacket::SetGameState(state) => CBPacketModel::SetGameState(state),
            CBPacket::MovementConfirmed(confirmed) => CBPacketModel::MovementConfirmed(
                confirmed,
            ),
        }
    }
}

} // verus!
