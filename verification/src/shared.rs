//! Types that both ends of a connection speak: terrain, paths, the two packet
//! families and the framing of byte messages.

use vstd::prelude::*;

pub mod terrain;
pub mod game_state;
pub mod player;
pub mod path;
pub mod map_view;
pub mod cb_packet;
pub mod sb_packet;
pub mod packet;


pub use cb_packet::CBPacket;
pub use map_view::MapView;
pub use packet::{read_len_prefixed, write_len_prefixed};

pub use player::PlayerView;
pub use sb_packet::SBPacket;

pub use terrain::Terrain;

verus! {

/// An RGBA colour, one byte per channel.
#[derive(Debug, Clone, Copy, PartialEq, Eq, Structural)]
pub struct Color {
    pub r: u8,
    pub g: u8,
    pub b: u8,
    pub a: u8,
}

} // verus!
