//! What a client knows of the game and what packets and input do to that
//! knowledge. Drawing and the connection are not its business.

use vstd::prelude::*;
use std::collections::HashMap;
use crate::shared::cb_packet::{roster_model, CBPacket};
use crate::shared::game_state::GameState;
use crate::shared::map_view::{MapView, MapViewModel};
use crate::shared::path::{Path, PathModel};
use crate::shared::player::{PlayerView, PlayerViewModel};
use crate::shared::sb_packet::{paths_model, SBPacket, UpdatePaths};

verus! {

broadcast use vstd::std_specs::hash::group_hash_axioms;

/// The state of a client.
pub struct Game {
    /// The view of the map that the server sent last.
    pub map: Option<MapView>,
    pub selected_cell: Option<usize>,
    /// The path that the keys extend.
    pub selected_path: Option<u32>,
    pub players: Vec<PlayerView>,
    pub paths: HashMap<u32, Path>,
    /// The id that the next new path gets.
    pub next_path_id: u32,
    pub game_state: GameState,
    pub player_name: String,
    /// Whether the server has accepted the login.
    pub connected: bool,
}

/// The mathematical content of a [`Game`].
pub ghost struct GameModel {
    pub map: Option<MapViewModel>,
    pub selected_cell: Option<usize>,
    pub selected_path: Option<u32>,
    pub players: Seq<PlayerViewModel>,
    pub paths: Map<u32, PathModel>,
    pub next_path_id: u32,
    pub game_state: GameState,
    pub player_name: Seq<char>,
    pub connected: bool,
}

impl View for Game {
    type V = GameModel;

    open spec fn view(&self) -> GameModel {
        GameModel {
            map: match self.map {
                Some(map) => Some(map@),
                None => None,
            },
            selected_cell: self.selected_cell,
            selected_path: self.selected_path,
            players: roster_model(self.players@),
            paths: paths_model(self.paths@),
            next_path_id: self.next_path_id,
            game_state: self.game_state,
            player_name: self.player_name@,
            connected: self.connected,
        }
    }
}

/// The cell that the key `key` leads to from the cell `current` on a grid of
/// `width` by `height`: `w` goes up a row, `s` down, `a` a column to the
/// left, `d` to the right. There is none at the edge of the grid, for any
/// other key, and where the cell has no index.
pub open spec fn key_target(width: int, height: int, current: int, key: char) -> Option<usize> {
    if width <= 0 {
        None
    } else {
        let x = current % width;
        let y = current / width;
        let target = if key == 'w' && y > 0 {
            Some(current - width)
        } else if key == 's' && y + 1 < height {
            Some(current + width)
        } else if key == 'a' && x > 0 {
            Some(current - 1)
        } else if key == 'd' && x + 1 < width {
            Some(current + 1)
        } else {
            None
        };
        match target {
            Some(cell) => if 0 <= cell <= usize::MAX {
                Some(cell as usize)
            } else {
                None
            },
            None => None,
        }
    }
}

/// The path that a key press extends: the selected one, where the client
/// has it and the new cell has room in it.
pub open spec fn extended_path(game: GameModel, cell: usize) -> Option<u32> {
    match game.selected_path {
        Some(id) => if game.paths.contains_key(id) && cell <= u32::MAX {
            Some(id)
        } else {
            None
        },
        None => None,
    }
}

/// A path with one more cell at its end.
pub open spec fn lengthened(path: PathModel, cell: usize) -> PathModel {
    PathModel { tiles: path.tiles.push(cell as u32), ..path }
}

/// The client after the selection moved to `cell` by a key press: the cell
/// is selected, and the selected path has it at its end.
pub open spec fn moved_to(game: GameModel, cell: usize) -> GameModel {
    GameModel {
        selected_cell: Some(cell),
        paths: match extended_path(game, cell) {
            Some(id) => game.paths.insert(id, lengthened(game.paths[id], cell)),
            None => game.paths,
        },
        ..game
    }
}

/// The id after `id`, for the next new path. It starts over after the
/// largest.
pub open spec fn following_id(id: u32) -> u32 {
    if id == u32::MAX {
        0
    } else {
        (id + 1) as u32
    }
}

/// The client after a click on `cell`: a new path begins there and is
/// selected, as the cell is. A cell whose index has no room in a path is
/// selected and begins none.
pub open spec fn clicked(game: GameModel, cell: usize) -> GameModel {
    if cell <= u32::MAX {
        GameModel {
            selected_cell: Some(cell),
            selected_path: Some(game.next_path_id),
            paths: game.paths.insert(
                game.next_path_id,
                PathModel { tiles: seq![cell as u32], cursor: 0 },
            ),
            next_path_id: following_id(game.next_path_id),
            ..game
        }
    } else {
        GameModel { selected_cell: Some(cell), ..game }
    }
}

/// The client after the server has confirmed the path `path_id` up to
/// `valid_until`.
pub open spec fn confirmed(game: GameModel, path_id: u32, valid_until: u32) -> GameModel {
    if game.paths.contains_key(path_id) {
        GameModel {
            paths: game.paths.insert(
                path_id,
                PathModel { cursor: valid_until, ..game.paths[path_id] },
            ),
            ..game
        }
    } else {
        game
    }
}

/// The client after a packet from the server.
pub open spec fn received(game: GameModel, packet: CBPacket) -> GameModel {
    match packet {
        CBPacket::LoginAccepted(_) => GameModel { connected: true, ..game },
        CBPacket::MapSync(sync) => GameModel { map: Some(sync.map@), ..game },
        CBPacket::SyncPlayers(sync) => GameModel {
            players: roster_model(sync.players@),
            ..game
        },
        CBPacket::SetGameState(state) => GameModel { game_state: state, ..game },
        CBPacket::MovementConfirmed(moved) => confirmed(game, moved.path_id, moved.valid_until),
    }
}

/// The packet that tells the server of the path `path_id` alone.
pub open spec fn tells_of(packet: Option<SBPacket>, path_id: u32, path: PathModel) -> bool {
    match packet {
        Some(SBPacket::UpdatePaths(update)) => paths_model(update.paths@) == Map::<
            u32,
            PathModel,
        >::empty().insert(path_id, path),
        _ => false,
    }
}

/// A cell that is not in the first row has a whole row before it.
proof fn lemma_rows_below(current: int, width: int)
    requires
        current >= 0,
        width > 0,
        current / width > 0,
    ensures
        current >= width,
{
    vstd::arithmetic::div_mod::lemma_fundamental_div_mod(current, width);
    let rows = current / width;
    let rest = current % width;
    assert(width * rows >= width) by (nonlinear_arith)
        requires
            rows >= 1,
            width > 0,
    ;
}

impl Game {
    /// A client that knows nothing yet: no map, nobody playing, no paths,
    /// in the lobby and not logged in.
    pub fn new() -> (game: Game)
        ensures
            game@ == (GameModel {
                map: None,
                selected_cell: None,
                selected_path: None,
                players: Seq::<PlayerViewModel>::empty(),
                paths: Map::<u32, PathModel>::empty(),
                next_path_id: 0,
                game_state: GameState::Lobby,
                player_name: Seq::<char>::empty(),
                connected: false,
            }),
    {
        let game = Game {
            map: None,
            selected_cell: None,
            selected_path: None,
            players: Vec::new(),
            paths: HashMap::new(),
            next_path_id: 0,
            game_state: GameState::Lobby,
            player_name: String::new(),
            connected: false,
        };
        assert(game@.players =~= Seq::<PlayerViewModel>::empty());
        assert(game@.paths =~= Map::<u32, PathModel>::empty());
        game
    }

    /// Notes that the server has resolved the path `path_id` up to
    /// `valid_until`. A path that the client does not have is passed over.
    pub fn handle_movement_confirmed(&mut self, path_id: u32, valid_until: u32)
        ensures
            final(self)@ == confirmed(old(self)@, path_id, valid_until),
    {
        let ghost before = self.paths@;
        match self.paths.remove(&path_id) {
            None => {
                assert(self.paths@ =~= before);
            },
            Some(path) => {
                self.paths.insert(path_id, Path { tile_ids: path.tile_ids, valid_until });
                assert(paths_model(self.paths@) =~= paths_model(before).insert(
                    path_id,
                    PathModel { cursor: valid_until, ..before[path_id]@ },
                ));
            },
        }
    }

    /// Takes a packet from the server. An accepted login is answered by
    /// asking for the map.
    pub fn handle_packet(&mut self, packet: CBPacket) -> (reply: Option<SBPacket>)
        ensures
            final(self)@ == received(old(self)@, packet),
            packet is LoginAccepted ==> reply matches Some(SBPacket::GiveMeMap),
            !(packet is LoginAccepted) ==> reply is None,
    {
        match packet {
            CBPacket::LoginAccepted(_) => {
                self.connected = true;
                Some(SBPacket::GiveMeMap)
            },
            CBPacket::MapSync(sync) => {
                self.map = Some(sync.map);
                None
            },
            CBPacket::SyncPlayers(sync) => {
                self.players = sync.players;
                None
            },
            CBPacket::SetGameState(state) => {
                self.game_state = state;
                None
            },
            CBPacket::MovementConfirmed(moved) => {
                self.handle_movement_confirmed(moved.path_id, moved.valid_until);
                None
            },
        }
    }

    /// Moves the selection by one cell for the key `key` and puts the new
    /// cell at the end of the selected path. Without a map, without a
    /// selected cell, and where the key leads nowhere, nothing happens.
    /// Says whether the selection moved, and hands back the packet that
    /// tells the server of the path that grew.
    pub fn handle_wasd(&mut self, key: char) -> (outcome: (bool, Option<SBPacket>))
        ensures
            match (old(self)@.map, old(self)@.selected_cell) {
                (Some(map), Some(current)) => match key_target(
                    map.width as int,
                    map.height as int,
                    current as int,
                    key,
                ) {
                    Some(cell) => outcome.0 && final(self)@ == moved_to(old(self)@, cell) && (
                    match extended_path(old(self)@, cell) {
                        Some(id) => tells_of(outcome.1, id, final(self)@.paths[id]),
                        None => outcome.1 is None,
                    }),
                    None => !outcome.0 && outcome.1 is None && final(self)@ == old(self)@,
                },
                _ => !outcome.0 && outcome.1 is None && final(self)@ == old(self)@,
            },
    {
        let (width, height) = match &self.map {
            Some(map) => (map.width, map.height),
            None => {
                return (false, None);
            },
        };
        let current = match self.selected_cell {
            Some(current) => current,
            None => {
                return (false, None);
            },
        };
        if width == 0 {
            return (false, None);
        }
        let x = current % width;
        let y = current / width;
        let target: Option<usize> = if key == 'w' && y > 0 {
            proof {
                lemma_rows_below(current as int, width as int);
            }
            Some(current - width)
        } else if key == 's' && y < height && y + 1 < height {
            current.checked_add(width)
        } else if key == 'a' && x > 0 {
            proof {
                if current == 0 {
                    vstd::arithmetic::div_mod::lemma_small_mod(0, width as nat);
                }
            }
            Some(current - 1)
        } else if key == 'd' && x < width && x + 1 < width {
            current.checked_add(1)
        } else {
            None
        };
        let cell = match target {
            Some(cell) => cell,
            None => {
                return (false, None);
            },
        };
        self.selected_cell = Some(cell);
        let path_id = match self.selected_path {
            Some(path_id) => path_id,
            None => {
                return (true, None);
            },
        };
        if cell > u32::MAX as usize {
            return (true, None);
        }
        let ghost before = self.paths@;
        match self.paths.remove(&path_id) {
            None => {
                assert(self.paths@ =~= before);
                (true, None)
            },
            Some(path) => {
                let mut path = path;
                path.tile_ids.push(cell as u32);
                let copy = Path { tile_ids: path.tile_ids.clone(), valid_until: path.valid_until };
                self.paths.insert(path_id, path);
                assert(paths_model(self.paths@) =~= paths_model(before).insert(
                    path_id,
                    lengthened(before[path_id]@, cell),
                ));
                let mut paths: HashMap<u32, Path> = HashMap::new();
                paths.insert(path_id, copy);
                assert(paths_model(paths@) =~= Map::<u32, PathModel>::empty().insert(
                    path_id,
                    copy@,
                ));
                (true, Some(SBPacket::UpdatePaths(UpdatePaths { paths })))
            },
        }
    }

    /// Selects `cell` after a click on it and begins a new path there,
    /// which is selected too. Hands back the packet that tells the server
    /// of the new path.
    pub fn handle_click(&mut self, cell: usize) -> (packet: Option<SBPacket>)
        ensures
            final(self)@ == clicked(old(self)@, cell),
            cell <= u32::MAX ==> tells_of(
                packet,
                old(self)@.next_path_id,
                PathModel { tiles: seq![cell as u32], cursor: 0 },
            ),
            cell > u32::MAX ==> packet is None,
    {
        self.selected_cell = Some(cell);
        if cell > u32::MAX as usize {
            return None;
        }
        let path_id = self.next_path_id;
        self.next_path_id = if path_id == u32::MAX {
            0
        } else {
            path_id + 1
        };
        let ghost before = self.paths@;
        let mut tiles: Vec<u32> = Vec::new();
        tiles.push(cell as u32);
        let mut copy: Vec<u32> = Vec::new();
        copy.push(cell as u32);
        self.paths.insert(path_id, Path::new(tiles));
        self.selected_path = Some(path_id);
        assert(paths_model(self.paths@) =~= paths_model(before).insert(
            path_id,
            PathModel { tiles: seq![cell as u32], cursor: 0 },
        ));
        let mut paths: HashMap<u32, Path> = HashMap::new();
        paths.insert(path_id, Path::new(copy));
        assert(paths_model(paths@) =~= Map::<u32, PathModel>::empty().insert(
            path_id,
            PathModel { tiles: seq![cell as u32], cursor: 0 },
        ));
        Some(SBPacket::UpdatePaths(UpdatePaths { paths }))
    }
}

} // verus!
