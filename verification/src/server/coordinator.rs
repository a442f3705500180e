//! The coordinator: it owns the grid, the roster of sessions and the phase
//! of the game, and decides what every event does to them.

use vstd::prelude::*;
use crate::server::chance::fresh_player_id;
use crate::server::config::Config;
use crate::server::grid::{
    battle_cells, battle_defeated, battle_ends_game, capital_cell, capital_falls, count_capitals,
    lemma_battle_capitals, lemma_capital_capture_transfers, lemma_mountain_blocks, released_cell,
    Cell, Grid,
};
use crate::server::player::{
    action_of, after_packet, public_face, PacketAction, Player, PlayerModel,
};
use crate::server::visibility::visible_cells;
use crate::shared::cb_packet::{
    roster_model, CBPacket, CBPacketModel, LoginAccepted, MapSync, SyncPlayers,
};
use crate::shared::game_state::GameState;
use crate::shared::map_view::MapViewModel;
use crate::shared::player::{PlayerId, PlayerView, PlayerViewModel};
use crate::shared::sb_packet::{Login, SBPacket};
use crate::shared::terrain::Terrain;
use crate::shared::Color;

verus! {

/// The state of a game: the grid, the sessions in the order in which they
/// joined, the phase, the number of ticks so far, and the settings.
pub struct Server {
    pub players: Vec<Player>,
    pub map: Grid,
    pub game_state: GameState,
    pub tick_counter: u32,
    pub config: Config,
}

/// The mathematical content of a [`Server`].
pub ghost struct ServerModel {
    pub cells: Seq<Cell>,
    pub width: usize,
    pub height: usize,
    pub players: Seq<PlayerModel>,
    pub game_state: GameState,
    pub tick_counter: u32,
    pub config: Config,
}

/// The content of each session of a roster, in order.
pub open spec fn sessions_model(players: Seq<Player>) -> Seq<PlayerModel> {
    players.map_values(|player: Player| player@)
}

impl View for Server {
    type V = ServerModel;

    open spec fn view(&self) -> ServerModel {
        ServerModel {
            cells: self.map@,
            width: self.map.spec_width(),
            height: self.map.spec_height(),
            players: sessions_model(self.players@),
            game_state: self.game_state,
            tick_counter: self.tick_counter,
            config: self.config,
        }
    }
}

/// A session with one more packet queued.
pub open spec fn sent(player: PlayerModel, packet: CBPacketModel) -> PlayerModel {
    PlayerModel { outbox: player.outbox.push(packet), ..player }
}

/// The roster after `packet` was queued for every session.
pub open spec fn broadcast(players: Seq<PlayerModel>, packet: CBPacketModel) -> Seq<PlayerModel> {
    players.map_values(|player: PlayerModel| sent(player, packet))
}

/// The phase that a request for `requested` leads to: the lobby can start a
/// game, anything that is not over can end, and a game that is over stays
/// over.
pub open spec fn next_phase(current: GameState, requested: GameState) -> GameState {
    if current == GameState::GameOver {
        GameState::GameOver
    } else if requested == GameState::GameOver {
        GameState::GameOver
    } else if current == GameState::Lobby && requested == GameState::InGame {
        GameState::InGame
    } else {
        current
    }
}

/// The game after `requested` was asked for: where that changes the phase,
/// every session is told the new one.
pub open spec fn with_phase(game: ServerModel, requested: GameState) -> ServerModel {
    let phase = next_phase(game.game_state, requested);
    if phase == game.game_state {
        game
    } else {
        ServerModel {
            game_state: phase,
            players: broadcast(game.players, CBPacketModel::SetGameState(phase)),
            ..game
        }
    }
}

/// The roster after the player `defeated`, if any, was put out of the game.
pub open spec fn eliminated(players: Seq<PlayerModel>, defeated: Option<PlayerId>) -> Seq<
    PlayerModel,
> {
    players.map_values(
        |player: PlayerModel|
            if defeated == Some(player.id) {
                PlayerModel { alive: false, ..player }
            } else {
                player
            },
    )
}

/// The game after troops moved from cell `a` onto cell `d`: the grid as
/// the battle leaves it, the owner of a fallen capital out of the game, and
/// the game over where that left a single capital.
pub open spec fn fought(game: ServerModel, a: int, d: int) -> ServerModel {
    let after = ServerModel {
        cells: battle_cells(game.cells, a, d),
        players: eliminated(game.players, battle_defeated(game.cells, a, d)),
        ..game
    };
    if battle_ends_game(game.cells, a, d) {
        with_phase(after, GameState::GameOver)
    } else {
        after
    }
}

/// What every session is told about the players of a roster, in order.
pub open spec fn roster_of(players: Seq<PlayerModel>) -> Seq<PlayerViewModel> {
    players.map_values(|player: PlayerModel| public_face(player))
}

/// The view of the map that `player` is entitled to: every cell for someone
/// who is out of the game, what their cells see for someone who is in it.
pub open spec fn view_for(game: ServerModel, player: PlayerModel) -> MapViewModel {
    MapViewModel {
        width: game.width,
        height: game.height,
        cells: visible_cells(game.cells, game.width as int, game.config, player.id, !player.alive),
    }
}

/// The game after every session was sent its view of the map.
pub open spec fn synced(game: ServerModel) -> ServerModel {
    ServerModel {
        players: game.players.map_values(
            |player: PlayerModel| sent(player, CBPacketModel::MapSync(view_for(game, player))),
        ),
        ..game
    }
}

/// Session `i` is the first of the roster with the identity `id`.
pub open spec fn is_first_with(players: Seq<PlayerModel>, id: PlayerId, i: int) -> bool {
    &&& 0 <= i < players.len()
    &&& players[i].id == id
    &&& forall|k: int| 0 <= k < i ==> (#[trigger] players[k]).id != id
}

/// The index of the first session with the identity `id`, if there is one.
pub open spec fn first_with(players: Seq<PlayerModel>, id: PlayerId) -> Option<int> {
    if exists|i: int| is_first_with(players, id, i) {
        Some(choose|i: int| is_first_with(players, id, i))
    } else {
        None
    }
}

/// A session once its player has given a name and, perhaps, a colour.
pub open spec fn named(player: PlayerModel, username: Seq<char>, color_bid: Option<Color>)
    -> PlayerModel {
    PlayerModel {
        name: username,
        color: match color_bid {
            Some(color) => color,
            None => player.color,
        },
        ..player
    }
}

/// The game after `player` has joined it, with their capital on the cell
/// `capital` if they were given one. Who joins a game that is running is
/// out of it from the start. The newcomer is told that they are in and is
/// sent their view of the map; then every session is told who is playing
/// and what the phase is.
pub open spec fn joined(game: ServerModel, player: PlayerModel, capital: Option<usize>)
    -> ServerModel {
    let late = game.game_state == GameState::InGame;
    let newcomer = PlayerModel { alive: player.alive && !late, ..player };
    let seated = ServerModel {
        cells: match capital {
            Some(cell) => game.cells.update(cell as int, capital_cell(player.id)),
            None => game.cells,
        },
        ..game
    };
    let welcomed = sent(
        sent(
            newcomer,
            CBPacketModel::LoginAccepted(
                LoginAccepted { player_id: newcomer.id, color: newcomer.color },
            ),
        ),
        CBPacketModel::MapSync(view_for(seated, newcomer)),
    );
    let players = game.players.push(welcomed);
    ServerModel {
        players: broadcast(
            broadcast(players, CBPacketModel::SyncPlayers(roster_of(players))),
            CBPacketModel::SetGameState(game.game_state),
        ),
        ..seated
    }
}

/// The game after the player `id` has left it: their cells are released,
/// their session is gone, and every session that is left is told who is
/// playing and is sent its view of the map.
pub open spec fn departed(game: ServerModel, id: PlayerId) -> ServerModel {
    let players = match first_with(game.players, id) {
        Some(i) => game.players.remove(i),
        None => game.players,
    };
    synced(
        ServerModel {
            cells: game.cells.map_values(|cell: Cell| released_cell(cell, id)),
            players: broadcast(players, CBPacketModel::SyncPlayers(roster_of(players))),
            ..game
        },
    )
}

/// The game after the player `id` has sent `packet`. A packet from nobody
/// on the roster changes nothing. The player takes the packet first; then
/// their view of the map is sent where they asked for it, and the game
/// starts where they asked for that.
pub open spec fn handled(game: ServerModel, id: PlayerId, packet: SBPacket) -> ServerModel {
    match first_with(game.players, id) {
        None => game,
        Some(i) => {
            let taken = ServerModel {
                players: game.players.update(i, after_packet(game.players[i], packet)),
                ..game
            };
            match action_of(packet) {
                PacketAction::Nothing => taken,
                PacketAction::SendMap => ServerModel {
                    players: taken.players.update(
                        i,
                        sent(
                            taken.players[i],
                            CBPacketModel::MapSync(view_for(taken, taken.players[i])),
                        ),
                    ),
                    ..taken
                },
                PacketAction::StartGame => with_phase(taken, GameState::InGame),
            }
        },
    }
}

/// How a login ended.
#[derive(Debug, Clone, Copy, PartialEq, Eq, Structural)]
pub struct LoginOutcome {
    /// Whether the player is on the roster now. A login under an identity
    /// that is on the roster already is ignored.
    pub accepted: bool,
    /// The cell of the capital that the player was given.
    pub capital: Option<usize>,
}

/// A move onto a mountain changes nothing in the game.
pub proof fn lemma_mountain_move_is_idle(game: ServerModel, a: int, d: int)
    requires
        0 <= d < game.cells.len(),
        game.cells[d].terrain == Terrain::Mountain,
    ensures
        fought(game, a, d) == game,
{
    lemma_mountain_blocks(game.cells, a, d);
    assert(eliminated(game.players, None) =~= game.players);
}

/// When a capital falls, every cell of its owner goes to the attacker, and
/// its owner, and nobody else, is put out of the game.
pub proof fn lemma_capital_capture(game: ServerModel, a: int, d: int)
    requires
        capital_falls(game.cells, a, d),
    ensures
        forall|i: int|
            0 <= i < game.cells.len() && game.cells[i].owner_id == game.cells[d].owner_id ==> (
            #[trigger] fought(game, a, d).cells[i]).owner_id == game.cells[a].owner_id,
        fought(game, a, d).players.len() == game.players.len(),
        forall|k: int|
            0 <= k < game.players.len() ==> (#[trigger] fought(game, a, d).players[k]).alive == (
            game.players[k].alive && Some(game.players[k].id) != game.cells[d].owner_id),
{
    lemma_capital_capture_transfers(game.cells, a, d);
}

/// A move that brings the capitals down to one ends the game.
pub proof fn lemma_last_capital_ends_game(game: ServerModel, a: int, d: int)
    requires
        count_capitals(game.cells) >= 2,
        count_capitals(fought(game, a, d).cells) == 1,
    ensures
        fought(game, a, d).game_state == GameState::GameOver,
{
    lemma_battle_capitals(game.cells, a, d);
}

/// A game that is over stays over, whatever is asked of it: a phase, a
/// battle, a packet, a login or a departure.
pub proof fn lemma_game_over_is_final(
    game: ServerModel,
    requested: GameState,
    a: int,
    d: int,
    id: PlayerId,
    packet: SBPacket,
    player: PlayerModel,
    capital: Option<usize>,
)
    requires
        game.game_state == GameState::GameOver,
    ensures
        with_phase(game, requested) == game,
        fought(game, a, d).game_state == GameState::GameOver,
        handled(game, id, packet).game_state == GameState::GameOver,
        joined(game, player, capital).game_state == GameState::GameOver,
        departed(game, id).game_state == GameState::GameOver,
{
}

/// Where some session has the identity `id`, one of them is the first.
pub proof fn lemma_first_with_exists(players: Seq<PlayerModel>, id: PlayerId, k: int)
    requires
        0 <= k < players.len(),
        players[k].id == id,
    ensures
        first_with(players, id) is Some,
        is_first_with(players, id, first_with(players, id)->0),
    decreases k,
{
    if forall|j: int| 0 <= j < k ==> (#[trigger] players[j]).id != id {
        assert(is_first_with(players, id, k));
    } else {
        let j = choose|j: int| 0 <= j < k && (#[trigger] players[j]).id == id;
        lemma_first_with_exists(players, id, j);
    }
}

/// No two sessions of the roster have the same identity.
pub open spec fn distinct_ids(players: Seq<PlayerModel>) -> bool {
    forall|i: int, j: int|
        0 <= i < j < players.len() ==> (#[trigger] players[i]).id != (#[trigger] players[j]).id
}

/// A roster without two sessions of one identity stays that way, whatever
/// happens to the game: a phase is asked for, a battle is fought, a packet
/// arrives, a player leaves, or a player joins whose identity is not on
/// the roster.
pub proof fn lemma_roster_stays_distinct(
    game: ServerModel,
    requested: GameState,
    a: int,
    d: int,
    id: PlayerId,
    packet: SBPacket,
    player: PlayerModel,
    capital: Option<usize>,
)
    requires
        distinct_ids(game.players),
    ensures
        distinct_ids(with_phase(game, requested).players),
        distinct_ids(fought(game, a, d).players),
        distinct_ids(handled(game, id, packet).players),
        distinct_ids(departed(game, id).players),
        first_with(game.players, player.id) is None ==> distinct_ids(
            joined(game, player, capital).players,
        ),
{
    let phased = with_phase(game, requested).players;
    assert forall|i: int, j: int| 0 <= i < j < phased.len() implies (#[trigger] phased[i]).id != (
    #[trigger] phased[j]).id by {
        assert(phased[i].id == game.players[i].id && phased[j].id == game.players[j].id);
    }
    let after = fought(game, a, d).players;
    assert forall|i: int, j: int| 0 <= i < j < after.len() implies (#[trigger] after[i]).id != (
    #[trigger] after[j]).id by {
        assert(after[i].id == game.players[i].id && after[j].id == game.players[j].id);
    }
    let served = handled(game, id, packet).players;
    assert(served.len() == game.players.len());
    assert forall|i: int, j: int| 0 <= i < j < served.len() implies (#[trigger] served[i]).id != (
    #[trigger] served[j]).id by {
        assert(served[i].id == game.players[i].id && served[j].id == game.players[j].id);
    }
    let left = departed(game, id).players;
    let kept = match first_with(game.players, id) {
        Some(i) => game.players.remove(i),
        None => game.players,
    };
    assert(left.len() == kept.len());
    assert forall|i: int, j: int| 0 <= i < j < left.len() implies (#[trigger] left[i]).id != (
    #[trigger] left[j]).id by {
        assert(left[i].id == kept[i].id && left[j].id == kept[j].id);
        match first_with(game.players, id) {
            Some(gone) => {
                let from_i = if i < gone { i } else { i + 1 };
                let from_j = if j < gone { j } else { j + 1 };
                assert(kept[i] == game.players[from_i] && kept[j] == game.players[from_j]);
            },
            None => {},
        }
    }
    if first_with(game.players, player.id) is None {
        let grown = joined(game, player, capital).players;
        assert(grown.len() == game.players.len() + 1);
        assert forall|i: int, j: int| 0 <= i < j < grown.len() implies (#[trigger] grown[i]).id
            != (#[trigger] grown[j]).id by {
            assert(grown[i].id == game.players[i].id);
            if j < game.players.len() {
                assert(grown[j].id == game.players[j].id);
            } else {
                assert(grown[j].id == player.id);
                if game.players[i].id == player.id {
                    lemma_first_with_exists(game.players, player.id, i);
                }
            }
        }
    }
}

impl Server {
    /// A server in the lobby, with nobody connected.
    pub fn new(map: Grid, config: Config) -> (server: Server)
        ensures
            server@ == (ServerModel {
                cells: map@,
                width: map.spec_width(),
                height: map.spec_height(),
                players: Seq::<PlayerModel>::empty(),
                game_state: GameState::Lobby,
                tick_counter: 0,
                config,
            }),
    {
        let server = Server {
            players: Vec::new(),
            map,
            game_state: GameState::Lobby,
            tick_counter: 0,
            config,
        };
        assert(server@.players =~= Seq::<PlayerModel>::empty());
        server
    }

    /// Tells every session that the phase is `phase`.
    fn tell_all_phase(&mut self, phase: GameState)
        ensures
            final(self)@ == (ServerModel {
                players: broadcast(old(self)@.players, CBPacketModel::SetGameState(phase)),
                ..old(self)@
            }),
    {
        let n = self.players.len();
        let ghost before = self@.players;
        let mut i: usize = 0;
        while i < n
            invariant
                i <= n,
                n == self.players.len(),
                before == old(self)@.players,
                before.len() == n,
                self@ == (ServerModel { players: self@.players, ..old(self)@ }),
                forall|k: int|
                    0 <= k < i ==> self@.players[k] == sent(
                        #[trigger] before[k],
                        CBPacketModel::SetGameState(phase),
                    ),
                forall|k: int| i <= k < n ==> self@.players[k] == #[trigger] before[k],
            decreases n - i,
        {
            self.players[i].send_bytes(CBPacket::SetGameState(phase));
            i += 1;
        }
        assert(self@.players =~= broadcast(before, CBPacketModel::SetGameState(phase)));
    }

    /// Queues `packet` for session `i`.
    fn tell(&mut self, i: usize, packet: CBPacket)
        requires
            i < old(self)@.players.len(),
        ensures
            final(self).players.len() == old(self).players.len(),
            final(self)@ == (ServerModel {
                players: old(self)@.players.update(
                    i as int,
                    sent(old(self)@.players[i as int], packet@),
                ),
                ..old(self)@
            }),
    {
        self.players[i].send_bytes(packet);
        assert(self@.players =~= old(self)@.players.update(
            i as int,
            sent(old(self)@.players[i as int], packet@),
        ));
    }

    /// What every session is told about the players, in the order in which
    /// they joined.
    pub fn roster_views(&self) -> (views: Vec<PlayerView>)
        ensures
            roster_model(views@) == roster_of(self@.players),
    {
        let mut views: Vec<PlayerView> = Vec::new();
        let n = self.players.len();
        let mut i: usize = 0;
        while i < n
            invariant
                i <= n,
                n == self.players.len(),
                views.len() == i,
                forall|k: int| 0 <= k < i ==> (#[trigger] views@[k])@ == public_face(self.players@[k]@),
            decreases n - i,
        {
            views.push(self.players[i].to_view());
            i += 1;
        }
        assert(roster_model(views@) =~= roster_of(self@.players));
        views
    }

    /// Tells every session who is playing.
    fn tell_all_roster(&mut self)
        ensures
            final(self)@ == (ServerModel {
                players: broadcast(
                    old(self)@.players,
                    CBPacketModel::SyncPlayers(roster_of(old(self)@.players)),
                ),
                ..old(self)@
            }),
    {
        let n = self.players.len();
        let ghost before = self@.players;
        let ghost roster = roster_of(before);
        let mut i: usize = 0;
        while i < n
            invariant
                i <= n,
                n == self.players.len(),
                before == old(self)@.players,
                before.len() == n,
                roster == roster_of(before),
                self@ == (ServerModel { players: self@.players, ..old(self)@ }),
                forall|k: int|
                    0 <= k < i ==> self@.players[k] == sent(
                        #[trigger] before[k],
                        CBPacketModel::SyncPlayers(roster),
                    ),
                forall|k: int| i <= k < n ==> self@.players[k] == #[trigger] before[k],
            decreases n - i,
        {
            let views = self.roster_views();
            proof {
                assert(roster_of(self@.players) =~= roster) by {
                    assert forall|k: int| 0 <= k < n implies public_face(self@.players[k])
                        == public_face(before[k]) by {
                        let _ = before[k];
                    }
                }
            }
            self.tell(i, CBPacket::SyncPlayers(SyncPlayers { players: views }));
            i += 1;
        }
        assert(self@.players =~= broadcast(before, CBPacketModel::SyncPlayers(roster)));
    }

    /// Sends every session its view of the map.
    pub fn sync_map(&mut self)
        ensures
            final(self)@ == synced(old(self)@),
    {
        let n = self.players.len();
        let ghost before = self@;
        let mut i: usize = 0;
        while i < n
            invariant
                i <= n,
                n == self.players.len(),
                before == old(self)@,
                before.players.len() == n,
                self@ == (ServerModel { players: self@.players, ..before }),
                forall|k: int|
                    0 <= k < i ==> self@.players[k] == sent(
                        #[trigger] before.players[k],
                        CBPacketModel::MapSync(view_for(before, before.players[k])),
                    ),
                forall|k: int| i <= k < n ==> self@.players[k] == #[trigger] before.players[k],
            decreases n - i,
        {
            proof {
                let _ = before.players[i as int];
            }
            let view = self.map.to_map_view(
                self.players[i].id,
                !self.players[i].alive,
                &self.config,
            );
            self.tell(i, CBPacket::MapSync(MapSync { map: view }));
            i += 1;
        }
        assert(self@.players =~= synced(before).players);
    }

    /// The place in the roster of the first session with the identity
    /// `player_id`.
    pub fn position(&self, player_id: PlayerId) -> (place: Option<usize>)
        ensures
            match place {
                Some(i) => first_with(self@.players, player_id) == Some(i as int),
                None => first_with(self@.players, player_id) is None,
            },
            place is Some ==> is_first_with(self@.players, player_id, place->0 as int),
    {
        let n = self.players.len();
        let mut i: usize = 0;
        while i < n
            invariant
                i <= n,
                n == self.players.len(),
                forall|k: int| 0 <= k < i ==> (#[trigger] self@.players[k]).id != player_id,
            decreases n - i,
        {
            if self.players[i].id == player_id {
                proof {
                    assert(is_first_with(self@.players, player_id, i as int));
                    let found = choose|j: int| is_first_with(self@.players, player_id, j);
                    assert(found == i) by {
                        if found < i {
                            let _ = self@.players[found];
                        } else if found > i {
                            let _ = self@.players[i as int];
                        }
                    }
                }
                return Some(i);
            }
            i += 1;
        }
        proof {
            assert forall|j: int| !is_first_with(self@.players, player_id, j) by {
                if 0 <= j < n {
                    let _ = self@.players[j];
                }
            }
        }
        None
    }

    /// Asks for the phase `new_state`. The phase changes only along
    /// [`next_phase`], and every session is told of a change.
    pub fn set_game_state(&mut self, new_state: GameState)
        ensures
            final(self)@ == with_phase(old(self)@, new_state),
    {
        let phase = match (self.game_state, new_state) {
            (GameState::GameOver, _) => GameState::GameOver,
            (_, GameState::GameOver) => GameState::GameOver,
            (GameState::Lobby, GameState::InGame) => GameState::InGame,
            (current, _) => current,
        };
        assert(phase == next_phase(self.game_state, new_state));
        if phase != self.game_state {
            self.game_state = phase;
            self.tell_all_phase(phase);
        }
    }

    /// Puts every session of the player `defeated` out of the game.
    fn eliminate(&mut self, defeated: PlayerId)
        ensures
            final(self)@ == (ServerModel {
                players: eliminated(old(self)@.players, Some(defeated)),
                ..old(self)@
            }),
    {
        let n = self.players.len();
        let ghost before = self@.players;
        let mut i: usize = 0;
        while i < n
            invariant
                i <= n,
                n == self.players.len(),
                before == old(self)@.players,
                before.len() == n,
                self@ == (ServerModel { players: self@.players, ..old(self)@ }),
                forall|k: int|
                    0 <= k < i ==> self@.players[k] == (if (#[trigger] before[k]).id == defeated {
                        PlayerModel { alive: false, ..before[k] }
                    } else {
                        before[k]
                    }),
                forall|k: int| i <= k < n ==> self@.players[k] == #[trigger] before[k],
            decreases n - i,
        {
            if self.players[i].id == defeated {
                self.players[i].alive = false;
            }
            i += 1;
        }
        assert(self@.players =~= eliminated(before, Some(defeated)));
    }

    /// Moves troops from cell `attacking_id` onto cell `defending_id` and
    /// lets the game follow: the owner of a capital that falls is out, and
    /// the game is over when that leaves one capital.
    pub fn tile_battle(&mut self, attacking_id: usize, defending_id: usize)
        ensures
            final(self)@ == fought(old(self)@, attacking_id as int, defending_id as int),
    {
        let outcome = self.map.tile_battle(attacking_id, defending_id);
        match outcome.defeated {
            Some(defeated) => {
                self.eliminate(defeated);
            },
            None => {
                assert(self@.players =~= eliminated(self@.players, None));
            },
        }
        if outcome.game_over {
            self.set_game_state(GameState::GameOver);
        }
    }

    /// A session for a connection that has just been made: a new identity,
    /// a name and a colour to be replaced at login, in the game, with no
    /// paths and nothing to send. It is not on the roster before it logs in.
    pub fn connect() -> (player: Player)
        ensures
            player@ == (PlayerModel {
                id: player@.id,
                name: "Connecting..."@,
                color: Color { r: 0, g: 128, b: 255, a: 255 },
                alive: true,
                paths: Map::<u32, crate::shared::path::PathModel>::empty(),
                outbox: Seq::<CBPacketModel>::empty(),
            }),
    {
        Player::new(
            fresh_player_id(),
            "Connecting...".to_owned(),
            Color { r: 0, g: 128, b: 255, a: 255 },
        )
    }

    /// Puts `player` on the roster under the name and colour of `login`,
    /// as [`joined`] says. In the lobby, and after a game, the player gets
    /// a capital on a cell drawn at random; in a running game they join as
    /// a spectator. Where the identity is on the roster already nothing
    /// happens.
    pub fn login(&mut self, player: Player, login: Login) -> (outcome: LoginOutcome)
        ensures
            first_with(old(self)@.players, player@.id) is Some ==> !outcome.accepted
                && outcome.capital is None && final(self)@ == old(self)@,
            first_with(old(self)@.players, player@.id) is None ==> outcome.accepted
                && final(self)@ == joined(
                old(self)@,
                named(player@, login.username@, login.color_bid),
                outcome.capital,
            ),
            outcome.capital is Some <==> first_with(old(self)@.players, player@.id) is None
                && old(self)@.game_state != GameState::InGame && old(self)@.cells.len() > 0,
            outcome.capital is Some ==> outcome.capital->0 < old(self)@.cells.len(),
    {
        if self.position(player.id).is_some() {
            return LoginOutcome { accepted: false, capital: None };
        }
        let ghost before = self@;
        let mut player = player;
        player.name = login.username;
        if let Some(color) = login.color_bid {
            player.color = color;
        }
        let mut capital: Option<usize> = None;
        if self.game_state == GameState::InGame {
            player.alive = false;
        } else {
            capital = self.map.add_player_capital(player.id);
        }
        let id = player.id;
        let color = player.color;
        let spectator = !player.alive;
        let ghost newcomer = player@;
        self.players.push(player);
        assert(self@.players =~= before.players.push(newcomer));
        let place = self.players.len() - 1;
        self.tell(place, CBPacket::LoginAccepted(LoginAccepted { player_id: id, color }));
        let view = self.map.to_map_view(id, spectator, &self.config);
        self.tell(place, CBPacket::MapSync(MapSync { map: view }));
        proof {
            let seated = ServerModel { cells: self@.cells, ..before };
            let welcomed = sent(
                sent(
                    newcomer,
                    CBPacketModel::LoginAccepted(LoginAccepted { player_id: id, color }),
                ),
                CBPacketModel::MapSync(view_for(seated, newcomer)),
            );
            assert(self@.players =~= before.players.push(welcomed));
        }
        self.tell_all_roster();
        self.tell_all_phase(self.game_state);
        LoginOutcome { accepted: true, capital }
    }

    /// Takes the player `player_id` out of the game, as [`departed`] says.
    pub fn remove_player(&mut self, player_id: PlayerId)
        ensures
            final(self)@ == departed(old(self)@, player_id),
    {
        let ghost before = self@;
        self.map.remove_player(player_id);
        match self.position(player_id) {
            Some(place) => {
                let _gone = self.players.remove(place);
                assert(self@.players =~= before.players.remove(place as int));
            },
            None => {},
        }
        self.tell_all_roster();
        self.sync_map();
    }

    /// Takes `packet` from the connection of the player `player_id`, as
    /// [`handled`] says.
    pub fn handle_packet(&mut self, player_id: PlayerId, packet: SBPacket)
        ensures
            final(self)@ == handled(old(self)@, player_id, packet),
    {
        let ghost before = self@;
        match self.position(player_id) {
            None => {},
            Some(place) => {
                let action = self.players[place].handle_packet(packet);
                assert(self@.players =~= before.players.update(
                    place as int,
                    after_packet(before.players[place as int], packet),
                ));
                match action {
                    PacketAction::Nothing => {},
                    PacketAction::SendMap => {
                        let view = self.map.to_map_view(
                            self.players[place].id,
                            !self.players[place].alive,
                            &self.config,
                        );
                        self.tell(place, CBPacket::MapSync(MapSync { map: view }));
                    },
                    PacketAction::StartGame => {
                        self.set_game_state(GameState::InGame);
                    },
                }
            },
        }
    }
}

} // verus!
