//! One tick of the game: every live player's paths move on by a hop, cells
//! grow on their turn, and every session is sent its view of the map.

use vstd::prelude::*;
use crate::server::coordinator::{fought, synced, Server, ServerModel};
use crate::server::grid::{
    count_capitals, grown_cell, lemma_battle_capitals, lemma_count_by_terrain, tended_cell, Cell,
};
use crate::shared::terrain::Terrain;
use crate::server::player::{advanced, hop_of, is_walk, PlayerModel};
use crate::shared::game_state::GameState;
use crate::shared::path::PathModel;
use crate::shared::player::PlayerId;

verus! {

/// A path can take its next hop: it has one, and the cell at its cursor is
/// on the grid and belongs to `owner`.
pub open spec fn path_ready(path: PathModel, cells: Seq<Cell>, owner: PlayerId) -> bool {
    &&& hop_of(path) is Some
    &&& (hop_of(path)->0).0 < cells.len()
    &&& cells[(hop_of(path)->0).0 as int].owner_id == Some(owner)
}

/// The game after the path `path_id` of session `pi` had its turn. A path
/// that is ready moves its troops along its next hop and then moves on by
/// one cell; any other path is left as it is.
pub open spec fn stepped_path(game: ServerModel, pi: int, path_id: u32) -> ServerModel {
    let me = game.players[pi];
    if me.paths.contains_key(path_id) && path_ready(me.paths[path_id], game.cells, me.id) {
        let hop = hop_of(me.paths[path_id])->0;
        let after = fought(game, hop.0 as int, hop.1 as int);
        ServerModel {
            players: after.players.update(pi, advanced(after.players[pi], path_id)),
            ..after
        }
    } else {
        game
    }
}

/// The game after the paths named in `order` had their turn, one after the
/// other.
pub open spec fn stepped_player(game: ServerModel, pi: int, order: Seq<u32>) -> ServerModel
    decreases order.len(),
{
    if order.len() == 0 {
        game
    } else {
        stepped_path(stepped_player(game, pi, order.drop_last()), pi, order.last())
    }
}

/// The game after the first `n` sessions had their turn, in the order of
/// the roster. A player who is out of the game when their turn comes is
/// passed over.
pub open spec fn stepped_all(game: ServerModel, orders: Seq<Seq<u32>>, n: int) -> ServerModel
    decreases n,
{
    if n <= 0 {
        game
    } else {
        let so_far = stepped_all(game, orders, n - 1);
        if so_far.players[n - 1].alive {
            stepped_player(so_far, n - 1, orders[n - 1])
        } else {
            so_far
        }
    }
}

/// Whether growth with the period `period` falls on the tick `counter`.
/// A period of zero never does.
pub open spec fn due(counter: u32, period: u32) -> bool {
    period != 0 && counter % period == 0
}

/// The tick count after one more tick. It starts over after the largest
/// count.
pub open spec fn next_count(counter: u32) -> u32 {
    if counter == u32::MAX {
        0
    } else {
        (counter + 1) as u32
    }
}

/// The game after the growth that falls on its tick count: cities first,
/// then tiles.
pub open spec fn grown(game: ServerModel) -> ServerModel {
    let cities = if due(game.tick_counter, game.config.city_growth_tick) {
        game.cells.map_values(|cell: Cell| grown_cell(cell))
    } else {
        game.cells
    };
    let tiles = if due(game.tick_counter, game.config.tile_growth_tick) {
        cities.map_values(|cell: Cell| tended_cell(cell))
    } else {
        cities
    };
    ServerModel { cells: tiles, ..game }
}

/// The orders of a list of orders, as sequences.
pub open spec fn walks_model(orders: Seq<Vec<u32>>) -> Seq<Seq<u32>> {
    orders.map_values(|order: Vec<u32>| order@)
}

/// `orders` holds, for each session, a walk through its paths.
pub open spec fn walks_of(orders: Seq<Seq<u32>>, game: ServerModel) -> bool {
    &&& orders.len() == game.players.len()
    &&& forall|i: int|
        0 <= i < orders.len() ==> is_walk(#[trigger] orders[i], game.players[i].paths)
}

/// The game after a tick in which each player's paths had their turn in
/// the order that `orders` gives: the count goes up, the sessions have
/// their turns, cells grow, and every session is sent its view.
pub open spec fn ticked(game: ServerModel, orders: Seq<Seq<u32>>) -> ServerModel {
    let started = ServerModel { tick_counter: next_count(game.tick_counter), ..game };
    synced(grown(stepped_all(started, orders, started.players.len() as int)))
}

/// What a turn leaves alone: who is on the roster and which paths each
/// player has, the size of the grid, the tick count and the settings.
pub open spec fn same_frame(before: ServerModel, after: ServerModel) -> bool {
    &&& after.players.len() == before.players.len()
    &&& after.cells.len() == before.cells.len()
    &&& after.width == before.width
    &&& after.height == before.height
    &&& after.tick_counter == before.tick_counter
    &&& after.config == before.config
    &&& forall|k: int|
        0 <= k < before.players.len() ==> (#[trigger] after.players[k]).id == before.players[k].id
            && after.players[k].paths.dom() == before.players[k].paths.dom()
}

/// The turn of one path keeps the frame of the game.
pub proof fn lemma_stepped_path_frame(game: ServerModel, pi: int, path_id: u32)
    requires
        0 <= pi < game.players.len(),
    ensures
        same_frame(game, stepped_path(game, pi, path_id)),
{
    let after = stepped_path(game, pi, path_id);
    let me = game.players[pi];
    if me.paths.contains_key(path_id) && path_ready(me.paths[path_id], game.cells, me.id) {
        let hop = hop_of(me.paths[path_id])->0;
        let mid = fought(game, hop.0 as int, hop.1 as int);
        assert(mid.players.len() == game.players.len());
        assert forall|k: int| 0 <= k < game.players.len() implies (#[trigger] after.players[k]).id
            == game.players[k].id && after.players[k].paths.dom()
            == game.players[k].paths.dom() by {
            assert(mid.players[k].id == game.players[k].id);
            assert(mid.players[k].paths == game.players[k].paths);
            if k == pi {
                assert(after.players[k].paths.dom() =~= mid.players[k].paths.dom());
            }
        }
    }
}

/// Of the capitals that stood at the start, `start` in number, none has
/// come back, and where at least two stood and one is left the game is
/// over.
pub open spec fn settled(start: nat, game: ServerModel) -> bool {
    &&& count_capitals(game.cells) <= start
    &&& start >= 2 && count_capitals(game.cells) == 1 ==> game.game_state == GameState::GameOver
}

/// A battle keeps a game settled.
pub proof fn lemma_fought_settled(start: nat, game: ServerModel, a: int, d: int)
    requires
        settled(start, game),
    ensures
        settled(start, fought(game, a, d)),
{
    lemma_battle_capitals(game.cells, a, d);
}

/// The turn of one path keeps a game settled.
pub proof fn lemma_stepped_path_settled(start: nat, game: ServerModel, pi: int, path_id: u32)
    requires
        settled(start, game),
    ensures
        settled(start, stepped_path(game, pi, path_id)),
{
    let me = game.players[pi];
    if me.paths.contains_key(path_id) && path_ready(me.paths[path_id], game.cells, me.id) {
        let hop = hop_of(me.paths[path_id])->0;
        lemma_fought_settled(start, game, hop.0 as int, hop.1 as int);
    }
}

/// The turns of one player's paths keep a game settled.
pub proof fn lemma_stepped_player_settled(
    start: nat,
    game: ServerModel,
    pi: int,
    order: Seq<u32>,
)
    requires
        settled(start, game),
    ensures
        settled(start, stepped_player(game, pi, order)),
    decreases order.len(),
{
    if order.len() > 0 {
        lemma_stepped_player_settled(start, game, pi, order.drop_last());
        lemma_stepped_path_settled(
            start,
            stepped_player(game, pi, order.drop_last()),
            pi,
            order.last(),
        );
    }
}

/// The turns of the players keep a game settled.
pub proof fn lemma_stepped_all_settled(
    start: nat,
    game: ServerModel,
    orders: Seq<Seq<u32>>,
    n: int,
)
    requires
        settled(start, game),
    ensures
        settled(start, stepped_all(game, orders, n)),
    decreases n,
{
    if n > 0 {
        lemma_stepped_all_settled(start, game, orders, n - 1);
        let so_far = stepped_all(game, orders, n - 1);
        if so_far.players[n - 1].alive {
            lemma_stepped_player_settled(start, so_far, n - 1, orders[n - 1]);
        }
    }
}

/// Growth builds and razes nothing: the capitals stay what they are.
pub proof fn lemma_growth_keeps_capitals(game: ServerModel)
    ensures
        count_capitals(grown(game).cells) == count_capitals(game.cells),
        grown(game).game_state == game.game_state,
{
    lemma_count_by_terrain(grown(game).cells, game.cells, Terrain::Capital);
}

/// A tick that starts with two capitals or more and ends with a single
/// one ends with the game over.
pub proof fn lemma_tick_ends_game(game: ServerModel, orders: Seq<Seq<u32>>)
    requires
        count_capitals(game.cells) >= 2,
        count_capitals(ticked(game, orders).cells) == 1,
    ensures
        ticked(game, orders).game_state == GameState::GameOver,
{
    let start = count_capitals(game.cells);
    let started = ServerModel { tick_counter: next_count(game.tick_counter), ..game };
    let n = started.players.len() as int;
    lemma_stepped_all_settled(start, started, orders, n);
    lemma_growth_keeps_capitals(stepped_all(started, orders, n));
}

impl Server {
    /// Gives the path `path_id` of session `pi` its turn.
    pub fn step_path(&mut self, pi: usize, path_id: u32)
        requires
            pi < old(self)@.players.len(),
        ensures
            final(self)@ == stepped_path(old(self)@, pi as int, path_id),
            same_frame(old(self)@, final(self)@),
    {
        proof {
            lemma_stepped_path_frame(self@, pi as int, path_id);
        }
        let hop = match self.players[pi].next_hop(path_id) {
            None => {
                return ;
            },
            Some(hop) => hop,
        };
        let attacking_id = hop.0 as usize;
        let defending_id = hop.1 as usize;
        let owned = {
            let cells = self.map.cells();
            attacking_id < cells.len() && cells[attacking_id].owner_id == Some(
                self.players[pi].id,
            )
        };
        if !owned {
            return ;
        }
        let ghost before = self@;
        self.tile_battle(attacking_id, defending_id);
        assert(self@.players.len() == before.players.len());
        assert(self@.players[pi as int].paths == before.players[pi as int].paths);
        let ghost mid = self@;
        self.players[pi].advance(path_id);
        assert(self@.players =~= mid.players.update(
            pi as int,
            advanced(mid.players[pi as int], path_id),
        ));
    }

    /// Gives the paths named in `order` their turn, one after the other.
    pub fn step_in_order(&mut self, pi: usize, order: &Vec<u32>)
        requires
            pi < old(self)@.players.len(),
        ensures
            final(self)@ == stepped_player(old(self)@, pi as int, order@),
            same_frame(old(self)@, final(self)@),
    {
        let n = order.len();
        let mut i: usize = 0;
        while i < n
            invariant
                i <= n,
                n == order.len(),
                pi < old(self)@.players.len(),
                self@ == stepped_player(old(self)@, pi as int, order@.take(i as int)),
                same_frame(old(self)@, self@),
            decreases n - i,
        {
            proof {
                assert(order@.take(i + 1).drop_last() == order@.take(i as int));
            }
            self.step_path(pi, order[i]);
            i += 1;
        }
        proof {
            assert(order@.take(n as int) == order@);
        }
    }

    /// Gives every path of session `pi` its turn and says in which order
    /// they had it: the order in which the player's map of paths hands them
    /// out.
    pub fn step(&mut self, pi: usize) -> (order: Vec<u32>)
        requires
            pi < old(self)@.players.len(),
        ensures
            is_walk(order@, old(self)@.players[pi as int].paths),
            final(self)@ == stepped_player(old(self)@, pi as int, order@),
            same_frame(old(self)@, final(self)@),
    {
        let order = self.players[pi].path_ids();
        self.step_in_order(pi, &order);
        order
    }

    /// Lets cells grow where the tick count says so.
    fn grow(&mut self)
        ensures
            final(self)@ == grown(old(self)@),
    {
        let city = self.config.city_growth_tick;
        let tile = self.config.tile_growth_tick;
        if city != 0 && self.tick_counter % city == 0 {
            self.map.tick_troops();
        }
        if tile != 0 && self.tick_counter % tile == 0 {
            self.map.tick_owned_tiles();
        }
    }

    /// One tick in which the paths of each session take their turn in the
    /// order that `orders` gives for it. Outside a running game nothing
    /// happens.
    pub fn tick_in_order(&mut self, orders: &Vec<Vec<u32>>)
        requires
            orders.len() == old(self)@.players.len(),
        ensures
            old(self)@.game_state != GameState::InGame ==> final(self)@ == old(self)@,
            old(self)@.game_state == GameState::InGame ==> final(self)@ == ticked(
                old(self)@,
                walks_model(orders@),
            ),
    {
        if self.game_state != GameState::InGame {
            return ;
        }
        self.tick_counter = if self.tick_counter == u32::MAX {
            0
        } else {
            self.tick_counter + 1
        };
        let ghost started = self@;
        let n = self.players.len();
        let mut pi: usize = 0;
        while pi < n
            invariant
                pi <= n,
                n == started.players.len(),
                n == orders.len(),
                same_frame(started, self@),
                self@ == stepped_all(started, walks_model(orders@), pi as int),
            decreases n - pi,
        {
            if self.players[pi].alive {
                self.step_in_order(pi, &orders[pi]);
            }
            pi += 1;
        }
        self.grow();
        self.sync_map();
    }

    /// The order in which each session's map of paths hands out its paths.
    pub fn walks(&self) -> (orders: Vec<Vec<u32>>)
        ensures
            walks_of(walks_model(orders@), self@),
    {
        let mut orders: Vec<Vec<u32>> = Vec::new();
        let n = self.players.len();
        let mut pi: usize = 0;
        while pi < n
            invariant
                pi <= n,
                n == self.players.len(),
                orders.len() == pi,
                forall|i: int|
                    0 <= i < pi ==> is_walk((#[trigger] orders@[i])@, self@.players[i].paths),
            decreases n - pi,
        {
            orders.push(self.players[pi].path_ids());
            pi += 1;
        }
        orders
    }

    /// One tick. Outside a running game nothing happens. In a running
    /// game the tick count goes up, every player who is in the game has
    /// each of their paths take its turn, cells grow on their turn, and
    /// every session is sent its view: the game is [`ticked`] for some walk
    /// through each player's paths.
    pub fn tick(&mut self)
        ensures
            old(self)@.game_state != GameState::InGame ==> final(self)@ == old(self)@,
            old(self)@.game_state == GameState::InGame ==> exists|orders: Seq<Seq<u32>>|
                walks_of(orders, old(self)@) && final(self)@ == #[trigger] ticked(
                    old(self)@,
                    orders,
                ),
    {
        let orders = self.walks();
        self.tick_in_order(&orders);
        assert(old(self)@.game_state == GameState::InGame ==> walks_of(
            walks_model(orders@),
            old(self)@,
        ) && self@ == ticked(old(self)@, walks_model(orders@)));
    }
}

} // verus!
