//! A player's session: who they are, whether they are still in the game, the
//! paths they have laid, and what waits to be sent to them.

use vstd::prelude::*;
use vstd::std_specs::iter::IteratorSpec;
use std::collections::HashMap;
use crate::shared::cb_packet::{CBPacket, CBPacketModel, MovementConfirmed};
use crate::shared::path::{Path, PathModel};
use crate::shared::player::{PlayerId, PlayerView, PlayerViewModel};
use crate::shared::sb_packet::{paths_model, routes_of, SBPacket};
use crate::shared::Color;

verus! {

broadcast use vstd::std_specs::hash::group_hash_axioms;

/// The session of one player. Its packets wait in `outbox` until the
/// connection takes them; its paths are kept by path id.
pub struct Player {
    pub id: PlayerId,
    pub name: String,
    pub color: Color,
    /// Packets for this player's connection, oldest first.
    pub outbox: Vec<CBPacket>,
    pub paths: HashMap<u32, Path>,
    pub alive: bool,
}

/// The mathematical content of a [`Player`].
pub ghost struct PlayerModel {
    pub id: PlayerId,
    pub name: Seq<char>,
    pub color: Color,
    pub alive: bool,
    pub paths: Map<u32, PathModel>,
    pub outbox: Seq<CBPacketModel>,
}

/// The content of each packet of a queue, in order.
pub open spec fn outbox_model(outbox: Seq<CBPacket>) -> Seq<CBPacketModel> {
    outbox.map_values(|packet: CBPacket| packet@)
}

impl View for Player {
    type V = PlayerModel;

    open spec fn view(&self) -> PlayerModel {
        PlayerModel {
            id: self.id,
            name: self.name@,
            color: self.color,
            alive: self.alive,
            paths: paths_model(self.paths@),
            outbox: outbox_model(self.outbox@),
        }
    }
}

/// What the others are told about a player.
pub open spec fn public_face(player: PlayerModel) -> PlayerViewModel {
    PlayerViewModel {
        id: player.id,
        name: player.name,
        color: player.color,
        alive: player.alive,
    }
}

/// The cursor that a path keeps when its route is replaced: the one it has,
/// or the start for a path that is new.
pub open spec fn kept_cursor(paths: Map<u32, PathModel>, path_id: u32) -> u32 {
    if paths.contains_key(path_id) {
        paths[path_id].cursor
    } else {
        0
    }
}

/// The paths of a player after the route `tiles` was put under `path_id`.
pub open spec fn upserted(paths: Map<u32, PathModel>, path_id: u32, tiles: Seq<u32>) -> Map<
    u32,
    PathModel,
> {
    paths.insert(path_id, PathModel { tiles, cursor: kept_cursor(paths, path_id) })
}

/// The paths of a player after every route of `routes` was put under its
/// id.
pub open spec fn merged(paths: Map<u32, PathModel>, routes: Map<u32, Seq<u32>>) -> Map<
    u32,
    PathModel,
> {
    Map::new(
        |k: u32| paths.contains_key(k) || routes.contains_key(k),
        |k: u32|
            if routes.contains_key(k) {
                PathModel { tiles: routes[k], cursor: kept_cursor(paths, k) }
            } else {
                paths[k]
            },
    )
}

/// The ids of the first `n` entries of a walk through a set of paths.
spec fn walked(entries: Seq<(&u32, &Path)>, n: int) -> Set<u32> {
    Set::new(|k: u32| exists|m: int| 0 <= m < n && *(#[trigger] entries[m]).0 == k)
}

/// Merging one more route is an upsert of that route.
proof fn lemma_merge_step(
    paths: Map<u32, PathModel>,
    routes: Map<u32, Seq<u32>>,
    done: Set<u32>,
    path_id: u32,
)
    requires
        routes.contains_key(path_id),
        !done.contains(path_id),
    ensures
        upserted(merged(paths, routes.restrict(done)), path_id, routes[path_id]) == merged(
            paths,
            routes.restrict(done.insert(path_id)),
        ),
{
    assert(upserted(merged(paths, routes.restrict(done)), path_id, routes[path_id]) =~= merged(
        paths,
        routes.restrict(done.insert(path_id)),
    ));
}

/// The next hop of a path: the cell at its cursor and the cell after it. A
/// path whose cursor stands on its last cell has none.
pub open spec fn hop_of(path: PathModel) -> Option<(u32, u32)> {
    if path.cursor < u32::MAX && path.cursor + 1 < path.tiles.len() {
        Some((path.tiles[path.cursor as int], path.tiles[path.cursor + 1]))
    } else {
        None
    }
}

/// A player after the path `path_id` has moved on by one cell: its cursor
/// is one higher, and the player is told so.
pub open spec fn advanced(player: PlayerModel, path_id: u32) -> PlayerModel {
    let path = player.paths[path_id];
    let cursor = (path.cursor + 1) as u32;
    PlayerModel {
        paths: player.paths.insert(path_id, PathModel { cursor, ..path }),
        outbox: player.outbox.push(
            CBPacketModel::MovementConfirmed(MovementConfirmed { path_id, valid_until: cursor }),
        ),
        ..player
    }
}

/// `order` names every path of `paths` once.
pub open spec fn is_walk(order: Seq<u32>, paths: Map<u32, PathModel>) -> bool {
    order.no_duplicates() && order.to_set() == paths.dom()
}

/// Putting a route under an id that has a path keeps that path's cursor;
/// under a new id the cursor starts at 0; every other path stays as it is.
pub proof fn lemma_upsert_keeps_cursor(paths: Map<u32, PathModel>, path_id: u32, tiles: Seq<u32>)
    ensures
        upserted(paths, path_id, tiles).contains_key(path_id),
        upserted(paths, path_id, tiles)[path_id].tiles == tiles,
        paths.contains_key(path_id) ==> upserted(paths, path_id, tiles)[path_id].cursor
            == paths[path_id].cursor,
        !paths.contains_key(path_id) ==> upserted(paths, path_id, tiles)[path_id].cursor == 0,
        forall|other: u32|
            other != path_id ==> (#[trigger] upserted(paths, path_id, tiles).contains_key(other)
                <==> paths.contains_key(other)) && (paths.contains_key(other) ==> upserted(
                paths,
                path_id,
                tiles,
            )[other] == paths[other]),
{
}

/// Putting a second route under the same id leaves the cursor where the
/// first left it.
pub proof fn lemma_upsert_twice(
    paths: Map<u32, PathModel>,
    path_id: u32,
    first: Seq<u32>,
    second: Seq<u32>,
)
    ensures
        upserted(upserted(paths, path_id, first), path_id, second) == upserted(
            paths,
            path_id,
            second,
        ),
{
    assert(upserted(upserted(paths, path_id, first), path_id, second) =~= upserted(
        paths,
        path_id,
        second,
    ));
}

/// What is left for the coordinator to do once a player has taken a packet.
#[derive(Debug, Clone, Copy, PartialEq, Eq, Structural)]
pub enum PacketAction {
    Nothing,
    /// Send the player their view of the map.
    SendMap,
    /// Start the game.
    StartGame,
}

/// What a packet asks of the coordinator.
pub open spec fn action_of(packet: SBPacket) -> PacketAction {
    match packet {
        SBPacket::GiveMeMap => PacketAction::SendMap,
        SBPacket::StartGame => PacketAction::StartGame,
        _ => PacketAction::Nothing,
    }
}

/// A player after they have taken a packet: paths that the packet brings
/// replace or join theirs, and nothing else changes.
pub open spec fn after_packet(player: PlayerModel, packet: SBPacket) -> PlayerModel {
    match packet {
        SBPacket::UpdatePaths(update) => PlayerModel {
            paths: merged(player.paths, routes_of(update.paths@)),
            ..player
        },
        _ => player,
    }
}

impl Player {
    /// A session that is in the game, with no paths and nothing to send.
    pub fn new(id: PlayerId, name: String, color: Color) -> (player: Player)
        ensures
            player@ == (PlayerModel {
                id,
                name: name@,
                color,
                alive: true,
                paths: Map::<u32, PathModel>::empty(),
                outbox: Seq::<CBPacketModel>::empty(),
            }),
    {
        let player = Player {
            id,
            name,
            color,
            outbox: Vec::new(),
            paths: HashMap::new(),
            alive: true,
        };
        assert(player@.paths =~= Map::<u32, PathModel>::empty());
        assert(player@.outbox =~= Seq::<CBPacketModel>::empty());
        player
    }

    pub fn id(&self) -> (id: PlayerId)
        ensures
            id == self@.id,
    {
        self.id
    }

    /// Queues `packet` for the player's connection, behind what is queued
    /// already.
    pub fn send_bytes(&mut self, packet: CBPacket)
        ensures
            final(self)@ == (PlayerModel { outbox: old(self)@.outbox.push(packet@), ..old(self)@ }),
    {
        self.outbox.push(packet);
        assert(outbox_model(self.outbox@) =~= outbox_model(old(self).outbox@).push(packet@));
    }

    /// Hands over what is queued for the player's connection, oldest first,
    /// and leaves the queue empty.
    pub fn take_outbox(&mut self) -> (packets: Vec<CBPacket>)
        ensures
            outbox_model(packets@) == old(self)@.outbox,
            final(self)@ == (PlayerModel {
                outbox: Seq::<CBPacketModel>::empty(),
                ..old(self)@
            }),
    {
        let mut packets: Vec<CBPacket> = Vec::new();
        packets.append(&mut self.outbox);
        assert(packets@ =~= old(self).outbox@);
        assert(outbox_model(self.outbox@) =~= Seq::<CBPacketModel>::empty());
        packets
    }

    pub fn to_view(&self) -> (view: PlayerView)
        ensures
            view@ == public_face(self@),
    {
        PlayerView { id: self.id, name: self.name.clone(), color: self.color, alive: self.alive }
    }

    /// Puts `path` under `path_id`. A path that is there already gets the
    /// new route and keeps its cursor; a new path starts at cursor 0.
    pub fn upsert(&mut self, path_id: u32, path: Path)
        ensures
            final(self)@ == (PlayerModel {
                paths: upserted(old(self)@.paths, path_id, path@.tiles),
                ..old(self)@
            }),
    {
        let cursor: u32 = match self.paths.get(&path_id) {
            Some(existing) => existing.valid_until,
            None => 0,
        };
        self.paths.insert(path_id, Path { tile_ids: path.tile_ids, valid_until: cursor });
        assert(paths_model(self.paths@) =~= upserted(
            paths_model(old(self).paths@),
            path_id,
            path@.tiles,
        ));
    }

    /// Takes a packet from the player's connection. New paths are put in
    /// place at once; a login from a player who is logged in already is
    /// ignored; what needs the coordinator is handed back as an action.
    pub fn handle_packet(&mut self, packet: SBPacket) -> (action: PacketAction)
        ensures
            final(self)@ == after_packet(old(self)@, packet),
            action == action_of(packet),
    {
        match packet {
            SBPacket::Login(_login) => PacketAction::Nothing,
            SBPacket::GiveMeMap => PacketAction::SendMap,
            SBPacket::UpdatePaths(update_paths) => {
                let ghost before = self@.paths;
                let ghost routes = routes_of(update_paths.paths@);
                let ghost entries = update_paths.paths.iter().remaining();
                proof {
                    assert(merged(before, routes.restrict(walked(entries, 0))) =~= before);
                }
                for pair in it: update_paths.paths.iter()
                    invariant
                        it.seq() == entries,
                        entries == update_paths.paths.iter().remaining(),
                        entries.no_duplicates(),
                        routes == routes_of(update_paths.paths@),
                        before == old(self)@.paths,
                        self@ == (PlayerModel {
                            paths: merged(before, routes.restrict(walked(entries, it.index()))),
                            ..old(self)@
                        }),
                {
                    let path_id: u32 = *pair.0;
                    let tiles = pair.1.tile_ids.clone();
                    proof {
                        let n = it.index();
                        assert(pair == entries[n]);
                        assert(tiles@ == routes[path_id]);
                        assert(!walked(entries, n).contains(path_id)) by {
                            if walked(entries, n).contains(path_id) {
                                let m = choose|m: int| 0 <= m < n && *(#[trigger] entries[m]).0 == path_id;
                                assert(update_paths.paths@[*entries[m].0] == *entries[m].1);
                                assert(update_paths.paths@[*entries[n].0] == *entries[n].1);
                                assert(entries[m] == entries[n]);
                            }
                        }
                        assert(walked(entries, n + 1) =~= walked(entries, n).insert(path_id)) by {
                            assert forall|k: u32| walked(entries, n).insert(path_id).contains(k)
                                implies walked(entries, n + 1).contains(k) by {
                                if k == path_id {
                                    assert(*entries[n].0 == k);
                                } else {
                                    let m = choose|m: int| 0 <= m < n && *(#[trigger] entries[m]).0 == k;
                                    assert(0 <= m < n + 1 && *entries[m].0 == k);
                                }
                            }
                        }
                        lemma_merge_step(before, routes, walked(entries, n), path_id);
                    }
                    self.upsert(path_id, Path { tile_ids: tiles, valid_until: 0 });
                }
                proof {
                    assert(routes.restrict(walked(entries, entries.len() as int)) =~= routes) by {
                        assert forall|k: u32| routes.contains_key(k) implies walked(
                            entries,
                            entries.len() as int,
                        ).contains(k) by {
                            let pair = (&k, &update_paths.paths@[k]);
                            assert(entries.contains(pair));
                            let m = choose|m: int| 0 <= m < entries.len() && entries[m] == pair;
                            assert(*entries[m].0 == k);
                        }
                    }
                }
                PacketAction::Nothing
            },
            SBPacket::StartGame => PacketAction::StartGame,
        }
    }

    /// The next hop of the path `path_id`, if the player has that path and
    /// it has a hop left.
    pub fn next_hop(&self, path_id: u32) -> (hop: Option<(u32, u32)>)
        ensures
            hop == (if self@.paths.contains_key(path_id) {
                hop_of(self@.paths[path_id])
            } else {
                None
            }),
    {
        match self.paths.get(&path_id) {
            None => None,
            Some(path) => {
                let cursor = path.valid_until as usize;
                if path.valid_until < u32::MAX && cursor < path.tile_ids.len() && cursor + 1
                    < path.tile_ids.len() {
                    Some((path.tile_ids[cursor], path.tile_ids[cursor + 1]))
                } else {
                    None
                }
            },
        }
    }

    /// Moves the path `path_id` on by one cell and tells the player.
    pub fn advance(&mut self, path_id: u32)
        requires
            old(self)@.paths.contains_key(path_id),
            hop_of(old(self)@.paths[path_id]) is Some,
        ensures
            final(self)@ == advanced(old(self)@, path_id),
    {
        let ghost before = self.paths@;
        match self.paths.remove(&path_id) {
            None => {},
            Some(path) => {
                let cursor: u32 = path.valid_until + 1;
                self.paths.insert(path_id, Path { tile_ids: path.tile_ids, valid_until: cursor });
                assert(paths_model(self.paths@) =~= paths_model(before).insert(
                    path_id,
                    PathModel { cursor, ..before[path_id]@ },
                ));
                self.send_bytes(
                    CBPacket::MovementConfirmed(
                        MovementConfirmed { path_id, valid_until: cursor },
                    ),
                );
            },
        }
    }

    /// The ids of the player's paths, each once, in the order in which the
    /// map of paths hands them out.
    pub fn path_ids(&self) -> (ids: Vec<u32>)
        ensures
            is_walk(ids@, self@.paths),
    {
        let mut ids: Vec<u32> = Vec::new();
        for id in it: self.paths.keys()
            invariant
                ids@ == it.seq().take(it.index() as int).unref(),
                it.seq() == self.paths.keys().remaining(),
        {
            ids.push(*id);
        }
        proof {
            let full = self.paths.keys().remaining();
            assert(full.take(full.len() as int) == full);
            assert(ids@ == full.unref());
            assert(paths_model(self.paths@).dom() =~= self.paths@.dom());
        }
        ids
    }
}

} // verus!
