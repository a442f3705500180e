use generals::server::config::Config;
use generals::server::coordinator::{LoginOutcome, Server};
use generals::server::grid::{Cell, Grid};
use generals::server::player::Player;
use generals::shared::cb_packet::{CBPacket, LoginAccepted};
use generals::shared::game_state::GameState;
use generals::shared::path::Path;
use generals::shared::sb_packet::{Login, SBPacket, UpdatePaths};
use generals::shared::terrain::Terrain;
use generals::shared::Color;
use std::collections::HashMap;

const RED: Color = Color { r: 200, g: 10, b: 10, a: 255 };
const PLACEHOLDER: Color = Color { r: 0, g: 128, b: 255, a: 255 };

fn lobby(width: usize, height: usize) -> Server {
    Server::new(Grid::new(width, height), Config::default())
}

fn login(name: &str, color_bid: Option<Color>) -> Login {
    Login { username: String::from(name), color_bid }
}

fn join(server: &mut Server, id: u128, name: &str) -> LoginOutcome {
    server.login(Player::new(id, String::from("Connecting..."), PLACEHOLDER), login(name, None))
}

fn kinds(p: &Player) -> Vec<&'static str> {
    p.outbox
        .iter()
        .map(|packet| match packet {
            CBPacket::LoginAccepted(_) => "accepted",
            CBPacket::MapSync(_) => "map",
            CBPacket::SyncPlayers(_) => "players",
            CBPacket::SetGameState(_) => "phase",
            CBPacket::MovementConfirmed(_) => "moved",
        })
        .collect()
}

#[test]
fn a_new_server_waits_in_the_lobby() {
    let server = lobby(3, 2);
    assert!(server.players.is_empty());
    assert_eq!(server.game_state, GameState::Lobby);
    assert_eq!(server.tick_counter, 0);
    assert_eq!(server.map.cells().len(), 6);
    assert!(server.roster_views().is_empty());
    assert_eq!(server.position(5), None);
}

#[test]
fn a_connection_gets_a_placeholder_session() {
    let one = Server::connect();
    let two = Server::connect();
    assert_eq!(one.name, "Connecting...");
    assert_eq!(one.color, PLACEHOLDER);
    assert!(one.alive);
    assert!(one.paths.is_empty());
    assert!(one.outbox.is_empty());
    assert_ne!(one.id, two.id);
    assert_ne!(one.id, 0);
}

#[test]
fn login_in_the_lobby_grants_a_capital() {
    let mut server = lobby(4, 4);
    let pending = Server::connect();
    let id = pending.id;
    let outcome = server.login(pending, login("ann", Some(RED)));
    assert!(outcome.accepted);
    let capital = outcome.capital.unwrap();
    assert!(capital < 16);
    for (i, c) in server.map.cells().iter().enumerate() {
        if i == capital {
            assert_eq!(*c, Cell { terrain: Terrain::Capital, troops: 1, owner_id: Some(id) });
        } else {
            assert_eq!(*c, Cell::default());
        }
    }
    assert_eq!(server.players.len(), 1);
    let me = &server.players[0];
    assert_eq!(me.name, "ann");
    assert_eq!(me.color, RED);
    assert!(me.alive);
    assert_eq!(kinds(me), vec!["accepted", "map", "players", "phase"]);
    match &me.outbox[0] {
        CBPacket::LoginAccepted(a) => assert_eq!(*a, LoginAccepted { player_id: id, color: RED }),
        _ => panic!("not accepted"),
    }
    match &me.outbox[1] {
        CBPacket::MapSync(sync) => {
            assert_eq!(sync.map.width, 4);
            assert_eq!(sync.map.cells[&capital].owner_id, Some(id));
            assert!(!sync.map.cells[&capital].fog_of_war);
        }
        _ => panic!("no map"),
    }
    match &me.outbox[2] {
        CBPacket::SyncPlayers(sync) => {
            assert_eq!(sync.players.len(), 1);
            assert_eq!(sync.players[0].id, id);
            assert_eq!(sync.players[0].name, "ann");
            assert_eq!(sync.players[0].color, RED);
            assert!(sync.players[0].alive);
        }
        _ => panic!("no roster"),
    }
    assert!(matches!(me.outbox[3], CBPacket::SetGameState(GameState::Lobby)));
}

#[test]
fn login_without_a_colour_keeps_the_placeholder() {
    let mut server = lobby(2, 2);
    assert!(join(&mut server, 5, "bob").accepted);
    assert_eq!(server.players[0].color, PLACEHOLDER);
    assert_eq!(server.players[0].name, "bob");
}

#[test]
fn a_second_login_tells_everybody() {
    let mut server = lobby(6, 6);
    join(&mut server, 1, "ann");
    server.players[0].outbox.clear();
    join(&mut server, 2, "bob");
    assert_eq!(kinds(&server.players[0]), vec!["players", "phase"]);
    assert_eq!(kinds(&server.players[1]), vec!["accepted", "map", "players", "phase"]);
    match &server.players[0].outbox[0] {
        CBPacket::SyncPlayers(sync) => {
            let names: Vec<&str> = sync.players.iter().map(|p| p.name.as_str()).collect();
            assert_eq!(names, vec!["ann", "bob"]);
        }
        _ => panic!("no roster"),
    }
    assert_eq!(server.position(1), Some(0));
    assert_eq!(server.position(2), Some(1));
    assert_eq!(server.position(3), None);
    let views = server.roster_views();
    assert_eq!(views.len(), 2);
    assert_eq!(views[1].id, 2);
}

#[test]
fn a_login_under_a_known_identity_is_ignored() {
    let mut server = lobby(3, 3);
    join(&mut server, 1, "ann");
    let cells = server.map.cells().clone();
    server.players[0].outbox.clear();
    let outcome = join(&mut server, 1, "eve");
    assert_eq!(outcome, LoginOutcome { accepted: false, capital: None });
    assert_eq!(server.players.len(), 1);
    assert_eq!(server.players[0].name, "ann");
    assert!(server.players[0].outbox.is_empty());
    assert_eq!(server.map.cells(), &cells);
    server.handle_packet(1, SBPacket::Login(login("eve", Some(RED))));
    assert_eq!(server.players[0].name, "ann");
    assert_eq!(server.players[0].color, PLACEHOLDER);
    assert!(server.players[0].outbox.is_empty());
}

#[test]
fn login_into_a_running_game_makes_a_spectator() {
    let mut server = lobby(3, 3);
    join(&mut server, 1, "ann");
    server.handle_packet(1, SBPacket::StartGame);
    assert_eq!(server.game_state, GameState::InGame);
    let cells = server.map.cells().clone();
    let outcome = join(&mut server, 2, "late");
    assert_eq!(outcome, LoginOutcome { accepted: true, capital: None });
    assert_eq!(server.map.cells(), &cells);
    assert!(!server.players[1].alive);
    match &server.players[1].outbox[1] {
        CBPacket::MapSync(sync) => {
            assert_eq!(sync.map.cells.len(), 9);
            assert!(sync.map.cells.values().all(|c| !c.fog_of_war));
        }
        _ => panic!("no map"),
    }
    assert!(matches!(server.players[1].outbox[3], CBPacket::SetGameState(GameState::InGame)));
}

#[test]
fn login_on_a_grid_without_cells_grants_no_capital() {
    let mut server = lobby(0, 0);
    let outcome = join(&mut server, 1, "ann");
    assert_eq!(outcome, LoginOutcome { accepted: true, capital: None });
    assert!(server.players[0].alive);
}

#[test]
fn start_game_leaves_the_lobby_once() {
    let mut server = lobby(3, 3);
    join(&mut server, 1, "ann");
    join(&mut server, 2, "bob");
    server.players[0].outbox.clear();
    server.players[1].outbox.clear();
    server.handle_packet(2, SBPacket::StartGame);
    assert_eq!(server.game_state, GameState::InGame);
    assert!(matches!(server.players[0].outbox[..], [CBPacket::SetGameState(GameState::InGame)]));
    assert!(matches!(server.players[1].outbox[..], [CBPacket::SetGameState(GameState::InGame)]));
    server.handle_packet(1, SBPacket::StartGame);
    assert_eq!(server.players[0].outbox.len(), 1);
    assert_eq!(server.game_state, GameState::InGame);
}

#[test]
fn the_phase_moves_forward_only() {
    let mut server = lobby(1, 1);
    server.set_game_state(GameState::Lobby);
    assert_eq!(server.game_state, GameState::Lobby);
    server.set_game_state(GameState::InGame);
    assert_eq!(server.game_state, GameState::InGame);
    server.set_game_state(GameState::Lobby);
    assert_eq!(server.game_state, GameState::InGame);
    server.set_game_state(GameState::GameOver);
    assert_eq!(server.game_state, GameState::GameOver);
    server.set_game_state(GameState::InGame);
    server.set_game_state(GameState::Lobby);
    assert_eq!(server.game_state, GameState::GameOver);
    let mut straight = lobby(1, 1);
    straight.set_game_state(GameState::GameOver);
    assert_eq!(straight.game_state, GameState::GameOver);
}

#[test]
fn give_me_map_sends_the_view_to_the_asker() {
    let mut server = lobby(5, 5);
    join(&mut server, 1, "ann");
    join(&mut server, 2, "bob");
    server.players[0].outbox.clear();
    server.players[1].outbox.clear();
    server.handle_packet(1, SBPacket::GiveMeMap);
    assert_eq!(kinds(&server.players[0]), vec!["map"]);
    assert!(server.players[1].outbox.is_empty());
    server.handle_packet(99, SBPacket::GiveMeMap);
    server.handle_packet(99, SBPacket::StartGame);
    assert_eq!(server.game_state, GameState::Lobby);
    assert_eq!(server.players[0].outbox.len(), 1);
}

#[test]
fn update_paths_reaches_the_ledger_of_the_sender() {
    let mut server = lobby(5, 5);
    join(&mut server, 1, "ann");
    join(&mut server, 2, "bob");
    let mut paths = HashMap::new();
    paths.insert(3, Path::new(vec![0, 1, 2]));
    server.handle_packet(2, SBPacket::UpdatePaths(UpdatePaths { paths }));
    assert!(server.players[0].paths.is_empty());
    assert_eq!(server.players[1].paths[&3].tile_ids, vec![0, 1, 2]);
    assert_eq!(server.players[1].paths[&3].valid_until, 0);
}

#[test]
fn a_departure_releases_cells_and_tells_the_rest() {
    let mut server = lobby(4, 4);
    let a = join(&mut server, 1, "ann").capital.unwrap();
    let b = join(&mut server, 2, "bob").capital.unwrap();
    join(&mut server, 3, "cyd");
    for p in server.players.iter_mut() {
        p.outbox.clear();
    }
    server.remove_player(1);
    assert_eq!(server.players.len(), 2);
    assert_eq!(server.players[0].id, 2);
    assert_eq!(server.players[1].id, 3);
    if a != b && server.map.cells()[a].terrain != Terrain::Capital {
        assert_eq!(server.map.cells()[a], Cell { terrain: Terrain::City, troops: 1, owner_id: None });
    }
    assert!(server.map.cells().iter().all(|c| c.owner_id != Some(1)));
    for p in &server.players {
        assert_eq!(kinds(p), vec!["players", "map"]);
        match &p.outbox[0] {
            CBPacket::SyncPlayers(sync) => {
                let ids: Vec<u128> = sync.players.iter().map(|v| v.id).collect();
                assert_eq!(ids, vec![2, 3]);
            }
            _ => panic!("no roster"),
        }
    }
    server.remove_player(77);
    assert_eq!(server.players.len(), 2);
    assert_eq!(kinds(&server.players[0]), vec!["players", "map", "players", "map"]);
}

#[test]
fn sync_map_sends_each_player_their_own_view() {
    let mut grid = Grid::new(5, 1);
    grid.set_cell(0, 0, Cell { terrain: Terrain::Default, troops: 3, owner_id: Some(1) });
    grid.set_cell(4, 0, Cell { terrain: Terrain::Default, troops: 3, owner_id: Some(2) });
    let mut server = Server::new(grid, Config::default());
    server.players.push(Player::new(1, String::from("ann"), RED));
    server.players.push(Player::new(2, String::from("bob"), RED));
    server.sync_map();
    let seen = |p: &Player| -> Vec<usize> {
        match &p.outbox[0] {
            CBPacket::MapSync(sync) => {
                let mut keys: Vec<usize> = sync.map.cells.keys().copied().collect();
                keys.sort();
                keys
            }
            _ => panic!("no map"),
        }
    };
    assert_eq!(seen(&server.players[0]), vec![0, 1]);
    assert_eq!(seen(&server.players[1]), vec![3, 4]);
}

#[test]
fn packets_queue_in_order_and_are_handed_over_once() {
    let mut p = Player::new(1, String::from("ann"), RED);
    p.send_bytes(CBPacket::SetGameState(GameState::InGame));
    p.send_bytes(CBPacket::SetGameState(GameState::GameOver));
    let taken = p.take_outbox();
    assert!(matches!(
        taken[..],
        [CBPacket::SetGameState(GameState::InGame), CBPacket::SetGameState(GameState::GameOver)]
    ));
    assert!(p.outbox.is_empty());
    assert!(p.take_outbox().is_empty());
}

#[test]
fn a_battle_through_the_server_follows_up_on_the_outcome() {
    let cells = vec![
        Cell { terrain: Terrain::Capital, troops: 9, owner_id: Some(1) },
        Cell { terrain: Terrain::Capital, troops: 2, owner_id: Some(2) },
        Cell { terrain: Terrain::Mountain, troops: 0, owner_id: None },
    ];
    let mut server = Server::new(Grid::from_cells(3, 1, cells.clone()).unwrap(), Config::default());
    server.players.push(Player::new(1, String::from("ann"), RED));
    server.players.push(Player::new(2, String::from("bob"), RED));
    server.game_state = GameState::InGame;
    server.tile_battle(0, 2);
    assert_eq!(server.map.cells(), &cells);
    assert!(server.players[0].outbox.is_empty());
    server.tile_battle(0, 1);
    assert!(server.players[0].alive);
    assert!(!server.players[1].alive);
    assert_eq!(server.game_state, GameState::GameOver);
    assert_eq!(kinds(&server.players[0]), vec!["phase"]);
    assert_eq!(kinds(&server.players[1]), vec!["phase"]);
}
