use generals::client::Game;
use generals::shared::cb_packet::{CBPacket, LoginAccepted, MapSync, MovementConfirmed, SyncPlayers};
use generals::shared::game_state::GameState;
use generals::shared::map_view::MapView;
use generals::shared::player::PlayerView;
use generals::shared::sb_packet::SBPacket;
use generals::shared::Color;
use std::collections::HashMap;

const BLUE: Color = Color { r: 0, g: 0, b: 255, a: 255 };

fn with_map(width: usize, height: usize) -> Game {
    let mut game = Game::new();
    let reply = game.handle_packet(CBPacket::MapSync(MapSync {
        map: MapView { width, height, cells: HashMap::new() },
    }));
    assert!(reply.is_none());
    game
}

fn told(packet: Option<SBPacket>) -> Vec<(u32, Vec<u32>, u32)> {
    match packet {
        Some(SBPacket::UpdatePaths(update)) => {
            update.paths.into_iter().map(|(id, p)| (id, p.tile_ids, p.valid_until)).collect()
        }
        _ => panic!("no paths told"),
    }
}

#[test]
fn a_new_client_knows_nothing() {
    let game = Game::new();
    assert!(game.map.is_none());
    assert_eq!(game.selected_cell, None);
    assert_eq!(game.selected_path, None);
    assert!(game.players.is_empty());
    assert!(game.paths.is_empty());
    assert_eq!(game.next_path_id, 0);
    assert_eq!(game.game_state, GameState::Lobby);
    assert_eq!(game.player_name, "");
    assert!(!game.connected);
}

#[test]
fn an_accepted_login_asks_for_the_map() {
    let mut game = Game::new();
    let reply =
        game.handle_packet(CBPacket::LoginAccepted(LoginAccepted { player_id: 9, color: BLUE }));
    assert!(matches!(reply, Some(SBPacket::GiveMeMap)));
    assert!(game.connected);
}

#[test]
fn packets_update_what_the_client_knows() {
    let mut game = with_map(4, 3);
    assert_eq!(game.map.as_ref().unwrap().width, 4);
    assert_eq!(game.map.as_ref().unwrap().height, 3);
    let players = vec![PlayerView { id: 1, name: String::from("ann"), color: BLUE, alive: true }];
    assert!(game.handle_packet(CBPacket::SyncPlayers(SyncPlayers { players })).is_none());
    assert_eq!(game.players.len(), 1);
    assert_eq!(game.players[0].name, "ann");
    assert!(game.handle_packet(CBPacket::SetGameState(GameState::InGame)).is_none());
    assert_eq!(game.game_state, GameState::InGame);
    assert!(!game.connected);
}

#[test]
fn a_click_begins_a_path() {
    let mut game = with_map(4, 3);
    assert_eq!(told(game.handle_click(5)), vec![(0, vec![5], 0)]);
    assert_eq!(game.selected_cell, Some(5));
    assert_eq!(game.selected_path, Some(0));
    assert_eq!(game.next_path_id, 1);
    assert_eq!(game.paths[&0].tile_ids, vec![5]);
    assert_eq!(told(game.handle_click(7)), vec![(1, vec![7], 0)]);
    assert_eq!(game.selected_path, Some(1));
    assert_eq!(game.paths.len(), 2);
    game.next_path_id = u32::MAX;
    assert_eq!(told(game.handle_click(2)), vec![(u32::MAX, vec![2], 0)]);
    assert_eq!(game.next_path_id, 0);
}

#[test]
fn keys_walk_the_selection_and_extend_the_path() {
    let mut game = with_map(4, 3);
    game.handle_click(5);
    let (moved, packet) = game.handle_wasd('d');
    assert!(moved);
    assert_eq!(told(packet), vec![(0, vec![5, 6], 0)]);
    let (moved, packet) = game.handle_wasd('s');
    assert!(moved);
    assert_eq!(told(packet), vec![(0, vec![5, 6, 10], 0)]);
    assert!(game.handle_wasd('a').0);
    assert!(game.handle_wasd('w').0);
    assert_eq!(game.selected_cell, Some(5));
    assert_eq!(game.paths[&0].tile_ids, vec![5, 6, 10, 9, 5]);
}

#[test]
fn keys_stop_at_the_edge_of_the_grid() {
    let mut game = with_map(4, 3);
    game.handle_click(0);
    for key in ['w', 'a', 'x', 'W'] {
        let (moved, packet) = game.handle_wasd(key);
        assert!(!moved);
        assert!(packet.is_none());
    }
    game.handle_click(11);
    assert!(!game.handle_wasd('s').0);
    assert!(!game.handle_wasd('d').0);
    assert_eq!(game.selected_cell, Some(11));
    assert_eq!(game.paths[&1].tile_ids, vec![11]);
    game.handle_click(3);
    assert!(!game.handle_wasd('d').0);
    assert!(game.handle_wasd('s').0);
    assert_eq!(game.selected_cell, Some(7));
}

#[test]
fn keys_need_a_map_and_a_selected_cell() {
    let mut game = Game::new();
    game.selected_cell = Some(1);
    assert!(!game.handle_wasd('d').0);
    let mut game = with_map(4, 3);
    assert!(!game.handle_wasd('d').0);
    let mut game = with_map(0, 3);
    game.selected_cell = Some(1);
    assert!(!game.handle_wasd('d').0);
    assert!(!game.handle_wasd('s').0);
}

#[test]
fn keys_without_a_selected_path_move_the_selection_only() {
    let mut game = with_map(4, 3);
    game.selected_cell = Some(5);
    let (moved, packet) = game.handle_wasd('w');
    assert!(moved);
    assert!(packet.is_none());
    assert_eq!(game.selected_cell, Some(1));
    game.selected_path = Some(40);
    let (moved, packet) = game.handle_wasd('s');
    assert!(moved);
    assert!(packet.is_none());
    assert!(game.paths.is_empty());
}

#[test]
fn a_confirmation_moves_the_cursor_of_its_path() {
    let mut game = with_map(4, 3);
    game.handle_click(5);
    game.handle_wasd('d');
    let reply = game.handle_packet(CBPacket::MovementConfirmed(MovementConfirmed {
        path_id: 0,
        valid_until: 1,
    }));
    assert!(reply.is_none());
    assert_eq!(game.paths[&0].valid_until, 1);
    assert_eq!(game.paths[&0].tile_ids, vec![5, 6]);
    game.handle_movement_confirmed(3, 9);
    assert_eq!(game.paths.len(), 1);
    game.handle_movement_confirmed(0, 0);
    assert_eq!(game.paths[&0].valid_until, 0);
}
