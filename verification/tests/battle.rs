use generals::server::grid::{BattleOutcome, Cell, Grid};
use generals::shared::terrain::Terrain;

const A: u128 = 1;
const B: u128 = 2;
const C: u128 = 3;

fn cell(terrain: Terrain, troops: u32, owner_id: Option<u128>) -> Cell {
    Cell { terrain, troops, owner_id }
}

fn blank() -> Cell {
    Cell::default()
}

fn grid(width: usize, height: usize, cells: Vec<Cell>) -> Grid {
    Grid::from_cells(width, height, cells).unwrap()
}

const QUIET: BattleOutcome = BattleOutcome { defeated: None, game_over: false };

#[test]
fn attacker_with_more_troops_captures() {
    let mut g = grid(
        2,
        2,
        vec![cell(Terrain::City, 10, Some(A)), cell(Terrain::Default, 5, Some(B)), blank(), blank()],
    );
    assert_eq!(g.tile_battle(0, 1), QUIET);
    assert_eq!(g.cells()[0], cell(Terrain::City, 1, Some(A)));
    assert_eq!(g.cells()[1], cell(Terrain::Default, 4, Some(A)));
    assert_eq!(g.cells()[2], blank());
    assert_eq!(g.cells()[3], blank());
}

#[test]
fn defender_survives_a_tie_of_troops() {
    let mut g = grid(
        2,
        2,
        vec![cell(Terrain::City, 5, Some(A)), cell(Terrain::Default, 5, Some(B)), blank(), blank()],
    );
    assert_eq!(g.tile_battle(0, 1), QUIET);
    assert_eq!(g.cells()[0], cell(Terrain::City, 1, Some(A)));
    assert_eq!(g.cells()[1], cell(Terrain::Default, 1, Some(B)));
}

#[test]
fn defender_worn_down_to_nothing_loses_the_cell() {
    let mut g = grid(2, 1, vec![cell(Terrain::Default, 6, Some(A)), cell(Terrain::Desert, 5, Some(B))]);
    assert_eq!(g.tile_battle(0, 1), QUIET);
    assert_eq!(g.cells()[0], cell(Terrain::Default, 1, Some(A)));
    assert_eq!(g.cells()[1], cell(Terrain::Desert, 0, None));
}

#[test]
fn attacker_with_one_troop_does_nothing() {
    let before = vec![cell(Terrain::Default, 1, Some(A)), cell(Terrain::Default, 0, None)];
    let mut g = grid(2, 1, before.clone());
    assert_eq!(g.tile_battle(0, 1), QUIET);
    assert_eq!(g.cells(), &before);
    let empty = vec![cell(Terrain::Default, 0, None), cell(Terrain::Default, 3, Some(B))];
    let mut g = grid(2, 1, empty.clone());
    assert_eq!(g.tile_battle(0, 1), QUIET);
    assert_eq!(g.cells(), &empty);
}

#[test]
fn moving_onto_a_mountain_does_nothing() {
    let before = vec![
        cell(Terrain::Capital, 40, Some(A)),
        cell(Terrain::Mountain, 0, None),
        cell(Terrain::Default, 7, Some(B)),
    ];
    let mut g = grid(3, 1, before.clone());
    assert_eq!(g.tile_battle(0, 1), QUIET);
    assert_eq!(g.cells(), &before);
}

#[test]
fn moving_off_the_grid_or_onto_itself_does_nothing() {
    let before = vec![cell(Terrain::Default, 9, Some(A)), cell(Terrain::Default, 2, Some(B))];
    let mut g = grid(2, 1, before.clone());
    assert_eq!(g.tile_battle(0, 2), QUIET);
    assert_eq!(g.tile_battle(5, 1), QUIET);
    assert_eq!(g.tile_battle(0, 0), QUIET);
    assert_eq!(g.tile_battle(usize::MAX, usize::MAX), QUIET);
    assert_eq!(g.cells(), &before);
}

#[test]
fn moving_onto_an_own_cell_merges_the_troops() {
    let mut g = grid(2, 1, vec![cell(Terrain::Default, 9, Some(A)), cell(Terrain::Swamp, 4, Some(A))]);
    assert_eq!(g.tile_battle(0, 1), QUIET);
    assert_eq!(g.cells()[0], cell(Terrain::Default, 1, Some(A)));
    assert_eq!(g.cells()[1], cell(Terrain::Swamp, 12, Some(A)));
}

#[test]
fn merged_troops_stop_at_the_largest_count() {
    let mut g = grid(
        2,
        1,
        vec![cell(Terrain::Default, 10, Some(A)), cell(Terrain::Default, u32::MAX - 3, Some(A))],
    );
    assert_eq!(g.tile_battle(0, 1), QUIET);
    assert_eq!(g.cells()[0].troops, 1);
    assert_eq!(g.cells()[1].troops, u32::MAX);
}

#[test]
fn capturing_an_unowned_city_takes_it() {
    let mut g = grid(2, 1, vec![cell(Terrain::Default, 50, Some(A)), cell(Terrain::City, 40, None)]);
    assert_eq!(g.tile_battle(0, 1), QUIET);
    assert_eq!(g.cells()[0], cell(Terrain::Default, 1, Some(A)));
    assert_eq!(g.cells()[1], cell(Terrain::City, 9, Some(A)));
}

#[test]
fn capturing_a_capital_transfers_the_territory() {
    let mut g = grid(
        3,
        2,
        vec![
            cell(Terrain::Capital, 20, Some(A)),
            cell(Terrain::Capital, 5, Some(B)),
            cell(Terrain::Default, 3, Some(B)),
            cell(Terrain::City, 8, Some(B)),
            cell(Terrain::Capital, 2, Some(C)),
            cell(Terrain::Default, 4, Some(C)),
        ],
    );
    let outcome = g.tile_battle(0, 1);
    assert_eq!(outcome, BattleOutcome { defeated: Some(B), game_over: false });
    assert_eq!(g.cells()[0], cell(Terrain::Capital, 1, Some(A)));
    assert_eq!(g.cells()[1], cell(Terrain::City, 14, Some(A)));
    assert_eq!(g.cells()[2], cell(Terrain::Default, 3, Some(A)));
    assert_eq!(g.cells()[3], cell(Terrain::City, 8, Some(A)));
    assert_eq!(g.cells()[4], cell(Terrain::Capital, 2, Some(C)));
    assert_eq!(g.cells()[5], cell(Terrain::Default, 4, Some(C)));
}

#[test]
fn capturing_the_last_but_one_capital_ends_the_game() {
    let mut g = grid(
        2,
        1,
        vec![cell(Terrain::Capital, 20, Some(A)), cell(Terrain::Capital, 5, Some(B))],
    );
    let outcome = g.tile_battle(0, 1);
    assert_eq!(outcome, BattleOutcome { defeated: Some(B), game_over: true });
    assert_eq!(g.cells()[1], cell(Terrain::City, 14, Some(A)));
}

#[test]
fn a_failed_attack_on_a_capital_eliminates_nobody() {
    let mut g = grid(
        2,
        1,
        vec![cell(Terrain::Capital, 4, Some(A)), cell(Terrain::Capital, 5, Some(B))],
    );
    assert_eq!(g.tile_battle(0, 1), QUIET);
    assert_eq!(g.cells()[0], cell(Terrain::Capital, 1, Some(A)));
    assert_eq!(g.cells()[1], cell(Terrain::Capital, 2, Some(B)));
}

#[test]
fn city_growth_follows_the_terrain() {
    let mut g = grid(
        4,
        2,
        vec![
            cell(Terrain::Capital, 3, Some(A)),
            cell(Terrain::City, 40, Some(B)),
            cell(Terrain::City, 40, None),
            cell(Terrain::Swamp, 2, Some(A)),
            cell(Terrain::Swamp, 1, Some(A)),
            cell(Terrain::Swamp, 0, None),
            cell(Terrain::Default, 0, Some(A)),
            cell(Terrain::Default, 6, Some(B)),
        ],
    );
    g.tick_troops();
    assert_eq!(
        g.cells(),
        &vec![
            cell(Terrain::Capital, 4, Some(A)),
            cell(Terrain::City, 41, Some(B)),
            cell(Terrain::City, 40, None),
            cell(Terrain::Swamp, 1, Some(A)),
            cell(Terrain::Swamp, 0, None),
            cell(Terrain::Swamp, 0, None),
            cell(Terrain::Default, 0, None),
            cell(Terrain::Default, 6, Some(B)),
        ]
    );
}

#[test]
fn tile_growth_skips_cities_and_capitals() {
    let mut g = grid(
        5,
        1,
        vec![
            cell(Terrain::Capital, 3, Some(A)),
            cell(Terrain::City, 40, Some(B)),
            cell(Terrain::Default, 6, Some(B)),
            cell(Terrain::Desert, u32::MAX, Some(A)),
            cell(Terrain::Default, 5, None),
        ],
    );
    g.tick_owned_tiles();
    assert_eq!(
        g.cells(),
        &vec![
            cell(Terrain::Capital, 3, Some(A)),
            cell(Terrain::City, 40, Some(B)),
            cell(Terrain::Default, 7, Some(B)),
            cell(Terrain::Desert, u32::MAX, Some(A)),
            cell(Terrain::Default, 5, None),
        ]
    );
}

#[test]
fn removing_a_player_releases_their_cells() {
    let mut g = grid(
        3,
        1,
        vec![
            cell(Terrain::Capital, 3, Some(A)),
            cell(Terrain::Default, 6, Some(A)),
            cell(Terrain::Capital, 2, Some(B)),
        ],
    );
    g.remove_player(A);
    assert_eq!(
        g.cells(),
        &vec![
            cell(Terrain::City, 3, None),
            cell(Terrain::Default, 6, None),
            cell(Terrain::Capital, 2, Some(B)),
        ]
    );
}

#[test]
fn a_capital_is_placed_where_it_is_told() {
    let mut g = grid(2, 1, vec![cell(Terrain::Mountain, 0, None), cell(Terrain::City, 44, Some(B))]);
    g.place_capital(1, A);
    g.place_capital(2, A);
    assert_eq!(
        g.cells(),
        &vec![cell(Terrain::Mountain, 0, None), cell(Terrain::Capital, 1, Some(A))]
    );
}

#[test]
fn a_random_capital_lands_on_the_grid() {
    let mut seen_other_than_first = false;
    for _ in 0..200 {
        let mut g = Grid::new(10, 10);
        let placed = g.add_player_capital(A).unwrap();
        assert!(placed < 100);
        for (i, c) in g.cells().iter().enumerate() {
            if i == placed {
                assert_eq!(*c, cell(Terrain::Capital, 1, Some(A)));
            } else {
                assert_eq!(*c, blank());
            }
        }
        if placed != 0 {
            seen_other_than_first = true;
        }
    }
    assert!(seen_other_than_first);
    let mut empty = Grid::new(0, 7);
    assert_eq!(empty.add_player_capital(A), None);
}

#[test]
fn a_grid_needs_as_many_cells_as_its_size_says() {
    assert!(Grid::from_cells(2, 2, vec![blank(); 3]).is_none());
    assert!(Grid::from_cells(0, 5, vec![blank(); 1]).is_none());
    assert!(Grid::from_cells(usize::MAX, 2, vec![blank(); 2]).is_none());
    let g = Grid::from_cells(3, 2, vec![blank(); 6]).unwrap();
    assert_eq!(g.width(), 3);
    assert_eq!(g.height(), 2);
    let n = Grid::new(4, 5);
    assert_eq!(n.cells().len(), 20);
    assert!(n.cells().iter().all(|c| *c == blank()));
}

#[test]
fn set_cell_writes_row_by_row() {
    let mut g = Grid::new(3, 2);
    g.set_cell(2, 1, cell(Terrain::City, 31, None));
    g.set_cell(1, 0, cell(Terrain::Swamp, 0, None));
    assert_eq!(g.cells()[5], cell(Terrain::City, 31, None));
    assert_eq!(g.cells()[1], cell(Terrain::Swamp, 0, None));
    assert_eq!(g.cells()[0], blank());
}
