use generals::server::generator::{
    generate_map, generate_map_tiles, target_count, TerrainConfig,
};
use generals::server::grid::Cell;
use generals::shared::terrain::Terrain;

fn count(cells: &[Cell], terrain: Terrain) -> usize {
    cells.iter().filter(|c| c.terrain == terrain).count()
}

fn share(parts_per_million: u32) -> f32 {
    parts_per_million as f32 / 1_000_000.0
}

#[test]
fn test_terrain_generation() {
    let config = TerrainConfig::default();
    let map = generate_map(20, 20, config);
    let cells = map.cells();

    let total_cells = (20 * 20) as f32;

    let mountain_count = count(cells, Terrain::Mountain) as f32 / total_cells;
    assert!((mountain_count - share(config.mountain_density)).abs() < 0.02);

    let desert_count = count(cells, Terrain::Desert) as f32 / total_cells;
    assert!((desert_count - share(config.desert_density)).abs() < 0.02);

    let swamp_count = count(cells, Terrain::Swamp) as f32 / total_cells;
    assert!((swamp_count - share(config.swamp_density)).abs() < 0.02);

    let city_count = count(cells, Terrain::City) as f32 / total_cells;
    assert!((city_count - share(config.city_density)).abs() < 0.02);
}

#[test]
fn default_terrain_config_values() {
    let config = TerrainConfig::default();
    assert_eq!(config.mountain_density, 120_000);
    assert_eq!(config.swamp_density, 80_000);
    assert_eq!(config.desert_density, 150_000);
    assert_eq!(config.city_density, 40_000);
    assert_eq!(config.clustering_factor, 700_000);
    assert_eq!(config.map_width, 20);
    assert_eq!(config.map_height, 20);
}

#[test]
fn sixteen_cities_on_a_map_of_four_hundred() {
    let config = TerrainConfig {
        mountain_density: 0,
        swamp_density: 0,
        desert_density: 0,
        city_density: 40_000,
        clustering_factor: 700_000,
        map_width: 20,
        map_height: 20,
    };
    let cells = generate_map_tiles(20, 20, &config);
    assert_eq!(cells.len(), 400);
    assert_eq!(count(&cells, Terrain::City), 16);
    assert_eq!(count(&cells, Terrain::Default), 384);
    for c in &cells {
        assert_eq!(c.owner_id, None);
        if c.terrain == Terrain::City {
            assert!(30 <= c.troops && c.troops <= 50);
        } else {
            assert_eq!(c.troops, 0);
        }
    }
}

#[test]
fn default_map_has_the_exact_counts() {
    for _ in 0..20 {
        let cells = generate_map_tiles(20, 20, &TerrainConfig::default());
        assert_eq!(count(&cells, Terrain::Mountain), 48);
        assert_eq!(count(&cells, Terrain::Desert), 60);
        assert_eq!(count(&cells, Terrain::Swamp), 32);
        assert_eq!(count(&cells, Terrain::City), 16);
        assert_eq!(count(&cells, Terrain::Capital), 0);
        assert_eq!(count(&cells, Terrain::Default), 400 - 48 - 60 - 32 - 16);
    }
}

#[test]
fn densities_beyond_the_map_fill_it_and_stop() {
    let config = TerrainConfig {
        mountain_density: 600_000,
        swamp_density: 500_000,
        desert_density: 300_000,
        city_density: 900_000,
        clustering_factor: 1_000_000,
        map_width: 5,
        map_height: 4,
    };
    let cells = generate_map_tiles(5, 4, &config);
    assert_eq!(count(&cells, Terrain::Mountain), 12);
    assert_eq!(count(&cells, Terrain::Desert), 6);
    assert_eq!(count(&cells, Terrain::Swamp), 2);
    assert_eq!(count(&cells, Terrain::City), 0);
    assert_eq!(count(&cells, Terrain::Default), 0);
}

#[test]
fn a_map_without_cells_is_empty() {
    assert!(generate_map_tiles(0, 9, &TerrainConfig::default()).is_empty());
    assert!(generate_map_tiles(9, 0, &TerrainConfig::default()).is_empty());
    let map = generate_map(0, 0, TerrainConfig::default());
    assert_eq!(map.cells().len(), 0);
}

#[test]
fn a_single_cell_map_can_be_generated() {
    let config = TerrainConfig {
        mountain_density: 0,
        swamp_density: 0,
        desert_density: 0,
        city_density: 1_000_000,
        clustering_factor: 1_000_000,
        map_width: 1,
        map_height: 1,
    };
    let cells = generate_map_tiles(1, 1, &config);
    assert_eq!(cells.len(), 1);
    assert_eq!(cells[0].terrain, Terrain::City);
}

#[test]
fn targets_are_rounded_to_the_nearest_cell() {
    assert_eq!(target_count(400, 40_000), 16);
    assert_eq!(target_count(400, 120_000), 48);
    assert_eq!(target_count(10, 140_000), 1);
    assert_eq!(target_count(10, 150_000), 2);
    assert_eq!(target_count(10, 160_000), 2);
    assert_eq!(target_count(10, 0), 0);
    assert_eq!(target_count(0, 1_000_000), 0);
    assert_eq!(target_count(7, 1_000_000), 7);
    assert_eq!(target_count(7, u32::MAX), 7);
    assert_eq!(target_count(usize::MAX, 1_000_000), usize::MAX);
}

#[test]
fn city_garrisons_are_drawn_at_random() {
    let config = TerrainConfig {
        mountain_density: 0,
        swamp_density: 0,
        desert_density: 0,
        city_density: 500_000,
        clustering_factor: 0,
        map_width: 20,
        map_height: 20,
    };
    let cells = generate_map_tiles(20, 20, &config);
    let troops: Vec<u32> =
        cells.iter().filter(|c| c.terrain == Terrain::City).map(|c| c.troops).collect();
    assert_eq!(troops.len(), 200);
    assert!(troops.iter().all(|t| (30..=50).contains(t)));
    assert!(troops.iter().any(|t| *t != 30));
    assert!(troops.iter().any(|t| *t != troops[0]));
}

#[test]
fn generated_map_has_the_asked_size() {
    let map = generate_map(7, 3, TerrainConfig::default());
    assert_eq!(map.width(), 7);
    assert_eq!(map.height(), 3);
    assert_eq!(map.cells().len(), 21);
}
