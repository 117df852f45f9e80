use worldgen::frontier::{expand, FrontierController, GenConfig};
use worldgen::grid::Coordinate;
use worldgen::store::WorldMap;
use worldgen::terrain::{TerrainType, WorldgenError};

fn at(x: i32, y: i32) -> Coordinate {
    Coordinate { x, y }
}

#[test]
fn config_rejects_zero_spawn_radius() {
    assert_eq!(
        GenConfig::new(0, 8, 8, 1, 1).err(),
        Some(WorldgenError::InvalidRadius)
    );
}

#[test]
fn config_rejects_zero_local_radius() {
    assert_eq!(
        GenConfig::new(5, 0, 8, 1, 1).err(),
        Some(WorldgenError::InvalidRadius)
    );
}

#[test]
fn config_rejects_oversized_radius() {
    assert_eq!(
        GenConfig::new(300, 8, 8, 1, 1).err(),
        Some(WorldgenError::InvalidRadius)
    );
}

#[test]
fn config_rejects_empty_population() {
    assert_eq!(
        GenConfig::new(5, 8, 0, 0, 0).err(),
        Some(WorldgenError::EmptyPopulation)
    );
}

#[test]
fn config_keeps_fields() {
    let cfg = GenConfig::new(5, 8, 8, 1, 1).unwrap();
    assert_eq!(cfg.spawn_radius, 5);
    assert_eq!(cfg.local_radius, 8);
    assert_eq!(cfg.ideal.dirt, 8);
    assert_eq!(cfg.ideal.grass, 1);
    assert_eq!(cfg.ideal.stone, 1);
}

#[test]
fn expansion_around_origin_fills_the_disc_once() {
    // Spawn radius 2, player at the origin, one pre-placed Grass tile at
    // (0,0). The frontier is every cell with x^2 + y^2 < 4; the expansion
    // fills each missing one exactly once, refuses nothing, and keeps the
    // pre-placed tile.
    let cfg = GenConfig::new(2, 8, 8, 1, 1).unwrap();
    let mut world = WorldMap::new();
    world.place_tile(at(0, 0), TerrainType::Grass).unwrap();
    let mut fc = FrontierController::new();
    assert!(fc.tick(&mut world, &cfg, at(0, 0)));
    for x in -1i32..=1 {
        for y in -1i32..=1 {
            assert!(world.tile_at(at(x, y)).is_some());
        }
    }
    assert_eq!(world.tile_at(at(0, 0)), Some(TerrainType::Grass));
    assert_eq!(world.tile_at(at(2, 0)), None);
    assert_eq!(world.tile_at(at(-2, 0)), None);
    assert_eq!(world.len(), 9);
    let c = world.counts();
    assert_eq!(c.dirt + c.grass + c.stone, 9);
}

#[test]
fn stationary_player_expands_nothing_twice() {
    let cfg = GenConfig::new(3, 8, 8, 1, 1).unwrap();
    let mut world = WorldMap::new();
    let mut fc = FrontierController::new();
    assert!(fc.tick(&mut world, &cfg, at(0, 0)));
    let after_first = world.len();
    assert!(!fc.tick(&mut world, &cfg, at(0, 0)));
    assert_eq!(world.len(), after_first);
}

#[test]
fn repeated_expansion_is_idempotent() {
    // Calling the expansion itself twice from the same player cell places
    // zero additional tiles the second time.
    let cfg = GenConfig::new(4, 8, 8, 1, 1).unwrap();
    let mut world = WorldMap::new();
    expand(&mut world, &cfg, at(7, -3));
    let after_first = world.len();
    assert!(after_first > 0);
    expand(&mut world, &cfg, at(7, -3));
    assert_eq!(world.len(), after_first);
}

#[test]
fn moving_player_fills_only_missing_cells() {
    let cfg = GenConfig::new(2, 8, 8, 1, 1).unwrap();
    let mut world = WorldMap::new();
    let mut fc = FrontierController::new();
    assert!(fc.tick(&mut world, &cfg, at(0, 0)));
    assert_eq!(world.len(), 9);
    // One step to the right: the disc around (1,0) adds exactly the column
    // x == 2, |y| <= 1; the six overlapping cells stay as they are.
    let before: Vec<Option<TerrainType>> =
        (-1..=1).map(|y| world.tile_at(at(0, y))).collect();
    assert!(fc.tick(&mut world, &cfg, at(1, 0)));
    assert_eq!(world.len(), 12);
    let after: Vec<Option<TerrainType>> =
        (-1..=1).map(|y| world.tile_at(at(0, y))).collect();
    assert_eq!(before, after);
    for y in -1i32..=1 {
        assert!(world.tile_at(at(2, y)).is_some());
    }
}

#[test]
fn expansion_places_in_row_major_order() {
    // On an empty world every frontier cell is missing, so the placement
    // order is exactly the row-major order of the lattice offsets.
    let cfg = GenConfig::new(2, 8, 8, 1, 1).unwrap();
    let mut world = WorldMap::new();
    expand(&mut world, &cfg, at(0, 0));
    let placed = world.neighbors_within(at(0, 0), 16);
    let coords: Vec<Coordinate> = placed.iter().map(|t| t.coord).collect();
    assert_eq!(
        coords,
        vec![
            at(-1, -1),
            at(-1, 0),
            at(-1, 1),
            at(0, -1),
            at(0, 0),
            at(0, 1),
            at(1, -1),
            at(1, 0),
            at(1, 1),
        ]
    );
}

#[test]
fn expansion_tiles_are_the_three_terrain_types() {
    let cfg = GenConfig::new(5, 8, 8, 1, 1).unwrap();
    let mut world = WorldMap::new();
    world.place_tile(at(0, 0), TerrainType::Grass).unwrap();
    expand(&mut world, &cfg, at(0, 0));
    // 69 cells have x^2 + y^2 < 25.
    assert_eq!(world.len(), 69);
    let c = world.counts();
    assert_eq!(c.dirt + c.grass + c.stone, 69);
    assert!(c.grass >= 1);
}
