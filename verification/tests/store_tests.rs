use worldgen::dist::Distribution;
use worldgen::grid::Coordinate;
use worldgen::store::{WorldCounts, WorldMap};
use worldgen::terrain::{TerrainType, Tile, WorldgenError};

fn at(x: i32, y: i32) -> Coordinate {
    Coordinate { x, y }
}

#[test]
fn place_is_write_once() {
    let mut w = WorldMap::new();
    assert_eq!(w.tile_at(at(0, 0)), None);
    assert_eq!(w.place_tile(at(0, 0), TerrainType::Grass), Ok(()));
    assert_eq!(w.tile_at(at(0, 0)), Some(TerrainType::Grass));
    // A second placement at the same coordinate fails and changes nothing.
    assert_eq!(
        w.place_tile(at(0, 0), TerrainType::Stone),
        Err(WorldgenError::DuplicateCoordinate)
    );
    assert_eq!(w.tile_at(at(0, 0)), Some(TerrainType::Grass));
    // Placements elsewhere leave the original tile alone.
    assert_eq!(w.place_tile(at(1, 0), TerrainType::Dirt), Ok(()));
    assert_eq!(w.tile_at(at(0, 0)), Some(TerrainType::Grass));
    assert_eq!(w.len(), 2);
}

#[test]
fn counts_track_placements() {
    let mut w = WorldMap::new();
    assert_eq!(w.counts(), WorldCounts { dirt: 0, grass: 0, stone: 0 });
    w.place_tile(at(0, 0), TerrainType::Dirt).unwrap();
    w.place_tile(at(1, 0), TerrainType::Dirt).unwrap();
    w.place_tile(at(2, 0), TerrainType::Grass).unwrap();
    w.place_tile(at(3, 0), TerrainType::Stone).unwrap();
    let c = w.counts();
    assert_eq!(c, WorldCounts { dirt: 2, grass: 1, stone: 1 });
    // Count invariant: the counts sum to the number of placed tiles, also
    // after a refused duplicate.
    assert_eq!(c.dirt + c.grass + c.stone, w.len() as u64);
    let _ = w.place_tile(at(0, 0), TerrainType::Stone);
    let c = w.counts();
    assert_eq!(c.dirt + c.grass + c.stone, w.len() as u64);
    assert_eq!(w.len(), 4);
}

#[test]
fn world_counts_builders() {
    let mut c = WorldCounts::new(1, 2, 3);
    let snap = c.add_one(&TerrainType::Grass);
    assert_eq!(snap, WorldCounts { dirt: 1, grass: 3, stone: 3 });
    assert_eq!(c, snap);
    let primed = c.one_of_each();
    assert_eq!(primed, WorldCounts { dirt: 2, grass: 4, stone: 4 });
    assert_eq!(
        WorldCounts::new(0, 0, 0).to_distribution(),
        Distribution { dirt: 1, grass: 1, stone: 1 }
    );
    assert_eq!(
        WorldCounts::new(5, 0, 2).to_distribution(),
        Distribution { dirt: 5, grass: 0, stone: 2 }
    );
}

#[test]
fn neighbors_within_uses_strict_squared_distance() {
    let mut w = WorldMap::new();
    w.place_tile(at(0, 0), TerrainType::Grass).unwrap();
    w.place_tile(at(1, 1), TerrainType::Dirt).unwrap();
    w.place_tile(at(2, 0), TerrainType::Stone).unwrap();
    w.place_tile(at(5, 5), TerrainType::Stone).unwrap();
    // Radius 2 around the origin: squared distance strictly below 4 keeps
    // (0,0) and (1,1), drops (2,0) whose squared distance is exactly 4.
    let near = w.neighbors_within(at(0, 0), 2);
    assert_eq!(
        near,
        vec![
            Tile { coord: at(0, 0), terrain: TerrainType::Grass },
            Tile { coord: at(1, 1), terrain: TerrainType::Dirt },
        ]
    );
}

#[test]
fn global_distribution_of_empty_world_is_uniform() {
    let w = WorldMap::new();
    assert_eq!(
        w.global_distribution(),
        Distribution { dirt: 1, grass: 1, stone: 1 }
    );
}

#[test]
fn global_distribution_is_the_counts() {
    let mut w = WorldMap::new();
    w.place_tile(at(0, 0), TerrainType::Grass).unwrap();
    w.place_tile(at(1, 0), TerrainType::Grass).unwrap();
    w.place_tile(at(2, 0), TerrainType::Dirt).unwrap();
    assert_eq!(
        w.global_distribution(),
        Distribution { dirt: 1, grass: 2, stone: 0 }
    );
}

#[test]
fn neighborhood_weights_favor_closer_tiles() {
    let mut w = WorldMap::new();
    w.place_tile(at(0, 0), TerrainType::Grass).unwrap();
    w.place_tile(at(4, 0), TerrainType::Dirt).unwrap();
    // Radius 8 around the origin: the grass tile at distance 0 weighs
    // 64 - 0 = 64, the dirt tile at squared distance 16 weighs 64 - 16 = 48.
    let d = w.neighborhood_distribution(at(0, 0), 8);
    assert_eq!(d, Distribution { dirt: 48, grass: 64, stone: 0 });
}

#[test]
fn neighborhood_of_empty_region_is_uniform() {
    let w = WorldMap::new();
    let d = w.neighborhood_distribution(at(100, 100), 8);
    assert_eq!(d, Distribution { dirt: 1, grass: 1, stone: 1 });
}
