use worldgen::classify::{classify, classify_random};
use worldgen::dist::Distribution;
use worldgen::terrain::TerrainType;

#[test]
fn classify_walks_cumulative_shares() {
    let b = Distribution { dirt: 3, grass: 2, stone: 5 };
    assert_eq!(classify(&b, 0), TerrainType::Dirt);
    assert_eq!(classify(&b, 2), TerrainType::Dirt);
    assert_eq!(classify(&b, 3), TerrainType::Grass);
    assert_eq!(classify(&b, 4), TerrainType::Grass);
    assert_eq!(classify(&b, 5), TerrainType::Stone);
    assert_eq!(classify(&b, 9), TerrainType::Stone);
}

#[test]
fn classify_sweep_matches_shares_exactly() {
    // Sweeping every draw below the total lands each type exactly as often as
    // its weight: the draw frequencies are the shares, with no residual.
    let b = Distribution { dirt: 3, grass: 2, stone: 5 };
    let mut dirt: u128 = 0;
    let mut grass: u128 = 0;
    let mut stone: u128 = 0;
    let total = b.dirt + b.grass + b.stone;
    for r in 0..total {
        match classify(&b, r) {
            TerrainType::Dirt => dirt += 1,
            TerrainType::Grass => grass += 1,
            TerrainType::Stone => stone += 1,
        }
    }
    assert_eq!(dirt, b.dirt);
    assert_eq!(grass, b.grass);
    assert_eq!(stone, b.stone);
}

#[test]
fn classify_skips_zero_weight_types() {
    let b = Distribution { dirt: 0, grass: 1, stone: 0 };
    assert_eq!(classify(&b, 0), TerrainType::Grass);
}

#[test]
fn classify_random_with_single_outcome_is_deterministic() {
    // With total weight 1 the only admissible draw is 0, so the random path
    // must classify it as Dirt; a draw outside [0, total) would land on
    // Stone instead.
    let b = Distribution { dirt: 1, grass: 0, stone: 0 };
    for _ in 0..32 {
        assert_eq!(classify_random(&b), TerrainType::Dirt);
    }
}

#[test]
fn classify_random_respects_zero_weights() {
    // Grass has every admissible draw; Dirt and Stone have none.
    let b = Distribution { dirt: 0, grass: 7, stone: 0 };
    for _ in 0..32 {
        assert_eq!(classify_random(&b), TerrainType::Grass);
    }
}
