use worldgen::dist::{
    blend, blend_weight, from_counts, target_from_populations, Distribution, BLEND_ONE,
};
use worldgen::terrain::WorldgenError;

fn total(d: &Distribution) -> u128 {
    d.dirt + d.grass + d.stone
}

#[test]
fn from_counts_keeps_weights() {
    let d = from_counts(8, 1, 1);
    assert_eq!(d, Distribution { dirt: 8, grass: 1, stone: 1 });
}

#[test]
fn from_counts_zero_falls_back_to_uniform() {
    let d = from_counts(0, 0, 0);
    assert_eq!(d, Distribution { dirt: 1, grass: 1, stone: 1 });
}

#[test]
fn target_rejects_empty_population() {
    assert_eq!(
        target_from_populations(0, 0, 0),
        Err(WorldgenError::EmptyPopulation)
    );
}

#[test]
fn target_keeps_populations() {
    let d = target_from_populations(8, 1, 1).unwrap();
    assert_eq!(d, Distribution { dirt: 8, grass: 1, stone: 1 });
}

#[test]
fn weight_is_zero_when_global_matches_ideal() {
    let ideal = Distribution { dirt: 8, grass: 1, stone: 1 };
    let global = Distribution { dirt: 8, grass: 1, stone: 1 };
    assert_eq!(blend_weight(&global, &ideal), 0);
    // The same shares at a different scale still give weight zero.
    let scaled = Distribution { dirt: 16, grass: 2, stone: 2 };
    assert_eq!(blend_weight(&scaled, &ideal), 0);
}

#[test]
fn weight_saturates_when_distributions_are_apart() {
    // All mass on Grass against an ideal that has most mass elsewhere: the L1
    // distance exceeds the clamp, so the weight saturates at one.
    let ideal = Distribution { dirt: 8, grass: 1, stone: 1 };
    let global = Distribution { dirt: 0, grass: 100, stone: 0 };
    assert_eq!(blend_weight(&global, &ideal), BLEND_ONE);
}

#[test]
fn weight_of_small_drift_is_proportional() {
    // global (1, 1, 2) against ideal (1, 1, 1): shares 1/4, 1/4, 1/2 against
    // 1/3 each. L1 distance = 1/12 + 1/12 + 1/6 = 1/3, so the weight is
    // floor(1024 / 3) = 341.
    let ideal = Distribution { dirt: 1, grass: 1, stone: 1 };
    let global = Distribution { dirt: 1, grass: 1, stone: 2 };
    assert_eq!(blend_weight(&global, &ideal), 341);
}

#[test]
fn blend_total_is_exact() {
    let local = Distribution { dirt: 3, grass: 4, stone: 5 };
    let ideal = Distribution { dirt: 8, grass: 1, stone: 1 };
    for w in [0u128, 1, 341, 512, 1023, 1024] {
        let b = blend(&local, &ideal, w);
        assert_eq!(total(&b), 12 * 10 * 1073741824);
    }
}

#[test]
fn blend_at_zero_weight_equals_local() {
    let local = Distribution { dirt: 3, grass: 4, stone: 5 };
    let ideal = Distribution { dirt: 8, grass: 1, stone: 1 };
    let b = blend(&local, &ideal, 0);
    // Share for share: b[t] / total(b) == local[t] / total(local).
    assert_eq!(b.dirt * total(&local), local.dirt * total(&b));
    assert_eq!(b.grass * total(&local), local.grass * total(&b));
    assert_eq!(b.stone * total(&local), local.stone * total(&b));
}

#[test]
fn blend_at_full_weight_equals_ideal() {
    let local = Distribution { dirt: 3, grass: 4, stone: 5 };
    let ideal = Distribution { dirt: 8, grass: 1, stone: 1 };
    let b = blend(&local, &ideal, BLEND_ONE);
    assert_eq!(b.dirt * total(&ideal), ideal.dirt * total(&b));
    assert_eq!(b.grass * total(&ideal), ideal.grass * total(&b));
    assert_eq!(b.stone * total(&ideal), ideal.stone * total(&b));
}

#[test]
fn grass_flooded_world_is_pulled_toward_ideal() {
    // Population weights Dirt=8, Grass=1, Stone=1 and a world of 100 Grass
    // tiles: the drift saturates the weight, and the blended distribution
    // gives Dirt a strictly larger share than the all-grass local
    // distribution does.
    let ideal = target_from_populations(8, 1, 1).unwrap();
    let global = Distribution { dirt: 0, grass: 100, stone: 0 };
    let local = Distribution { dirt: 0, grass: 500, stone: 0 };
    let w = blend_weight(&global, &ideal);
    assert_eq!(w, BLEND_ONE);
    let b = blend(&local, &ideal, w);
    // P(Dirt) in the blend exceeds P(Dirt) from local alone (which is zero).
    assert!(b.dirt * total(&local) > local.dirt * total(&b));
    // And the blend equals the ideal share for share.
    assert_eq!(b.dirt * total(&ideal), ideal.dirt * total(&b));
    assert_eq!(b.grass * total(&ideal), ideal.grass * total(&b));
    assert_eq!(b.stone * total(&ideal), ideal.stone * total(&b));
}
