//! The terrain classifier: a cumulative-distribution draw over a blended
//! distribution, walking the terrain types in the canonical order.

use vstd::prelude::*;
use crate::dist::Distribution;
use crate::terrain::TerrainType;

verus! {

/// The classification of a draw `r` against a distribution: walk the types in
/// the canonical order Dirt, Grass, Stone and pick the first whose cumulative
/// weight exceeds `r`. Every draw below the total lands in exactly one type;
/// there is no residual, because the weights are exact integers.
pub open spec fn spec_classify(b: Distribution, r: int) -> TerrainType {
    if r < b.dirt {
        TerrainType::Dirt
    } else if r < b.dirt + b.grass {
        TerrainType::Grass
    } else {
        TerrainType::Stone
    }
}

/// Classifies one draw against a distribution by the cumulative walk.
pub fn classify(b: &Distribution, r: u128) -> (t: TerrainType)
    requires
        b.is_valid(),
        b.total() <= u128::MAX,
        r < b.total(),
    ensures
        t == spec_classify(*b, r as int),
{
    if r < b.dirt {
        TerrainType::Dirt
    } else if r < b.dirt + b.grass {
        TerrainType::Grass
    } else {
        TerrainType::Stone
    }
}

/// Classifier coverage: for every draw below the total, classification yields
/// one of the three canonical types, and the draws landing in each type are
/// exactly as many as that type's weight — Dirt for the first `b.dirt`
/// values, Grass for the next `b.grass`, Stone for the remaining `b.stone`.
pub proof fn law_classifier_coverage(b: Distribution, r: int)
    requires
        b.is_valid(),
        0 <= r < b.total(),
    ensures
        spec_classify(b, r) == TerrainType::Dirt <==> r < b.dirt,
        spec_classify(b, r) == TerrainType::Grass <==> b.dirt <= r < b.dirt + b.grass,
        spec_classify(b, r) == TerrainType::Stone <==> b.dirt + b.grass <= r,
{
}

/// Relies on `rand::Rng::gen_range` on `rand::thread_rng()`: returns a value
/// uniformly distributed in `[0, n)`; the range is non-empty, so it does not
/// panic. Nothing more is assumed of the outcome than its range.
#[verifier::external_body]
fn draw_below(n: u128) -> (r: u128)
    requires
        n > 0,
    ensures
        r < n,
{
    rand::Rng::gen_range(&mut rand::thread_rng(), 0..n)
}

/// Draws a uniform random value below the distribution's total and classifies
/// it. The caller learns that the result is the classification of some draw
/// below the total; which draw is up to the randomness source.
pub fn classify_random(b: &Distribution) -> (t: TerrainType)
    requires
        b.is_valid(),
        b.total() <= u128::MAX,
    ensures
        exists|r: int| 0 <= r < b.total() && t == spec_classify(*b, r),
{
    let total: u128 = b.sum();
    let r: u128 = draw_below(total);
    let t = classify(b, r);
    proof {
        assert(t == spec_classify(*b, r as int));
    }
    t
}

} // verus!
