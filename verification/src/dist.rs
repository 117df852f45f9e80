//! Barycentric distributions over the three terrain types, kept as exact
//! integer weights, and the blend engine that mixes a local neighborhood
//! distribution with the ideal target distribution.
//!
//! A distribution is a triple of non-negative weights; the share of a type is
//! its weight divided by the total, so every distribution is normalized by
//! construction and all arithmetic on shares is exact cross-multiplication.
//! The blend weight is carried in fixed steps of `1 / BLEND_ONE`.

use vstd::prelude::*;
use crate::terrain::WorldgenError;

verus! {

/// The blend weight scale: a weight of `BLEND_ONE` stands for 1.0.
pub const BLEND_ONE: u128 = 1024;

/// `BLEND_ONE` cubed, the denominator of the cubic shaping of the weight.
pub const BLEND_ONE_CUBED: u128 = 1073741824;

/// Cap on a local (neighborhood) distribution total, so the blend arithmetic
/// fits in 128 bits.
pub const MAX_LOCAL_TOTAL: u128 = 0x1_0000_0000_0000;

/// Cap on the global (world counts) distribution total.
pub const MAX_GLOBAL_TOTAL: u128 = 0x4_0000_0000;

/// Cap on the ideal (target) distribution total.
pub const MAX_IDEAL_TOTAL: u128 = 0x4_0000_0000;

/// A distribution over the terrain types as exact integer weights, in the
/// canonical order Dirt, Grass, Stone. The share of a type is its weight over
/// the total; a valid distribution has a positive total.
#[derive(Clone, Copy, PartialEq, Eq, Structural, Debug)]
pub struct Distribution {
    pub dirt: u128,
    pub grass: u128,
    pub stone: u128,
}

impl Distribution {
    /// The sum of the three weights.
    pub open spec fn total(self) -> int {
        self.dirt + self.grass + self.stone
    }

    /// A distribution is usable when some weight is positive.
    pub open spec fn is_valid(self) -> bool {
        self.total() > 0
    }

    /// Computes the total of a distribution whose weights are known to fit.
    pub fn sum(&self) -> (t: u128)
        requires
            self.total() <= u128::MAX,
        ensures
            t == self.total(),
    {
        self.dirt + self.grass + self.stone
    }
}

/// Two distributions give every terrain type the same share, compared by
/// exact cross-multiplication.
pub open spec fn same_ratios(a: Distribution, b: Distribution) -> bool {
    &&& a.dirt * b.total() == b.dirt * a.total()
    &&& a.grass * b.total() == b.grass * a.total()
    &&& a.stone * b.total() == b.stone * a.total()
}

/// Absolute difference of two integers.
pub open spec fn abs_diff(a: int, b: int) -> int {
    if a >= b {
        a - b
    } else {
        b - a
    }
}

/// Builds a distribution from raw counts. All-zero counts fall back to the
/// uniform distribution, so the result is always valid.
pub open spec fn spec_from_counts(dirt: int, grass: int, stone: int) -> Distribution {
    if dirt == 0 && grass == 0 && stone == 0 {
        Distribution { dirt: 1, grass: 1, stone: 1 }
    } else {
        Distribution { dirt: dirt as u128, grass: grass as u128, stone: stone as u128 }
    }
}

/// Builds a distribution from raw counts, with the uniform fallback when all
/// counts are zero.
pub fn from_counts(dirt: u64, grass: u64, stone: u64) -> (d: Distribution)
    ensures
        d == spec_from_counts(dirt as int, grass as int, stone as int),
        d.is_valid(),
        d.total() <= 3 * 0xFFFF_FFFF_FFFF_FFFF,
{
    if dirt == 0 && grass == 0 && stone == 0 {
        Distribution { dirt: 1, grass: 1, stone: 1 }
    } else {
        Distribution { dirt: dirt as u128, grass: grass as u128, stone: stone as u128 }
    }
}

/// Builds the fixed target distribution from configured population weights.
/// All-zero weights are rejected: generation must not start with an undefined
/// target.
pub fn target_from_populations(dirt: u32, grass: u32, stone: u32) -> (r: Result<
    Distribution,
    WorldgenError,
>)
    ensures
        (dirt == 0 && grass == 0 && stone == 0) <==> r === Err(WorldgenError::EmptyPopulation),
        r matches Ok(d) ==> {
            &&& d == (Distribution { dirt: dirt as u128, grass: grass as u128, stone: stone as u128 })
            &&& d.is_valid()
            &&& d.total() <= MAX_IDEAL_TOTAL
        },
        r matches Err(e) ==> e === WorldgenError::EmptyPopulation,
{
    if dirt == 0 && grass == 0 && stone == 0 {
        Err(WorldgenError::EmptyPopulation)
    } else {
        Ok(Distribution { dirt: dirt as u128, grass: grass as u128, stone: stone as u128 })
    }
}

/// The L1 distance between two distributions, scaled by the product of their
/// totals so that it stays an exact integer: it is
/// `sum_t |g[t]/gt - i[t]/it| * gt * it`.
pub open spec fn l1_scaled(g: Distribution, i: Distribution) -> int {
    abs_diff(g.dirt * i.total(), i.dirt * g.total())
        + abs_diff(g.grass * i.total(), i.grass * g.total())
        + abs_diff(g.stone * i.total(), i.stone * g.total())
}

/// The blend weight in `1 / BLEND_ONE` steps: the L1 distance between the
/// global and the ideal distribution, clamped to 1. The unclamped distance
/// can reach 2, so the clamp keeps the blend from overshooting the ideal.
pub open spec fn spec_blend_weight(g: Distribution, i: Distribution) -> int {
    if l1_scaled(g, i) >= g.total() * i.total() {
        BLEND_ONE as int
    } else {
        l1_scaled(g, i) * (BLEND_ONE as int) / (g.total() * i.total())
    }
}

/// The blended weight of one terrain type: the local weight scaled by
/// `1 - w^3` plus the ideal weight scaled by `w^3`, brought to the common
/// denominator `lt * it * BLEND_ONE_CUBED`. The cubic shaping keeps new tiles
/// following local character while the world is near the ideal mix and only
/// pulls hard toward the ideal as the drift approaches its maximum.
pub open spec fn blend_part(l_part: int, lt: int, i_part: int, it: int, w: int) -> int {
    l_part * (BLEND_ONE_CUBED - w * w * w) * it + i_part * (w * w * w) * lt
}

/// The common denominator of the three blended weights.
pub open spec fn blend_total(l: Distribution, i: Distribution) -> int {
    l.total() * i.total() * (BLEND_ONE_CUBED as int)
}

/// A quotient of non-negative numbers stays within a scaled bound.
proof fn lemma_div_le(n: int, d: int, b: int)
    by (nonlinear_arith)
    requires
        0 < d,
        0 <= n <= b * d,
    ensures
        0 <= n / d <= b,
{
}

/// A product of two bounded non-negative factors is bounded by the product of
/// the bounds.
pub(crate) proof fn lemma_mul2_le(a: int, amax: int, b: int, bmax: int)
    by (nonlinear_arith)
    requires
        0 <= a <= amax,
        0 <= b <= bmax,
    ensures
        0 <= a * b <= amax * bmax,
{
}

/// A product of three bounded non-negative factors is bounded by the product
/// of the bounds.
proof fn lemma_mul3_le(a: int, amax: int, b: int, bmax: int, c: int, cmax: int)
    by (nonlinear_arith)
    requires
        0 <= a <= amax,
        0 <= b <= bmax,
        0 <= c <= cmax,
    ensures
        0 <= a * b * c <= amax * bmax * cmax,
{
}

/// Computes the blend weight: how far the current global mix has drifted from
/// the ideal target mix, in `1 / BLEND_ONE` steps, clamped to `BLEND_ONE`.
pub fn blend_weight(g: &Distribution, i: &Distribution) -> (w: u128)
    requires
        g.is_valid(),
        i.is_valid(),
        g.total() <= MAX_GLOBAL_TOTAL,
        i.total() <= MAX_IDEAL_TOTAL,
    ensures
        w == spec_blend_weight(*g, *i),
        w <= BLEND_ONE,
{
    let gt: u128 = g.sum();
    let it: u128 = i.sum();
    proof {
        lemma_mul3_le(g.dirt as int, gt as int, it as int, it as int, 1, 1);
        lemma_mul3_le(g.grass as int, gt as int, it as int, it as int, 1, 1);
        lemma_mul3_le(g.stone as int, gt as int, it as int, it as int, 1, 1);
        lemma_mul3_le(i.dirt as int, it as int, gt as int, gt as int, 1, 1);
        lemma_mul3_le(i.grass as int, it as int, gt as int, gt as int, 1, 1);
        lemma_mul3_le(i.stone as int, it as int, gt as int, gt as int, 1, 1);
        lemma_mul3_le(gt as int, MAX_GLOBAL_TOTAL as int, it as int, MAX_IDEAL_TOTAL as int, 1, 1);
    }
    let d_dirt: u128 = abs_diff_exec(g.dirt * it, i.dirt * gt);
    let d_grass: u128 = abs_diff_exec(g.grass * it, i.grass * gt);
    let d_stone: u128 = abs_diff_exec(g.stone * it, i.stone * gt);
    let l1: u128 = d_dirt + d_grass + d_stone;
    let denom: u128 = gt * it;
    if l1 >= denom {
        BLEND_ONE
    } else {
        proof {
            lemma_div_le(l1 as int * 1024, denom as int, 1024);
        }
        (l1 * BLEND_ONE) / denom
    }
}

/// Computes the absolute difference of two numbers.
fn abs_diff_exec(a: u128, b: u128) -> (d: u128)
    ensures
        d == abs_diff(a as int, b as int),
{
    if a >= b {
        a - b
    } else {
        b - a
    }
}

/// Blends the local distribution toward the ideal by the cubic shaping of the
/// weight: each blended weight is `l[t] * (1 - w^3) + i[t] * w^3` over the
/// exact common denominator `blend_total`.
pub fn blend(l: &Distribution, i: &Distribution, w: u128) -> (b: Distribution)
    requires
        l.is_valid(),
        i.is_valid(),
        w <= BLEND_ONE,
        l.total() <= MAX_LOCAL_TOTAL,
        i.total() <= MAX_IDEAL_TOTAL,
    ensures
        b.dirt == blend_part(l.dirt as int, l.total(), i.dirt as int, i.total(), w as int),
        b.grass == blend_part(l.grass as int, l.total(), i.grass as int, i.total(), w as int),
        b.stone == blend_part(l.stone as int, l.total(), i.stone as int, i.total(), w as int),
        b.total() == blend_total(*l, *i),
        b.total() <= u128::MAX,
        b.is_valid(),
{
    let lt: u128 = l.sum();
    let it: u128 = i.sum();
    proof {
        lemma_mul2_le(w as int, 1024, w as int, 1024);
        lemma_mul3_le(w as int, 1024, w as int, 1024, w as int, 1024);
    }
    let w3: u128 = w * w * w;
    let rest: u128 = BLEND_ONE_CUBED - w3;
    proof {
        lemma_mul3_le(
            l.dirt as int, MAX_LOCAL_TOTAL as int,
            rest as int, BLEND_ONE_CUBED as int,
            it as int, MAX_IDEAL_TOTAL as int,
        );
        lemma_mul3_le(
            l.grass as int, MAX_LOCAL_TOTAL as int,
            rest as int, BLEND_ONE_CUBED as int,
            it as int, MAX_IDEAL_TOTAL as int,
        );
        lemma_mul3_le(
            l.stone as int, MAX_LOCAL_TOTAL as int,
            rest as int, BLEND_ONE_CUBED as int,
            it as int, MAX_IDEAL_TOTAL as int,
        );
        lemma_mul3_le(
            i.dirt as int, MAX_IDEAL_TOTAL as int,
            w3 as int, BLEND_ONE_CUBED as int,
            lt as int, MAX_LOCAL_TOTAL as int,
        );
        lemma_mul3_le(
            i.grass as int, MAX_IDEAL_TOTAL as int,
            w3 as int, BLEND_ONE_CUBED as int,
            lt as int, MAX_LOCAL_TOTAL as int,
        );
        lemma_mul3_le(
            i.stone as int, MAX_IDEAL_TOTAL as int,
            w3 as int, BLEND_ONE_CUBED as int,
            lt as int, MAX_LOCAL_TOTAL as int,
        );
        lemma_mul2_le(l.dirt as int, MAX_LOCAL_TOTAL as int, rest as int, BLEND_ONE_CUBED as int);
        lemma_mul2_le(l.grass as int, MAX_LOCAL_TOTAL as int, rest as int, BLEND_ONE_CUBED as int);
        lemma_mul2_le(l.stone as int, MAX_LOCAL_TOTAL as int, rest as int, BLEND_ONE_CUBED as int);
        lemma_mul2_le(i.dirt as int, MAX_IDEAL_TOTAL as int, w3 as int, BLEND_ONE_CUBED as int);
        lemma_mul2_le(i.grass as int, MAX_IDEAL_TOTAL as int, w3 as int, BLEND_ONE_CUBED as int);
        lemma_mul2_le(i.stone as int, MAX_IDEAL_TOTAL as int, w3 as int, BLEND_ONE_CUBED as int);
    }
    let b = Distribution {
        dirt: l.dirt * rest * it + i.dirt * w3 * lt,
        grass: l.grass * rest * it + i.grass * w3 * lt,
        stone: l.stone * rest * it + i.stone * w3 * lt,
    };
    proof {
        law_blend_normalized(*l, *i, w as int);
    }
    b
}

/// Normalization of the blend: for any valid inputs and any weight in range,
/// the three blended weights sum exactly to the common denominator
/// `blend_total`, so the blended shares sum exactly to one.
pub proof fn law_blend_normalized(l: Distribution, i: Distribution, w: int)
    requires
        l.is_valid(),
        i.is_valid(),
        0 <= w <= BLEND_ONE,
    ensures
        blend_part(l.dirt as int, l.total(), i.dirt as int, i.total(), w)
            + blend_part(l.grass as int, l.total(), i.grass as int, i.total(), w)
            + blend_part(l.stone as int, l.total(), i.stone as int, i.total(), w)
            == blend_total(l, i),
        blend_total(l, i) > 0,
{
    let ld = l.dirt as int;
    let lg = l.grass as int;
    let ls = l.stone as int;
    let id = i.dirt as int;
    let ig = i.grass as int;
    let is_ = i.stone as int;
    let lt = l.total();
    let it = i.total();
    let w3 = w * w * w;
    let rest = BLEND_ONE_CUBED - w3;
    assert(ld * rest * it + lg * rest * it + ls * rest * it == lt * (rest * it))
        by (nonlinear_arith)
        requires lt == ld + lg + ls;
    assert(id * w3 * lt + ig * w3 * lt + is_ * w3 * lt == it * (w3 * lt))
        by (nonlinear_arith)
        requires it == id + ig + is_;
    assert(lt * (rest * it) + it * (w3 * lt) == lt * it * (BLEND_ONE_CUBED as int))
        by (nonlinear_arith)
        requires rest == BLEND_ONE_CUBED - w3;
    assert(lt * it * (BLEND_ONE_CUBED as int) > 0) by (nonlinear_arith)
        requires lt > 0 && it > 0;
}

/// Blend boundary at zero weight: with `w == 0` every blended weight is the
/// local weight scaled by one constant, so the blended distribution equals
/// the local one share for share.
pub proof fn law_blend_matches_local_at_zero(l: Distribution, i: Distribution)
    requires
        l.is_valid(),
        i.is_valid(),
    ensures
        blend_part(l.dirt as int, l.total(), i.dirt as int, i.total(), 0) * l.total()
            == l.dirt * blend_total(l, i),
        blend_part(l.grass as int, l.total(), i.grass as int, i.total(), 0) * l.total()
            == l.grass * blend_total(l, i),
        blend_part(l.stone as int, l.total(), i.stone as int, i.total(), 0) * l.total()
            == l.stone * blend_total(l, i),
{
    assert forall|p: int, q: int|
        #[trigger] (p * (BLEND_ONE_CUBED - 0) * i.total() + q * 0 * l.total()) * l.total()
            == p * (l.total() * i.total() * (BLEND_ONE_CUBED as int)) by {
        assert((p * ((BLEND_ONE_CUBED as int) - 0) * i.total() + q * 0 * l.total()) * l.total()
            == p * (l.total() * i.total() * (BLEND_ONE_CUBED as int))) by (nonlinear_arith);
    }
}

/// Blend boundary at full weight: with `w == BLEND_ONE` every blended weight
/// is the ideal weight scaled by one constant, so the blended distribution
/// equals the ideal one share for share.
pub proof fn law_blend_matches_ideal_at_one(l: Distribution, i: Distribution)
    requires
        l.is_valid(),
        i.is_valid(),
    ensures
        blend_part(l.dirt as int, l.total(), i.dirt as int, i.total(), BLEND_ONE as int)
            * i.total() == i.dirt * blend_total(l, i),
        blend_part(l.grass as int, l.total(), i.grass as int, i.total(), BLEND_ONE as int)
            * i.total() == i.grass * blend_total(l, i),
        blend_part(l.stone as int, l.total(), i.stone as int, i.total(), BLEND_ONE as int)
            * i.total() == i.stone * blend_total(l, i),
{
    let w: int = BLEND_ONE as int;
    assert forall|p: int, q: int|
        #[trigger] (p * (BLEND_ONE_CUBED - w * w * w) * i.total() + q * (w * w * w) * l.total())
            * i.total() == q * (l.total() * i.total() * (BLEND_ONE_CUBED as int)) by {
        assert((p * ((BLEND_ONE_CUBED as int) - w * w * w) * i.total()
            + q * (w * w * w) * l.total()) * i.total()
            == q * (l.total() * i.total() * (BLEND_ONE_CUBED as int))) by (nonlinear_arith)
            requires w == 1024;
    }
}

/// When the global distribution equals the ideal share for share, the blend
/// weight is exactly zero, so new tiles follow local character alone.
pub proof fn law_weight_zero_at_ideal(g: Distribution, i: Distribution)
    requires
        g.is_valid(),
        i.is_valid(),
        same_ratios(g, i),
    ensures
        spec_blend_weight(g, i) == 0,
{
    assert(l1_scaled(g, i) == 0);
    assert(g.total() * i.total() > 0) by (nonlinear_arith)
        requires g.total() > 0 && i.total() > 0;
}

/// When the global distribution is at least the clamp distance from the
/// ideal, the blend weight saturates at one, so new tiles are drawn from the
/// ideal distribution alone.
pub proof fn law_weight_full_at_max_distance(g: Distribution, i: Distribution)
    requires
        g.is_valid(),
        i.is_valid(),
        l1_scaled(g, i) >= g.total() * i.total(),
    ensures
        spec_blend_weight(g, i) == BLEND_ONE,
{
}

/// A global distribution with all mass on one category, where the ideal puts
/// none on that category, is maximally distant from the ideal: the weight
/// saturates. Stated here for mass concentrated on Grass.
pub proof fn law_weight_full_when_apart(g: Distribution, i: Distribution)
    requires
        g.is_valid(),
        i.is_valid(),
        g.dirt == 0,
        g.stone == 0,
        i.grass == 0,
    ensures
        spec_blend_weight(g, i) == BLEND_ONE,
{
    assert(l1_scaled(g, i) >= g.total() * i.total()) by (nonlinear_arith)
        requires
            g.dirt == 0 && g.stone == 0 && i.grass == 0,
            g.total() == g.dirt + g.grass + g.stone,
            i.total() == i.dirt + i.grass + i.stone,
            g.total() > 0 && i.total() > 0,
            l1_scaled(g, i) == abs_diff(g.dirt * i.total(), i.dirt * g.total())
                + abs_diff(g.grass * i.total(), i.grass * g.total())
                + abs_diff(g.stone * i.total(), i.stone * g.total()),
            abs_diff(g.dirt * i.total(), i.dirt * g.total())
                == if g.dirt * i.total() >= i.dirt * g.total() {
                    g.dirt * i.total() - i.dirt * g.total()
                } else {
                    i.dirt * g.total() - g.dirt * i.total()
                },
            abs_diff(g.grass * i.total(), i.grass * g.total())
                == if g.grass * i.total() >= i.grass * g.total() {
                    g.grass * i.total() - i.grass * g.total()
                } else {
                    i.grass * g.total() - g.grass * i.total()
                },
            abs_diff(g.stone * i.total(), i.stone * g.total())
                == if g.stone * i.total() >= i.stone * g.total() {
                    g.stone * i.total() - i.stone * g.total()
                } else {
                    i.stone * g.total() - g.stone * i.total()
                };
    law_weight_full_at_max_distance(g, i);
}

} // verus!
