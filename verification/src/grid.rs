//! Grid math: lattice coordinates, squared distances, the set of lattice
//! points inside a radius, and the conversion from world units to grid cells.

use vstd::prelude::*;

verus! {

broadcast use vstd::seq_lib::lemma_seq_contains_after_push;

/// Largest radius (in tiles) the grid math accepts, so that all squared
/// distances and point counts stay far inside the machine integer ranges.
pub const MAX_RADIUS: u32 = 256;

/// A grid cell, identified by its integer column and row in tile units.
#[derive(Clone, Copy, PartialEq, Eq, Structural, Debug, Hash)]
pub struct Coordinate {
    pub x: i32,
    pub y: i32,
}

/// Squared Euclidean distance between two cells. All distance comparisons in
/// this crate are between squared quantities, so no roots are ever taken.
pub open spec fn sq_dist(a: Coordinate, b: Coordinate) -> int {
    (a.x - b.x) * (a.x - b.x) + (a.y - b.y) * (a.y - b.y)
}

/// The square of a number within a symmetric bound stays within the squared
/// bound.
pub(crate) proof fn lemma_square_within(n: int, b: int)
    by (nonlinear_arith)
    requires
        0 <= b,
        -b <= n <= b,
    ensures
        0 <= n * n <= b * b,
{
}

/// Whether the offset `c` lies strictly inside the disc of the given radius
/// around the origin, comparing squared quantities.
pub open spec fn in_disc(radius: int, c: Coordinate) -> bool {
    c.x * c.x + c.y * c.y < radius * radius
}

/// Row-major order on cells: by column first, then by row, both ascending.
pub open spec fn row_major_lt(a: Coordinate, b: Coordinate) -> bool {
    a.x < b.x || (a.x == b.x && a.y < b.y)
}

/// A number whose square is below a positive square is below that bound in
/// magnitude.
pub(crate) proof fn lemma_sq_below(n: int, b: int)
    by (nonlinear_arith)
    requires
        0 < b,
        n * n < b * b,
    ensures
        -b < n < b,
{
}

/// Every offset inside a disc of positive radius lies in the open box of the
/// same half-width around the origin.
pub(crate) proof fn lemma_disc_box(r: int)
    requires
        0 < r,
    ensures
        forall|c: Coordinate| #[trigger] in_disc(r, c) ==> 1 - r <= c.x < r && 1 - r <= c.y < r,
{
    assert forall|c: Coordinate| #[trigger] in_disc(r, c)
        implies 1 - r <= c.x < r && 1 - r <= c.y < r by {
        lemma_square_within(c.x as int, 0x8000_0000);
        lemma_square_within(c.y as int, 0x8000_0000);
        lemma_sq_below(c.x as int, r);
        lemma_sq_below(c.y as int, r);
    }
}

/// A squared distance is never negative and never exceeds the square of the
/// largest offset range.
pub proof fn lemma_sq_dist_range(a: Coordinate, b: Coordinate)
    ensures
        0 <= sq_dist(a, b) <= 2 * 0xFFFF_FFFF * 0xFFFF_FFFF,
{
    lemma_square_within(a.x - b.x, 0xFFFF_FFFF);
    lemma_square_within(a.y - b.y, 0xFFFF_FFFF);
}

/// Computes the squared distance between two cells exactly.
pub fn sq_dist_exec(a: Coordinate, b: Coordinate) -> (d: i128)
    ensures
        d == sq_dist(a, b),
{
    let dx: i64 = a.x as i64 - b.x as i64;
    let dy: i64 = a.y as i64 - b.y as i64;
    proof {
        lemma_square_within(dx as int, 0xFFFF_FFFF);
        lemma_square_within(dy as int, 0xFFFF_FFFF);
    }
    (dx as i128) * (dx as i128) + (dy as i128) * (dy as i128)
}

/// Every integer offset strictly inside the disc of the given radius, exactly
/// once, in row-major order (column ascending, row ascending within a
/// column). The sequence is materialized afresh on every call.
pub fn points_in_radius(radius: u32) -> (pts: Vec<Coordinate>)
    requires
        radius <= MAX_RADIUS,
    ensures
        forall|i: int| 0 <= i < pts@.len() ==> in_disc(radius as int, #[trigger] pts@[i]),
        forall|c: Coordinate| #[trigger] in_disc(radius as int, c) ==> pts@.contains(c),
        forall|i: int, j: int|
            0 <= i < j < pts@.len() ==> row_major_lt(pts@[i], pts@[j]),
        pts@.len() <= 263169,
{
    let mut pts: Vec<Coordinate> = Vec::new();
    if radius == 0 {
        assert forall|c: Coordinate| !in_disc(0, c) by {
            lemma_square_within(c.x as int, 0x8000_0000);
            lemma_square_within(c.y as int, 0x8000_0000);
        }
        return pts;
    }
    let ri: i32 = radius as i32;
    proof {
        lemma_disc_box(ri as int);
    }
    let mut dx: i32 = 1 - ri;
    while dx < ri
        invariant
            1 <= ri <= 256,
            ri == radius,
            1 - ri <= dx <= ri,
            forall|i: int|
                0 <= i < pts@.len() ==> in_disc(ri as int, #[trigger] pts@[i]) && pts@[i].x < dx,
            forall|c: Coordinate|
                #[trigger] in_disc(ri as int, c) && c.x < dx ==> pts@.contains(c),
            forall|i: int, j: int|
                0 <= i < j < pts@.len() ==> row_major_lt(pts@[i], pts@[j]),
            pts@.len() <= (dx + ri - 1) * 513,
        decreases ri - dx,
    {
        proof {
            lemma_disc_box(ri as int);
        }
        let ghost row_base: int = (dx + ri - 1) * 513;
        let mut dy: i32 = 1 - ri;
        while dy < ri
            invariant
                1 <= ri <= 256,
                ri == radius,
                1 - ri <= dx < ri,
                1 - ri <= dy <= ri,
                row_base == (dx + ri - 1) * 513,
                forall|i: int|
                    0 <= i < pts@.len() ==> in_disc(ri as int, #[trigger] pts@[i])
                        && (pts@[i].x < dx || (pts@[i].x == dx && pts@[i].y < dy)),
                forall|c: Coordinate|
                    #[trigger] in_disc(ri as int, c)
                        && (c.x < dx || (c.x == dx && c.y < dy)) ==> pts@.contains(c),
                forall|i: int, j: int|
                    0 <= i < j < pts@.len() ==> row_major_lt(pts@[i], pts@[j]),
                pts@.len() <= row_base + (dy + ri - 1),
            decreases ri - dy,
        {
            proof {
                lemma_square_within(dx as int, 256);
                lemma_square_within(dy as int, 256);
                lemma_square_within(ri as int, 256);
            }
            let d2: i64 = (dx as i64) * (dx as i64) + (dy as i64) * (dy as i64);
            if d2 < (ri as i64) * (ri as i64) {
                pts.push(Coordinate { x: dx, y: dy });
            }
            proof {
                assert forall|c: Coordinate|
                    #[trigger] in_disc(ri as int, c)
                        && (c.x < dx || (c.x == dx && c.y < dy + 1)) implies pts@.contains(c) by {
                    if c.x == dx && c.y == dy {
                        assert(c == (Coordinate { x: dx, y: dy }));
                    }
                }
            }
            dy = dy + 1;
        }
        proof {
            assert forall|c: Coordinate|
                #[trigger] in_disc(ri as int, c) && c.x < dx + 1 implies pts@.contains(c) by {
                if c.x == dx {
                    lemma_square_within(c.x as int, 256);
                    lemma_sq_below(c.y as int, ri as int);
                }
            }
        }
        dx = dx + 1;
    }
    proof {
        assert forall|c: Coordinate| #[trigger] in_disc(ri as int, c) implies pts@.contains(c) by {
            lemma_square_within(c.y as int, 0x8000_0000);
            lemma_sq_below(c.x as int, ri as int);
        }
    }
    pts
}

/// Nearest grid cell index for a world-unit position given as the exact
/// fraction `num / step`, rounding halves away from zero. The same rule is
/// applied on every call, so a position near a half-tile boundary always maps
/// to the same cell.
pub open spec fn round_to_grid(num: int, step: int) -> int {
    if num >= 0 {
        (2 * num + step) / (2 * step)
    } else {
        -((2 * (-num) + step) / (2 * step))
    }
}

/// Division by a positive number keeps a scaled bound: if the dividend is at
/// most `b` times the divisor, the quotient is at most `b`.
proof fn lemma_div_bound(n: int, d: int, b: int)
    by (nonlinear_arith)
    requires
        0 < d,
        0 <= n <= b * d,
    ensures
        0 <= n / d <= b,
{
}

/// Converts a world-unit position to its grid cell. The position is the
/// exact fraction `num / step` in tile units, with `step` the tile size
/// scale; halves round away from zero.
pub fn world_to_grid(num: i64, step: i64) -> (cell: i32)
    requires
        0 < step,
        -0x7FFF_FFFE * (step as int) <= num <= 0x7FFF_FFFE * (step as int),
    ensures
        cell == round_to_grid(num as int, step as int),
{
    let s: u128 = step as u128;
    if num >= 0 {
        let n: u128 = num as u128;
        proof {
            lemma_div_bound(2 * n + s, 2 * s, 0x7FFF_FFFF);
            assert(2 * (num as int) + step <= 2 * 0x7FFF_FFFE * (step as int) + step)
                by (nonlinear_arith)
                requires num <= 0x7FFF_FFFE * (step as int) && 0 < step;
            assert(2 * 0x7FFF_FFFE * (step as int) + step <= 0x7FFF_FFFF * (2 * (step as int)))
                by (nonlinear_arith)
                requires 0 < step;
        }
        let q: u128 = (2 * n + s) / (2 * s);
        q as i32
    } else {
        let n: u128 = (-(num as i128)) as u128;
        proof {
            lemma_div_bound(2 * n + s, 2 * s, 0x7FFF_FFFF);
            assert(2 * (-num as int) + step <= 2 * 0x7FFF_FFFE * (step as int) + step)
                by (nonlinear_arith)
                requires -num <= 0x7FFF_FFFE * (step as int) && 0 < step;
            assert(2 * 0x7FFF_FFFE * (step as int) + step <= 0x7FFF_FFFF * (2 * (step as int)))
                by (nonlinear_arith)
                requires 0 < step;
        }
        let q: u128 = (2 * n + s) / (2 * s);
        -(q as i32)
    }
}

} // verus!
