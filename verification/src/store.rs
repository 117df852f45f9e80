//! The world map store: the single owner of all placed tiles, an O(1)
//! coordinate index, and the running per-type counts.

use vstd::prelude::*;
use crate::dist::{spec_from_counts, Distribution, MAX_GLOBAL_TOTAL, MAX_LOCAL_TOTAL};
use crate::grid::{sq_dist, sq_dist_exec, Coordinate, MAX_RADIUS};
use crate::terrain::{TerrainType, Tile, WorldgenError};

verus! {

broadcast use vstd::std_specs::hash::group_hash_axioms;

/// The most tiles a store will hold; keeps every count far inside `u64`.
pub const MAX_TILES: usize = 0xFFFF_FFFF;

/// Packs a coordinate into one integer key: the two offsets, each shifted
/// into `[0, 2^32)`, side by side. Distinct coordinates get distinct keys.
pub open spec fn key_of(c: Coordinate) -> u64 {
    ((c.x + 0x8000_0000) * 0x1_0000_0000 + (c.y + 0x8000_0000)) as u64
}

/// Distinct coordinates pack to distinct keys.
proof fn lemma_key_injective()
    ensures
        forall|a: Coordinate, b: Coordinate| key_of(a) == key_of(b) ==> a == b,
{
    assert forall|a: Coordinate, b: Coordinate| key_of(a) == key_of(b) implies a == b by {
        let ka = (a.x + 0x8000_0000) * 0x1_0000_0000 + (a.y + 0x8000_0000);
        let kb = (b.x + 0x8000_0000) * 0x1_0000_0000 + (b.y + 0x8000_0000);
        assert(ka == kb);
    }
}

/// Computes the packed key of a coordinate.
fn key_of_exec(c: Coordinate) -> (k: u64)
    ensures
        k == key_of(c),
{
    let xs: u64 = (c.x as i64 + 0x8000_0000) as u64;
    let ys: u64 = (c.y as i64 + 0x8000_0000) as u64;
    xs * 0x1_0000_0000 + ys
}

/// How many tiles of one terrain type a sequence of tiles holds.
pub open spec fn terrain_count(s: Seq<Tile>, t: TerrainType) -> int
    decreases s.len(),
{
    if s.len() == 0 {
        0
    } else {
        terrain_count(s.drop_last(), t) + (if s.last().terrain == t {
            1int
        } else {
            0int
        })
    }
}

/// Appending one tile raises the count of its type by one and leaves the
/// other counts unchanged.
proof fn lemma_terrain_count_push(s: Seq<Tile>, x: Tile, t: TerrainType)
    ensures
        terrain_count(s.push(x), t) == terrain_count(s, t) + (if x.terrain == t {
            1int
        } else {
            0int
        }),
{
    assert(s.push(x).drop_last() =~= s);
    assert(s.push(x).last() == x);
}

/// A per-type count never exceeds the number of tiles.
proof fn lemma_terrain_count_le_len(s: Seq<Tile>, t: TerrainType)
    ensures
        0 <= terrain_count(s, t) <= s.len(),
    decreases s.len(),
{
    if s.len() > 0 {
        lemma_terrain_count_le_len(s.drop_last(), t);
    }
}

/// Count invariant: the three per-type counts always sum to the number of
/// placed tiles, for every sequence of tiles.
pub proof fn law_count_invariant(s: Seq<Tile>)
    ensures
        terrain_count(s, TerrainType::Dirt) + terrain_count(s, TerrainType::Grass)
            + terrain_count(s, TerrainType::Stone) == s.len(),
    decreases s.len(),
{
    if s.len() > 0 {
        law_count_invariant(s.drop_last());
    }
}

/// The running number of placed tiles of each terrain type.
#[derive(Clone, Copy, PartialEq, Eq, Structural, Debug)]
pub struct WorldCounts {
    pub dirt: u64,
    pub grass: u64,
    pub stone: u64,
}

impl WorldCounts {
    /// The total number of counted tiles.
    pub open spec fn sum(self) -> int {
        self.dirt + self.grass + self.stone
    }

    /// Builds counts from the three per-type values.
    pub fn new(dirt: u64, grass: u64, stone: u64) -> (wc: WorldCounts)
        ensures
            wc == (WorldCounts { dirt, grass, stone }),
    {
        WorldCounts { dirt, grass, stone }
    }

    /// Raises the count of one terrain type by one and hands back a snapshot
    /// of the updated counts.
    pub fn add_one(&mut self, t: &TerrainType) -> (wc: WorldCounts)
        requires
            old(self).dirt < u64::MAX,
            old(self).grass < u64::MAX,
            old(self).stone < u64::MAX,
        ensures
            final(self).dirt == old(self).dirt + (if t is Dirt { 1int } else { 0int }),
            final(self).grass == old(self).grass + (if t is Grass { 1int } else { 0int }),
            final(self).stone == old(self).stone + (if t is Stone { 1int } else { 0int }),
            wc == *final(self),
    {
        match t {
            TerrainType::Dirt => {
                self.dirt = self.dirt + 1;
            },
            TerrainType::Grass => {
                self.grass = self.grass + 1;
            },
            TerrainType::Stone => {
                self.stone = self.stone + 1;
            },
        }
        WorldCounts { dirt: self.dirt, grass: self.grass, stone: self.stone }
    }

    /// Adds one tile of every terrain type; a smoothing prior over counts.
    pub fn one_of_each(self) -> (wc: WorldCounts)
        requires
            self.dirt < u64::MAX,
            self.grass < u64::MAX,
            self.stone < u64::MAX,
        ensures
            wc == (WorldCounts {
                dirt: (self.dirt + 1) as u64,
                grass: (self.grass + 1) as u64,
                stone: (self.stone + 1) as u64,
            }),
    {
        WorldCounts { dirt: self.dirt + 1, grass: self.grass + 1, stone: self.stone + 1 }
    }

    /// The counts as an exact distribution, with the uniform fallback when
    /// nothing is placed yet.
    pub fn to_distribution(&self) -> (d: Distribution)
        ensures
            d == spec_from_counts(self.dirt as int, self.grass as int, self.stone as int),
            d.is_valid(),
    {
        crate::dist::from_counts(self.dirt, self.grass, self.stone)
    }
}

impl Default for WorldCounts {
    /// Zero tiles of every type.
    fn default() -> (wc: WorldCounts)
        ensures
            wc == (WorldCounts { dirt: 0, grass: 0, stone: 0 }),
    {
        WorldCounts { dirt: 0, grass: 0, stone: 0 }
    }
}

/// The result placement yields on a store whose contents are `m`: a
/// coordinate that already holds a tile is refused, every other placement
/// succeeds.
pub open spec fn place_result(m: Map<Coordinate, TerrainType>, c: Coordinate) -> Result<
    (),
    WorldgenError,
> {
    if m.contains_key(c) {
        Err(WorldgenError::DuplicateCoordinate)
    } else {
        Ok(())
    }
}

/// The contents after a placement: unchanged on a duplicate, extended by the
/// new tile otherwise.
pub open spec fn place_map(
    m: Map<Coordinate, TerrainType>,
    c: Coordinate,
    t: TerrainType,
) -> Map<Coordinate, TerrainType> {
    if m.contains_key(c) {
        m
    } else {
        m.insert(c, t)
    }
}

/// The placement order after a placement: unchanged on a duplicate, the new
/// tile appended otherwise.
pub open spec fn place_seq(
    s: Seq<Tile>,
    m: Map<Coordinate, TerrainType>,
    c: Coordinate,
    t: TerrainType,
) -> Seq<Tile> {
    if m.contains_key(c) {
        s
    } else {
        s.push(Tile { coord: c, terrain: t })
    }
}

/// Terrain is write-once: placing on a free coordinate succeeds, any further
/// placement on that coordinate fails with `DuplicateCoordinate`, and the
/// coordinate keeps its original terrain type through every later placement.
pub proof fn law_write_once(m: Map<Coordinate, TerrainType>, c: Coordinate, t: TerrainType)
    requires
        !m.contains_key(c),
    ensures
        place_result(m, c) == Ok::<(), WorldgenError>(()),
        place_result(place_map(m, c, t), c) == Err::<(), WorldgenError>(
            WorldgenError::DuplicateCoordinate,
        ),
        place_map(m, c, t)[c] == t,
        forall|c2: Coordinate, t2: TerrainType|
            c2 != c ==> place_map(place_map(m, c, t), c2, t2)[c] == t,
{
}

/// The distance-weighted local count of one terrain type around a center:
/// every tile strictly within the radius contributes `radius^2 - distance^2`,
/// so closer neighbors contribute more weight.
pub open spec fn local_weight(s: Seq<Tile>, center: Coordinate, radius: int, t: TerrainType) -> int
    decreases s.len(),
{
    if s.len() == 0 {
        0
    } else {
        local_weight(s.drop_last(), center, radius, t) + (if s.last().terrain == t && sq_dist(
            s.last().coord,
            center,
        ) < radius * radius {
            radius * radius - sq_dist(s.last().coord, center)
        } else {
            0int
        })
    }
}

/// Appending one tile adds its weight to the count of its own type and leaves
/// the other types unchanged.
proof fn lemma_local_weight_push(s: Seq<Tile>, x: Tile, center: Coordinate, radius: int, t: TerrainType)
    ensures
        local_weight(s.push(x), center, radius, t) == local_weight(s, center, radius, t) + (
        if x.terrain == t && sq_dist(x.coord, center) < radius * radius {
            radius * radius - sq_dist(x.coord, center)
        } else {
            0int
        }),
{
    assert(s.push(x).drop_last() =~= s);
    assert(s.push(x).last() == x);
}

/// The local weights are non-negative and sum to at most the number of tiles
/// times the squared radius: each tile contributes to exactly one type, at
/// most `radius^2`.
proof fn lemma_local_weight_total(s: Seq<Tile>, center: Coordinate, radius: int)
    requires
        radius >= 1,
    ensures
        local_weight(s, center, radius, TerrainType::Dirt) >= 0,
        local_weight(s, center, radius, TerrainType::Grass) >= 0,
        local_weight(s, center, radius, TerrainType::Stone) >= 0,
        local_weight(s, center, radius, TerrainType::Dirt) + local_weight(
            s,
            center,
            radius,
            TerrainType::Grass,
        ) + local_weight(s, center, radius, TerrainType::Stone) <= s.len() * (radius * radius),
    decreases s.len(),
{
    let rr = radius * radius;
    if s.len() == 0 {
        assert(s.len() * rr == 0) by (nonlinear_arith)
            requires s.len() == 0;
    } else {
        lemma_local_weight_total(s.drop_last(), center, radius);
        crate::grid::lemma_sq_dist_range(s.last().coord, center);
        assert((s.len() - 1) * rr + rr == s.len() * rr) by (nonlinear_arith);
        assert(s.drop_last().len() * rr == (s.len() - 1) * rr);
    }
}

/// The world map store: the placed tiles in placement order, a hash index
/// from packed coordinate keys to terrain types for O(1) lookup, and the
/// running per-type counts. The store is the single writer of the world.
pub struct WorldMap {
    tiles: Vec<Tile>,
    index: vstd::hash_map::HashMapWithView<u64, TerrainType>,
    counts: WorldCounts,
}

impl WorldMap {
    /// The placed tiles, in placement order.
    pub closed spec fn tiles_seq(&self) -> Seq<Tile> {
        self.tiles@
    }

    /// The contents of the world as a map from coordinates to terrain types.
    pub closed spec fn terrain_map(&self) -> Map<Coordinate, TerrainType> {
        Map::new(
            |c: Coordinate| self.index@.contains_key(key_of(c)),
            |c: Coordinate| self.index@[key_of(c)],
        )
    }

    /// Internal consistency: coordinates are unique, the index lists exactly
    /// the placed coordinates with their terrain, and the counts are the
    /// per-type counts of the placed tiles.
    pub closed spec fn wf(&self) -> bool {
        &&& self.tiles@.len() <= MAX_TILES
        &&& forall|i: int, j: int|
            0 <= i < j < self.tiles@.len() ==> self.tiles@[i].coord != self.tiles@[j].coord
        &&& forall|k: u64|
            self.index@.contains_key(k) ==> exists|i: int|
                0 <= i < self.tiles@.len() && key_of(#[trigger] self.tiles@[i].coord) == k
        &&& forall|i: int|
            0 <= i < self.tiles@.len() ==> self.index@.contains_key(
                key_of(#[trigger] self.tiles@[i].coord),
            ) && self.index@[key_of(self.tiles@[i].coord)] == self.tiles@[i].terrain
        &&& self.counts.dirt == terrain_count(self.tiles@, TerrainType::Dirt)
        &&& self.counts.grass == terrain_count(self.tiles@, TerrainType::Grass)
        &&& self.counts.stone == terrain_count(self.tiles@, TerrainType::Stone)
    }

    /// What a well-formed store guarantees about its two views: the map holds
    /// exactly the coordinates of the placed tiles with their terrain, the
    /// placement order never repeats a coordinate, and the store is bounded.
    pub proof fn lemma_views_agree(&self)
        requires
            self.wf(),
        ensures
            forall|c: Coordinate|
                #[trigger] self.terrain_map().contains_key(c) <==> exists|i: int|
                    0 <= i < self.tiles_seq().len() && (#[trigger] self.tiles_seq()[i]).coord == c,
            forall|i: int|
                0 <= i < self.tiles_seq().len() ==> self.terrain_map().contains_key(
                    (#[trigger] self.tiles_seq()[i]).coord,
                ) && self.terrain_map()[self.tiles_seq()[i].coord] == self.tiles_seq()[i].terrain,
            forall|i: int, j: int|
                0 <= i < j < self.tiles_seq().len() ==> self.tiles_seq()[i].coord
                    != self.tiles_seq()[j].coord,
            self.tiles_seq().len() <= MAX_TILES,
    {
        lemma_key_injective();
        assert forall|c: Coordinate| #[trigger] self.terrain_map().contains_key(c) implies exists|
            i: int,
        |
            0 <= i < self.tiles_seq().len() && (#[trigger] self.tiles_seq()[i]).coord == c by {
            let k = key_of(c);
            let i = choose|i: int|
                0 <= i < self.tiles@.len() && key_of(#[trigger] self.tiles@[i].coord) == k;
            assert(self.tiles@[i].coord == c);
        }
    }

    /// Creates an empty world.
    pub fn new() -> (w: WorldMap)
        ensures
            w.wf(),
            w.tiles_seq() == Seq::<Tile>::empty(),
            w.terrain_map() == Map::<Coordinate, TerrainType>::empty(),
    {
        let w = WorldMap {
            tiles: Vec::new(),
            index: vstd::hash_map::HashMapWithView::new(),
            counts: WorldCounts { dirt: 0, grass: 0, stone: 0 },
        };
        proof {
            assert(w.tiles@ =~= Seq::<Tile>::empty());
            assert(w.terrain_map() =~= Map::<Coordinate, TerrainType>::empty());
        }
        w
    }

    /// The number of placed tiles.
    pub fn len(&self) -> (n: usize)
        ensures
            n == self.tiles_seq().len(),
    {
        self.tiles.len()
    }

    /// Looks up the terrain type at a coordinate; `None` when no tile has
    /// been placed there.
    pub fn tile_at(&self, coord: Coordinate) -> (r: Option<TerrainType>)
        requires
            self.wf(),
        ensures
            r == (if self.terrain_map().contains_key(coord) {
                Some(self.terrain_map()[coord])
            } else {
                None::<TerrainType>
            }),
    {
        let k = key_of_exec(coord);
        match self.index.get(&k) {
            Some(t) => Some(*t),
            None => None,
        }
    }

    /// A read-only snapshot of the per-type counts.
    pub fn counts(&self) -> (wc: WorldCounts)
        requires
            self.wf(),
        ensures
            wc.dirt == terrain_count(self.tiles_seq(), TerrainType::Dirt),
            wc.grass == terrain_count(self.tiles_seq(), TerrainType::Grass),
            wc.stone == terrain_count(self.tiles_seq(), TerrainType::Stone),
            wc.sum() == self.tiles_seq().len(),
    {
        proof {
            law_count_invariant(self.tiles@);
        }
        self.counts
    }

    /// Places a new tile. Fails with `DuplicateCoordinate`, leaving the world
    /// unchanged, exactly when the coordinate already holds a tile; otherwise
    /// records the tile and raises the count of its type.
    pub fn place_tile(&mut self, coord: Coordinate, terrain: TerrainType) -> (r: Result<
        (),
        WorldgenError,
    >)
        requires
            old(self).wf(),
            old(self).tiles_seq().len() < MAX_TILES,
        ensures
            final(self).wf(),
            r == place_result(old(self).terrain_map(), coord),
            final(self).terrain_map() == place_map(old(self).terrain_map(), coord, terrain),
            final(self).tiles_seq() == place_seq(
                old(self).tiles_seq(),
                old(self).terrain_map(),
                coord,
                terrain,
            ),
    {
        let k = key_of_exec(coord);
        if self.index.contains_key(&k) {
            return Err(WorldgenError::DuplicateCoordinate);
        }
        proof {
            lemma_key_injective();
            lemma_terrain_count_le_len(self.tiles@, TerrainType::Dirt);
            lemma_terrain_count_le_len(self.tiles@, TerrainType::Grass);
            lemma_terrain_count_le_len(self.tiles@, TerrainType::Stone);
        }
        let tile = Tile { coord, terrain };
        self.index.insert(k, terrain);
        self.tiles.push(tile);
        self.counts.add_one(&terrain);
        proof {
            lemma_terrain_count_push(old(self).tiles@, tile, TerrainType::Dirt);
            lemma_terrain_count_push(old(self).tiles@, tile, TerrainType::Grass);
            lemma_terrain_count_push(old(self).tiles@, tile, TerrainType::Stone);
            let n = self.tiles@.len();
            assert(self.tiles@ == old(self).tiles@.push(tile));
            assert forall|i: int, j: int| 0 <= i < j < n implies self.tiles@[i].coord
                != self.tiles@[j].coord by {
                if j == n - 1 {
                    assert(old(self).index@.contains_key(key_of(old(self).tiles@[i].coord)));
                }
            }
            assert forall|k2: u64| self.index@.contains_key(k2) implies exists|i: int|
                0 <= i < n && key_of(#[trigger] self.tiles@[i].coord) == k2 by {
                if k2 == k {
                    assert(key_of(self.tiles@[n - 1].coord) == k2);
                } else {
                    assert(old(self).index@.contains_key(k2));
                    let i = choose|i: int|
                        0 <= i < old(self).tiles@.len() && key_of(
                            #[trigger] old(self).tiles@[i].coord,
                        ) == k2;
                    assert(key_of(self.tiles@[i].coord) == k2);
                }
            }
            assert forall|i: int| 0 <= i < n implies self.index@.contains_key(
                key_of(#[trigger] self.tiles@[i].coord),
            ) && self.index@[key_of(self.tiles@[i].coord)] == self.tiles@[i].terrain by {
                if i < n - 1 {
                    assert(old(self).index@.contains_key(key_of(old(self).tiles@[i].coord)));
                    assert(key_of(self.tiles@[i].coord) != k);
                } else {
                    assert(key_of(self.tiles@[i].coord) == k);
                }
            }
            assert(self.wf());
            assert(self.terrain_map() =~= old(self).terrain_map().insert(coord, terrain));
        }
        Ok(())
    }

    /// The world-wide running distribution: the per-type counts as exact
    /// weights, uniform while the world is still empty.
    pub fn global_distribution(&self) -> (d: Distribution)
        requires
            self.wf(),
        ensures
            d == spec_from_counts(
                terrain_count(self.tiles_seq(), TerrainType::Dirt),
                terrain_count(self.tiles_seq(), TerrainType::Grass),
                terrain_count(self.tiles_seq(), TerrainType::Stone),
            ),
            d.is_valid(),
            d.total() <= MAX_GLOBAL_TOTAL,
    {
        proof {
            law_count_invariant(self.tiles@);
            lemma_terrain_count_le_len(self.tiles@, TerrainType::Dirt);
            lemma_terrain_count_le_len(self.tiles@, TerrainType::Grass);
            lemma_terrain_count_le_len(self.tiles@, TerrainType::Stone);
        }
        self.counts.to_distribution()
    }

    /// The local neighborhood distribution at a candidate coordinate: each
    /// placed tile strictly within the radius adds `radius^2 - distance^2`
    /// weight to its own terrain type, and an empty neighborhood falls back
    /// to the uniform distribution.
    pub fn neighborhood_distribution(&self, center: Coordinate, radius: u32) -> (d: Distribution)
        requires
            self.wf(),
            1 <= radius <= MAX_RADIUS,
        ensures
            d == spec_from_counts(
                local_weight(self.tiles_seq(), center, radius as int, TerrainType::Dirt),
                local_weight(self.tiles_seq(), center, radius as int, TerrainType::Grass),
                local_weight(self.tiles_seq(), center, radius as int, TerrainType::Stone),
            ),
            d.is_valid(),
            d.total() <= MAX_LOCAL_TOTAL,
    {
        proof {
            crate::grid::lemma_square_within(radius as int, 256);
        }
        let rr: i128 = (radius as i128) * (radius as i128);
        let mut wd: u64 = 0;
        let mut wg: u64 = 0;
        let mut ws: u64 = 0;
        let mut i: usize = 0;
        proof {
            assert(self.tiles@.take(0int) =~= Seq::<Tile>::empty());
        }
        while i < self.tiles.len()
            invariant
                self.wf(),
                1 <= radius <= MAX_RADIUS,
                rr == (radius as int) * (radius as int),
                rr <= 65536,
                0 <= i <= self.tiles@.len(),
                wd == local_weight(self.tiles@.take(i as int), center, radius as int, TerrainType::Dirt),
                wg == local_weight(self.tiles@.take(i as int), center, radius as int, TerrainType::Grass),
                ws == local_weight(self.tiles@.take(i as int), center, radius as int, TerrainType::Stone),
            decreases self.tiles@.len() - i,
        {
            let tile = self.tiles[i];
            let d2 = sq_dist_exec(tile.coord, center);
            proof {
                assert(self.tiles@.take(i + 1int) =~= self.tiles@.take(i as int).push(tile));
                lemma_local_weight_push(
                    self.tiles@.take(i as int), tile, center, radius as int, TerrainType::Dirt);
                lemma_local_weight_push(
                    self.tiles@.take(i as int), tile, center, radius as int, TerrainType::Grass);
                lemma_local_weight_push(
                    self.tiles@.take(i as int), tile, center, radius as int, TerrainType::Stone);
                lemma_local_weight_total(self.tiles@.take(i + 1int), center, radius as int);
                crate::dist::lemma_mul2_le(i + 1int, MAX_TILES as int, rr as int, 65536);
            }
            if d2 < rr {
                let wgt: u64 = (rr - d2) as u64;
                match tile.terrain {
                    TerrainType::Dirt => {
                        wd = wd + wgt;
                    },
                    TerrainType::Grass => {
                        wg = wg + wgt;
                    },
                    TerrainType::Stone => {
                        ws = ws + wgt;
                    },
                }
            }
            i = i + 1;
        }
        proof {
            assert(self.tiles@.take(self.tiles@.len() as int) =~= self.tiles@);
            lemma_local_weight_total(self.tiles@, center, radius as int);
            crate::dist::lemma_mul2_le(self.tiles@.len() as int, MAX_TILES as int, rr as int, 65536);
        }
        crate::dist::from_counts(wd, wg, ws)
    }

    /// All placed tiles whose squared distance to the center is strictly
    /// below the squared radius, in placement order.
    pub fn neighbors_within(&self, center: Coordinate, radius: u32) -> (v: Vec<Tile>)
        requires
            self.wf(),
            radius <= MAX_RADIUS,
        ensures
            v@ == self.tiles_seq().filter(
                |t: Tile| sq_dist(t.coord, center) < (radius as int) * (radius as int),
            ),
    {
        proof {
            crate::grid::lemma_square_within(radius as int, 256);
        }
        let rr: i128 = (radius as i128) * (radius as i128);
        let mut v: Vec<Tile> = Vec::new();
        let mut i: usize = 0;
        proof {
            assert(self.tiles@.take(0int) =~= Seq::<Tile>::empty());
            assert(Seq::<Tile>::empty().filter(
                |t: Tile| sq_dist(t.coord, center) < (radius as int) * (radius as int),
            ) =~= Seq::<Tile>::empty());
        }
        while i < self.tiles.len()
            invariant
                self.wf(),
                radius <= MAX_RADIUS,
                rr == (radius as int) * (radius as int),
                0 <= i <= self.tiles@.len(),
                v@ == self.tiles@.take(i as int).filter(
                    |t: Tile| sq_dist(t.coord, center) < (radius as int) * (radius as int),
                ),
            decreases self.tiles@.len() - i,
        {
            let tile = self.tiles[i];
            let d2 = sq_dist_exec(tile.coord, center);
            proof {
                let pred = |t: Tile| sq_dist(t.coord, center) < (radius as int) * (radius as int);
                assert(self.tiles@.take(i + 1int) =~= self.tiles@.take(i as int).push(tile));
                lemma_filter_push(self.tiles@.take(i as int), tile, pred);
            }
            if d2 < rr {
                v.push(tile);
            }
            i = i + 1;
        }
        proof {
            assert(self.tiles@.take(self.tiles@.len() as int) =~= self.tiles@);
        }
        v
    }
}

/// Filtering a sequence extended by one element keeps the filtered prefix and
/// appends the element exactly when it satisfies the predicate.
proof fn lemma_filter_push(s: Seq<Tile>, x: Tile, pred: spec_fn(Tile) -> bool)
    ensures
        s.push(x).filter(pred) == (if pred(x) {
            s.filter(pred).push(x)
        } else {
            s.filter(pred)
        }),
{
    reveal(Seq::filter);
    assert(s.push(x).drop_last() =~= s);
    assert(s.push(x).last() == x);
}

} // verus!
