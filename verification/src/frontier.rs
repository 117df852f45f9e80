//! The frontier controller: the startup configuration, the per-cell terrain
//! decision, and the expansion that fills every missing cell around the
//! player without touching an existing tile.

use vstd::prelude::*;
use crate::classify::{classify_random, spec_classify};
use crate::dist::{
    blend, blend_part, blend_weight, spec_blend_weight, spec_from_counts, target_from_populations,
    Distribution, MAX_IDEAL_TOTAL,
};
use crate::grid::{in_disc, points_in_radius, row_major_lt, sq_dist, Coordinate, MAX_RADIUS};
use crate::store::{local_weight, terrain_count, WorldMap, MAX_TILES};
use crate::terrain::{TerrainType, Tile, WorldgenError};

verus! {

/// The process-wide generation configuration, fixed at startup: the spawn
/// radius filled around the player, the radius of the neighborhood scanned
/// for local character, and the ideal target distribution.
pub struct GenConfig {
    pub spawn_radius: u32,
    pub local_radius: u32,
    pub ideal: Distribution,
}

impl GenConfig {
    /// A usable configuration: both radii positive and within the grid
    /// math's bound, and a valid bounded target distribution.
    pub open spec fn wf(self) -> bool {
        &&& 1 <= self.spawn_radius <= MAX_RADIUS
        &&& 1 <= self.local_radius <= MAX_RADIUS
        &&& self.ideal.is_valid()
        &&& self.ideal.total() <= MAX_IDEAL_TOTAL
    }

    /// Validates and builds the configuration. A zero or oversized radius is
    /// rejected as `InvalidRadius`; all-zero population weights are rejected
    /// as `EmptyPopulation`; generation must not start from either. Every
    /// other input builds the configuration.
    pub fn new(
        spawn_radius: u32,
        local_radius: u32,
        dirt_population: u32,
        grass_population: u32,
        stone_population: u32,
    ) -> (r: Result<GenConfig, WorldgenError>)
        ensures
            r matches Ok(_) <==> (1 <= spawn_radius <= MAX_RADIUS && 1 <= local_radius
                <= MAX_RADIUS && !(dirt_population == 0 && grass_population == 0
                && stone_population == 0)),
            r === Err(WorldgenError::InvalidRadius) <==> !(1 <= spawn_radius <= MAX_RADIUS && 1
                <= local_radius <= MAX_RADIUS),
            r === Err(WorldgenError::EmptyPopulation) <==> (1 <= spawn_radius <= MAX_RADIUS && 1
                <= local_radius <= MAX_RADIUS && dirt_population == 0 && grass_population == 0
                && stone_population == 0),
            r matches Ok(cfg) ==> {
                &&& cfg.spawn_radius == spawn_radius
                &&& cfg.local_radius == local_radius
                &&& cfg.ideal == (Distribution {
                    dirt: dirt_population as u128,
                    grass: grass_population as u128,
                    stone: stone_population as u128,
                })
                &&& cfg.wf()
            },
    {
        if spawn_radius == 0 || spawn_radius > MAX_RADIUS || local_radius == 0 || local_radius
            > MAX_RADIUS {
            return Err(WorldgenError::InvalidRadius);
        }
        let ideal = target_from_populations(dirt_population, grass_population, stone_population)?;
        Ok(GenConfig { spawn_radius, local_radius, ideal })
    }
}

/// The blended draw distribution a world presents at a candidate coordinate:
/// the local neighborhood distribution pulled toward the ideal by the cubic
/// shaping of the global drift weight.
pub open spec fn spec_blended(
    s: Seq<Tile>,
    cfg: GenConfig,
    coord: Coordinate,
) -> Distribution {
    let l = spec_from_counts(
        local_weight(s, coord, cfg.local_radius as int, TerrainType::Dirt),
        local_weight(s, coord, cfg.local_radius as int, TerrainType::Grass),
        local_weight(s, coord, cfg.local_radius as int, TerrainType::Stone),
    );
    let g = spec_from_counts(
        terrain_count(s, TerrainType::Dirt),
        terrain_count(s, TerrainType::Grass),
        terrain_count(s, TerrainType::Stone),
    );
    let w = spec_blend_weight(g, cfg.ideal);
    Distribution {
        dirt: blend_part(l.dirt as int, l.total(), cfg.ideal.dirt as int, cfg.ideal.total(), w) as u128,
        grass: blend_part(l.grass as int, l.total(), cfg.ideal.grass as int, cfg.ideal.total(), w) as u128,
        stone: blend_part(l.stone as int, l.total(), cfg.ideal.stone as int, cfg.ideal.total(), w) as u128,
    }
}

/// Decides the terrain type for one candidate coordinate: scan the
/// neighborhood, blend its distribution toward the ideal by the global drift
/// weight, and draw. The result is the classification of some uniform draw
/// below the blended total; classification always yields exactly one type.
pub fn classify_at(world: &WorldMap, cfg: &GenConfig, coord: Coordinate) -> (t: TerrainType)
    requires
        world.wf(),
        cfg.wf(),
    ensures
        exists|r: int|
            0 <= r < spec_blended(world.tiles_seq(), *cfg, coord).total() && t == spec_classify(
                spec_blended(world.tiles_seq(), *cfg, coord),
                r,
            ),
{
    let local = world.neighborhood_distribution(coord, cfg.local_radius);
    let global = world.global_distribution();
    let w = blend_weight(&global, &cfg.ideal);
    let blended = blend(&local, &cfg.ideal, w);
    proof {
        assert(blended == spec_blended(world.tiles_seq(), *cfg, coord));
    }
    classify_random(&blended)
}

/// Whether a cell lies strictly within the spawn radius around the player:
/// the frontier is the set of cells that should exist.
pub open spec fn in_frontier(player: Coordinate, radius: int, c: Coordinate) -> bool {
    sq_dist(c, player) < radius * radius
}

/// How one frontier expansion relates the world before (`m0`, `s0`) to the
/// world after (`m1`, `s1`): existing tiles are untouched, afterwards a cell
/// exists exactly when it existed before or lies in the frontier, and every
/// tile appended by the expansion is a frontier cell that was missing before.
pub open spec fn expand_rel(
    m0: Map<Coordinate, TerrainType>,
    s0: Seq<Tile>,
    m1: Map<Coordinate, TerrainType>,
    s1: Seq<Tile>,
    player: Coordinate,
    radius: int,
) -> bool {
    &&& forall|c: Coordinate|
        #[trigger] m1.contains_key(c) <==> m0.contains_key(c) || in_frontier(player, radius, c)
    &&& forall|c: Coordinate|
        #[trigger] m0.contains_key(c) ==> m1.contains_key(c) && m1[c] == m0[c]
    &&& s0.is_prefix_of(s1)
    &&& forall|i: int|
        s0.len() <= i < s1.len() ==> in_frontier(player, radius, (#[trigger] s1[i]).coord)
            && !m0.contains_key(s1[i].coord)
}

/// The tile at index `i` carries a terrain that the classifier could produce
/// against the world exactly as it stood when that tile was placed: some draw
/// below the blended total of the preceding placement prefix classifies to
/// it. This is the sequential dependency of a batch: each step's neighborhood
/// and global counts see every tile placed in strictly earlier steps.
pub open spec fn batch_classified(s: Seq<Tile>, i: int, cfg: GenConfig) -> bool {
    exists|r: int|
        0 <= r < spec_blended(s.take(i), cfg, s[i].coord).total() && s[i].terrain == spec_classify(
            spec_blended(s.take(i), cfg, s[i].coord),
            r,
        )
}

/// The batch discipline of one expansion: the tiles appended after index `n0`
/// stand in strict row-major order of their coordinates, and each one's
/// terrain is a classification against the world as of its own step.
pub open spec fn batch_ordered_and_classified(s1: Seq<Tile>, n0: int, cfg: GenConfig) -> bool {
    &&& forall|i: int, j: int|
        n0 <= i < j < s1.len() ==> row_major_lt((#[trigger] s1[i]).coord, (#[trigger] s1[j]).coord)
    &&& forall|i: int| n0 <= i < s1.len() ==> batch_classified(s1, i, cfg)
}

/// Fills in every missing cell of the frontier around the player, in the
/// fixed row-major order of the lattice points, classifying each missing cell
/// against the world as it stands when that cell's turn comes. Cells that
/// already hold a tile are never touched.
pub fn expand(world: &mut WorldMap, cfg: &GenConfig, player: Coordinate)
    requires
        old(world).wf(),
        cfg.wf(),
        old(world).tiles_seq().len() + 263169 <= MAX_TILES,
        player.x + MAX_RADIUS <= i32::MAX,
        player.x - MAX_RADIUS >= i32::MIN,
        player.y + MAX_RADIUS <= i32::MAX,
        player.y - MAX_RADIUS >= i32::MIN,
    ensures
        final(world).wf(),
        expand_rel(
            old(world).terrain_map(),
            old(world).tiles_seq(),
            final(world).terrain_map(),
            final(world).tiles_seq(),
            player,
            cfg.spawn_radius as int,
        ),
        batch_ordered_and_classified(
            final(world).tiles_seq(),
            old(world).tiles_seq().len() as int,
            *cfg,
        ),
{
    let ghost m0 = old(world).terrain_map();
    let ghost s0 = old(world).tiles_seq();
    let ghost radius: int = cfg.spawn_radius as int;
    let pts = points_in_radius(cfg.spawn_radius);
    proof {
        crate::grid::lemma_disc_box(radius);
        world.lemma_views_agree();
    }
    let mut k: usize = 0;
    while k < pts.len()
        invariant
            world.wf(),
            cfg.wf(),
            radius == cfg.spawn_radius as int,
            m0 == old(world).terrain_map(),
            s0 == old(world).tiles_seq(),
            s0.len() + 263169 <= MAX_TILES,
            player.x + MAX_RADIUS <= i32::MAX,
            player.x - MAX_RADIUS >= i32::MIN,
            player.y + MAX_RADIUS <= i32::MAX,
            player.y - MAX_RADIUS >= i32::MIN,
            0 <= k <= pts@.len(),
            pts@.len() <= 263169,
            forall|i: int| 0 <= i < pts@.len() ==> in_disc(radius, #[trigger] pts@[i]),
            forall|i: int, j: int| 0 <= i < j < pts@.len() ==> row_major_lt(pts@[i], pts@[j]),
            forall|c: Coordinate| #[trigger] in_disc(radius, c) ==> pts@.contains(c),
            forall|c: Coordinate| #[trigger] in_disc(radius, c) ==> 1 - radius <= c.x < radius
                && 1 - radius <= c.y < radius,
            world.tiles_seq().len() <= s0.len() + k,
            s0.is_prefix_of(world.tiles_seq()),
            forall|i: int|
                s0.len() <= i < world.tiles_seq().len() ==> in_frontier(
                    player,
                    radius,
                    (#[trigger] world.tiles_seq()[i]).coord,
                ) && !m0.contains_key(world.tiles_seq()[i].coord),
            forall|c: Coordinate|
                #[trigger] m0.contains_key(c) ==> world.terrain_map().contains_key(c)
                    && world.terrain_map()[c] == m0[c],
            forall|c: Coordinate|
                #[trigger] world.terrain_map().contains_key(c) ==> m0.contains_key(c)
                    || in_frontier(player, radius, c),
            forall|j: int|
                0 <= j < k ==> world.terrain_map().contains_key(
                    Coordinate {
                        x: (player.x + (#[trigger] pts@[j]).x) as i32,
                        y: (player.y + pts@[j].y) as i32,
                    },
                ),
            forall|i: int, j: int|
                s0.len() <= i < j < world.tiles_seq().len() ==> row_major_lt(
                    (#[trigger] world.tiles_seq()[i]).coord,
                    (#[trigger] world.tiles_seq()[j]).coord,
                ),
            forall|i: int|
                s0.len() <= i < world.tiles_seq().len() ==> batch_classified(
                    world.tiles_seq(),
                    i,
                    *cfg,
                ),
            forall|i: int|
                s0.len() <= i < world.tiles_seq().len() ==> exists|j: int|
                    0 <= j < k && (#[trigger] world.tiles_seq()[i]).coord == (Coordinate {
                        x: (player.x + pts@[j].x) as i32,
                        y: (player.y + pts@[j].y) as i32,
                    }),
        decreases pts@.len() - k,
    {
        let off = pts[k];
        let c = Coordinate { x: player.x + off.x, y: player.y + off.y };
        proof {
            assert(in_disc(radius, off));
            assert(sq_dist(c, player) == off.x * off.x + off.y * off.y);
            assert(in_frontier(player, radius, c));
        }
        let existing = world.tile_at(c);
        if existing.is_none() {
            let ghost pre = world.tiles_seq();
            let t = classify_at(world, cfg, c);
            let res = world.place_tile(c, t);
            proof {
                assert(res is Ok);
                let s1 = world.tiles_seq();
                let tile = Tile { coord: c, terrain: t };
                assert(s1 == pre.push(tile));
                assert(s1[pre.len() as int] == tile);
                assert forall|i: int|
                    s0.len() <= i < s1.len() implies batch_classified(s1, i, *cfg) by {
                    if i < pre.len() {
                        assert(s1.take(i) =~= pre.take(i));
                        assert(s1[i] == pre[i]);
                        assert(batch_classified(pre, i, *cfg));
                        let r = choose|r: int|
                            0 <= r < spec_blended(pre.take(i), *cfg, pre[i].coord).total()
                                && pre[i].terrain == spec_classify(
                                spec_blended(pre.take(i), *cfg, pre[i].coord),
                                r,
                            );
                        assert(0 <= r < spec_blended(s1.take(i), *cfg, s1[i].coord).total()
                            && s1[i].terrain == spec_classify(
                            spec_blended(s1.take(i), *cfg, s1[i].coord),
                            r,
                        ));
                    } else {
                        assert(s1.take(i) =~= pre);
                        let r = choose|r: int|
                            0 <= r < spec_blended(pre, *cfg, c).total() && t == spec_classify(
                                spec_blended(pre, *cfg, c),
                                r,
                            );
                        assert(0 <= r < spec_blended(s1.take(i), *cfg, s1[i].coord).total()
                            && s1[i].terrain == spec_classify(
                            spec_blended(s1.take(i), *cfg, s1[i].coord),
                            r,
                        ));
                    }
                }
                assert forall|i: int, j: int|
                    s0.len() <= i < j < s1.len() implies row_major_lt(
                    (#[trigger] s1[i]).coord,
                    (#[trigger] s1[j]).coord,
                ) by {
                    if j == pre.len() {
                        assert(exists|ji: int|
                            0 <= ji < k && (#[trigger] pre[i]).coord == (Coordinate {
                                x: (player.x + pts@[ji].x) as i32,
                                y: (player.y + pts@[ji].y) as i32,
                            }));
                        let ji = choose|ji: int|
                            0 <= ji < k && pre[i].coord == (Coordinate {
                                x: (player.x + pts@[ji].x) as i32,
                                y: (player.y + pts@[ji].y) as i32,
                            });
                        assert(row_major_lt(pts@[ji], pts@[k as int]));
                        assert(in_disc(radius, pts@[ji]));
                        assert(in_disc(radius, pts@[k as int]));
                    }
                }
                assert forall|i: int|
                    s0.len() <= i < s1.len() implies exists|j: int|
                    0 <= j < k + 1 && (#[trigger] s1[i]).coord == (Coordinate {
                        x: (player.x + pts@[j].x) as i32,
                        y: (player.y + pts@[j].y) as i32,
                    }) by {
                    if i < pre.len() {
                        assert(exists|ji: int|
                            0 <= ji < k && (#[trigger] pre[i]).coord == (Coordinate {
                                x: (player.x + pts@[ji].x) as i32,
                                y: (player.y + pts@[ji].y) as i32,
                            }));
                        let ji = choose|ji: int|
                            0 <= ji < k && pre[i].coord == (Coordinate {
                                x: (player.x + pts@[ji].x) as i32,
                                y: (player.y + pts@[ji].y) as i32,
                            });
                        assert(0 <= ji < k + 1 && s1[i].coord == (Coordinate {
                            x: (player.x + pts@[ji].x) as i32,
                            y: (player.y + pts@[ji].y) as i32,
                        }));
                    } else {
                        assert(s1[i].coord == (Coordinate {
                            x: (player.x + pts@[k as int].x) as i32,
                            y: (player.y + pts@[k as int].y) as i32,
                        }));
                    }
                }
            }
        }
        k = k + 1;
    }
    proof {
        assert forall|c: Coordinate| #[trigger] world.terrain_map().contains_key(c) <==> (
        m0.contains_key(c) || in_frontier(player, radius, c)) by {
            if in_frontier(player, radius, c) {
                crate::grid::lemma_square_within(c.x - player.x, 0xFFFF_FFFF);
                crate::grid::lemma_square_within(c.y - player.y, 0xFFFF_FFFF);
                crate::grid::lemma_sq_below(c.x - player.x, radius);
                crate::grid::lemma_sq_below(c.y - player.y, radius);
                let o = Coordinate { x: (c.x - player.x) as i32, y: (c.y - player.y) as i32 };
                assert(o.x == c.x - player.x && o.y == c.y - player.y);
                assert(in_disc(radius, o));
                let j = choose|j: int| 0 <= j < pts@.len() && pts@[j] == o;
                assert(world.terrain_map().contains_key(
                    Coordinate { x: (player.x + pts@[j].x) as i32, y: (player.y + pts@[j].y) as i32 },
                ));
                assert((Coordinate {
                    x: (player.x + pts@[j].x) as i32,
                    y: (player.y + pts@[j].y) as i32,
                }) == c);
            }
        }
    }
}

/// Frontier idempotence: a second expansion from the same player position
/// adds nothing — the placement order and the contents are unchanged.
pub proof fn law_frontier_idempotence(
    m0: Map<Coordinate, TerrainType>,
    s0: Seq<Tile>,
    m1: Map<Coordinate, TerrainType>,
    s1: Seq<Tile>,
    m2: Map<Coordinate, TerrainType>,
    s2: Seq<Tile>,
    player: Coordinate,
    radius: int,
)
    requires
        expand_rel(m0, s0, m1, s1, player, radius),
        expand_rel(m1, s1, m2, s2, player, radius),
    ensures
        s2 == s1,
        m2 == m1,
{
    if s2.len() > s1.len() {
        assert(in_frontier(player, radius, s2[s1.len() as int].coord));
        assert(m1.contains_key(s2[s1.len() as int].coord));
        assert(false);
    }
    assert(s2 =~= s1);
    assert forall|c: Coordinate| #[trigger] m2.contains_key(c) implies m1.contains_key(c)
        && m2[c] == m1[c] by {
        if !m1.contains_key(c) {
            assert(in_frontier(player, radius, c));
            assert(m1.contains_key(c));
        }
    }
    assert(m2 =~= m1);
}

/// The frontier controller: idle between ticks, expanding within a tick. It
/// remembers the player cell used for the last expansion and fires a new
/// expansion only when the player has moved to a different cell (or on first
/// run); the whole expansion runs to completion inside the tick.
pub struct FrontierController {
    last_expanded: Option<Coordinate>,
}

impl FrontierController {
    /// The player cell of the last expansion, `None` before the first run.
    pub closed spec fn last(&self) -> Option<Coordinate> {
        self.last_expanded
    }

    /// Creates a controller that has never expanded.
    pub fn new() -> (fc: FrontierController)
        ensures
            fc.last() == None::<Coordinate>,
    {
        FrontierController { last_expanded: None }
    }

    /// One simulation tick: expands the frontier around the player's current
    /// cell, unless the previous expansion already ran from that same cell,
    /// in which case the world is left untouched.
    pub fn tick(&mut self, world: &mut WorldMap, cfg: &GenConfig, player: Coordinate) -> (expanded:
        bool)
        requires
            old(world).wf(),
            cfg.wf(),
            old(world).tiles_seq().len() + 263169 <= MAX_TILES,
            player.x + MAX_RADIUS <= i32::MAX,
            player.x - MAX_RADIUS >= i32::MIN,
            player.y + MAX_RADIUS <= i32::MAX,
            player.y - MAX_RADIUS >= i32::MIN,
        ensures
            final(world).wf(),
            !expanded ==> {
                &&& old(self).last() == Some(player)
                &&& *final(self) == *old(self)
                &&& final(world).terrain_map() == old(world).terrain_map()
                &&& final(world).tiles_seq() == old(world).tiles_seq()
            },
            expanded ==> {
                &&& old(self).last() != Some(player)
                &&& final(self).last() == Some(player)
                &&& expand_rel(
                    old(world).terrain_map(),
                    old(world).tiles_seq(),
                    final(world).terrain_map(),
                    final(world).tiles_seq(),
                    player,
                    cfg.spawn_radius as int,
                )
                &&& batch_ordered_and_classified(
                    final(world).tiles_seq(),
                    old(world).tiles_seq().len() as int,
                    *cfg,
                )
            },
            expanded == (old(self).last() != Some(player)),
    {
        let unchanged = match self.last_expanded {
            Some(p) => p == player,
            None => false,
        };
        if unchanged {
            return false;
        }
        expand(world, cfg, player);
        self.last_expanded = Some(player);
        true
    }
}

} // verus!
