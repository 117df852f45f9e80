//! The closed set of terrain types, the placed tile, and the crate's errors.

use vstd::prelude::*;
use crate::grid::Coordinate;

verus! {

/// A terrain kind. The canonical walk order everywhere in this crate is
/// Dirt, Grass, Stone.
#[derive(Clone, Copy, PartialEq, Eq, Structural, Debug, Hash)]
pub enum TerrainType {
    Dirt,
    Grass,
    Stone,
}

/// A placed grid cell: a coordinate paired with the terrain type chosen for
/// it when it was generated. Tiles are never mutated or deleted.
#[derive(Clone, Copy, PartialEq, Eq, Structural, Debug)]
pub struct Tile {
    pub coord: Coordinate,
    pub terrain: TerrainType,
}

/// Everything that can be refused by this crate. Placement fails only on a
/// coordinate that already holds a tile; the remaining variants reject
/// malformed configuration at startup.
#[derive(Clone, Copy, PartialEq, Eq, Structural, Debug)]
pub enum WorldgenError {
    /// A tile already exists at the requested coordinate; terrain is
    /// write-once.
    DuplicateCoordinate,
    /// All population weights are zero, so no target distribution exists.
    EmptyPopulation,
    /// A radius is zero or beyond what the grid math accepts.
    InvalidRadius,
}

} // verus!
