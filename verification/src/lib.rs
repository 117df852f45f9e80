//! Incremental biome generation for a tile-based world on an unbounded 2D
//! grid: a store of placed tiles, an exact-rational blend of local and global
//! terrain distributions, a weighted random terrain classifier, and a
//! frontier controller that fills in the cells around the player.

pub mod classify;
pub mod dist;
pub mod frontier;
pub mod grid;
pub mod store;
pub mod terrain;
