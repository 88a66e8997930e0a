//! Game-wide settings.

use vstd::prelude::*;

verus! {

/// Default map size (width and height in tiles).
pub const MAP_SIZE: u32 = 32u32;

/// Seed of the terrain generator.
pub const TERRAIN_SEED: u32 = 12345u32;

} // verus!
