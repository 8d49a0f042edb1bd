//! Renderer mesh IDs for the shapes that the game logic selects.

use vstd::prelude::*;

verus! {

pub const MESH_CUBE: u32 = 0;
pub const MESH_BLOCK_SLAB: u32 = 16;
pub const MESH_BLOCK_VSLAB: u32 = 17;
pub const MESH_BLOCK_SLOPE: u32 = 18;
pub const MESH_BLOCK_INNER_CORNER: u32 = 19;
pub const MESH_BLOCK_STAIRS: u32 = 20;
pub const MESH_BLOCK_FENCE: u32 = 21;
pub const MESH_ROCK: u32 = 22;
pub const MESH_FIREBALL: u32 = 23;
pub const MESH_ICESHARD: u32 = 24;

} // verus!
