//! Biomes of the generated terrain.

use vstd::prelude::*;

verus! {

#[derive(Debug, Clone, Copy, PartialEq, Eq, Hash, Structural)]
pub enum Biome {
    Plains,
    Forest,
    Desert,
    Mountains,
    Dungeon,
    Crystal,
}

} // verus!
