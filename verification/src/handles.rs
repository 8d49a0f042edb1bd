//! Identifiers of physics objects, held as the two numbers that name them in
//! the physics world: the slot index and the generation of that slot.

use vstd::prelude::*;

verus! {

/// A rigid body of the physics world.
#[derive(Debug, Clone, Copy, PartialEq, Eq, Structural)]
pub struct BodyHandle {
    pub index: u32,
    pub generation: u32,
}

/// A collider of the physics world.
#[derive(Debug, Clone, Copy, PartialEq, Eq, Structural)]
pub struct ColliderHandle {
    pub index: u32,
    pub generation: u32,
}

} // verus!
