//! Vectors of the `glam` crate that the game logic carries through unchanged.

use vstd::prelude::*;

verus! {

#[verifier::external_type_specification]
#[verifier::external_body]
pub struct ExVec3(glam::Vec3);

} // verus!
