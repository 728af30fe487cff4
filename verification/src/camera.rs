//! The tag of the camera entity.

use vstd::prelude::*;

verus! {

/// Marks the camera through which the terminal layers are looked at.
#[derive(Clone, Copy, Debug, PartialEq, Eq, Structural)]
pub struct BracketCamera;

} // verus!
