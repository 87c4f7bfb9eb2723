//! Identities of the entities that live in a world.

use vstd::prelude::*;

verus! {

/// Identity of an object within one world: a positive integer that is issued
/// once and never again.
pub type ObjectId = u32;

} // verus!
