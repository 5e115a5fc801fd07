use vstd::prelude::*;

use crate::entity::{Entity, Generation};

verus! {

/// Error returned by the deletion paths when the entity's generation does
/// not match the generation currently stored at its slot.
#[derive(Clone, Copy, Debug, Eq, PartialEq)]
pub struct WrongGeneration {
    /// The action that failed, e.g. `"delete"`.
    pub action: &'static str,
    /// The generation the slot actually holds.
    pub actual_gen: Generation,
    /// The entity that was attempted to be used.
    pub entity: Entity,
}

} // verus!
