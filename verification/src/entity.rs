//! Entity identity.
use vstd::prelude::*;

verus! {

/// A handle that names one entity. It carries no data of its own; two handles
/// name the same entity exactly when their ids are equal.
#[derive(Copy, Clone, Debug, PartialEq, Eq, PartialOrd, Ord, Hash, Structural)]
pub struct Entity {
    pub id: u32,
}

impl Entity {
    /// The handle with the given id.
    pub fn new(id: u32) -> (entity: Self)
        ensures
            entity.id == id,
    {
        Self { id }
    }
}

} // verus!
