use vstd::prelude::*;

verus! {

/// An opaque, stable identifier for one conceptual row of component values.
///
/// An identifier can be reserved (named) before any component data for it
/// exists in storage: identity allocation is a plain counter, fully decoupled
/// from storage insertion, and a reserved identifier stays invisible to
/// queries until the command that spawns it is applied.
#[derive(Clone, Copy, PartialEq, Eq, Hash, Debug, Structural)]
pub struct Entity {
    pub id: u64,
}

impl Entity {
    /// Names the entity with the given identifier without touching storage.
    pub fn with_id(id: u64) -> (e: Entity)
        ensures
            e.id == id,
    {
        Entity { id }
    }
}

} // verus!
