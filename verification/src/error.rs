use vstd::prelude::*;
use crate::entity::Entity;

verus! {

/// The failure taxonomy of the command buffer.  All three conditions are
/// unrecoverable for the scheduling pass that hits them: callers are expected
/// to guarantee the preconditions rather than branch on these values.
#[derive(Clone, Copy, PartialEq, Eq, Debug, Structural)]
pub enum CommandError {
    /// A cursor-dependent call (`with` / `with_bundle`) was made with no
    /// prior spawn on the same buffer.  Detected at enqueue time.
    MissingEntityContext,
    /// A despawn or insert referenced an entity absent from storage at the
    /// moment apply processed that command.  Aborts the whole drain.
    ApplyTargetMissing(Entity),
    /// The mutual-exclusion handle guarding a shared buffer was found
    /// poisoned by a caller that panicked while holding it.
    LockPoisoned,
}

} // verus!
