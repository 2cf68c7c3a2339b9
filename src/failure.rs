//! The failures a run can meet, and which of them end it.
use vstd::prelude::*;

verus! {

/// Where a failure during a run happened.
#[derive(Clone, Copy, Debug, PartialEq, Eq, Structural)]
pub enum RunError {
    /// The tree itself could not be enumerated.
    Traversal,
    /// One entry could not be examined, or its target opened or read.
    FileAccess,
    /// Writing, installing or restoring the permissions of a rewritten file
    /// failed.
    Rewrite,
}

/// Whether a failure of this kind ends the run. Only a file that cannot be
/// examined or read is skipped; the walk then goes on with the next entry.
pub fn ends_run(e: RunError) -> (r: bool)
    ensures
        r <==> e != RunError::FileAccess,
{
    match e {
        RunError::FileAccess => false,
        _ => true,
    }
}

} // verus!
