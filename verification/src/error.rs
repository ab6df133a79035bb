//! Failures that a mirror operation can report.

use vstd::prelude::*;

verus! {

/// Why a store operation or a synchronization cycle did not complete.
#[derive(Clone, Copy, Debug, PartialEq, Eq, Structural)]
pub enum MirrorError {
    /// The remote board could not be reached, or did not answer in time.
    RemoteUnavailable,
    /// The local store is unusable: its contents are inconsistent, or it has
    /// no local identifier left to hand out.
    StorageError,
    /// A record that had to be new repeats an external identifier or a
    /// content hash that the store already holds.
    IntegrityViolation,
}

} // verus!
