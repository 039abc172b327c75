//! Instance guard: the verdict on a single-instance lock attempt.
//!
//! The host prepares the lock in three steps — create the data directory,
//! open the lock file, try an exclusive non-blocking lock on it — and hands
//! the first failure (or success) here. Lock contention is a distinct,
//! user-facing condition, never folded into a generic I/O error: the host
//! is expected to terminate with a clear message rather than run a second
//! worker manager. The lock itself is held for the process lifetime and
//! released by the operating system on any termination; no unlock call
//! exists in the success path.

use vstd::prelude::*;
use crate::errors::GuardError;

verus! {

/// How far a lock attempt got.
#[derive(Debug, PartialEq, Eq, Structural, Clone, Copy)]
pub enum LockProbe {
    /// The data directory could not be created.
    DirCreateFailed,
    /// The lock file could not be opened or created.
    OpenFailed,
    /// The exclusive lock is held by another live process.
    Contended,
    /// The exclusive lock was taken.
    Acquired,
}

/// The guard's verdict on a lock attempt: success exactly when the lock
/// was taken, `AlreadyRunning` exactly on contention, and the two I/O
/// failures kept apart from it.
pub fn guard_verdict(probe: LockProbe) -> (r: Result<(), GuardError>)
    ensures
        match probe {
            LockProbe::Acquired => r is Ok,
            LockProbe::Contended => r matches Err(e) && e == GuardError::AlreadyRunning,
            LockProbe::OpenFailed => r matches Err(e) && e == GuardError::OpenFailed,
            LockProbe::DirCreateFailed => r matches Err(e) && e == GuardError::DirCreateFailed,
        },
{
    match probe {
        LockProbe::Acquired => Ok(()),
        LockProbe::Contended => Err(GuardError::AlreadyRunning),
        LockProbe::OpenFailed => Err(GuardError::OpenFailed),
        LockProbe::DirCreateFailed => Err(GuardError::DirCreateFailed),
    }
}

} // verus!
