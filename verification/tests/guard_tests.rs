//! The instance guard: verdicts, and the exclusive lock itself.

use fs2::FileExt;
use prism_ipc::errors::GuardError;
use prism_ipc::guard::{guard_verdict, LockProbe};

#[test]
fn verdicts_map_each_probe() {
    assert!(guard_verdict(LockProbe::Acquired).is_ok());
    assert_eq!(
        guard_verdict(LockProbe::Contended),
        Err(GuardError::AlreadyRunning)
    );
    assert_eq!(
        guard_verdict(LockProbe::OpenFailed),
        Err(GuardError::OpenFailed)
    );
    assert_eq!(
        guard_verdict(LockProbe::DirCreateFailed),
        Err(GuardError::DirCreateFailed)
    );
}

#[test]
fn second_holder_sees_already_running_until_first_releases() {
    // two independent handles to one lock file stand in for two processes:
    // the advisory lock is per open file description
    let lock_file = tempfile::NamedTempFile::new().expect("lock file");
    let first = lock_file.reopen().expect("first handle");
    let second = lock_file.reopen().expect("second handle");

    first.try_lock_exclusive().expect("first acquisition succeeds");
    let contended = second.try_lock_exclusive();
    assert!(contended.is_err());
    let probe = if contended.is_err() { LockProbe::Contended } else { LockProbe::Acquired };
    assert_eq!(guard_verdict(probe), Err(GuardError::AlreadyRunning));

    // the first holder terminates: the lock releases with its handle
    drop(first);
    second.try_lock_exclusive().expect("lock is free again");
    assert!(guard_verdict(LockProbe::Acquired).is_ok());
}
