use virtual_fs::flock::{FileLockState, FlockOutcome, LOCK_EX, LOCK_NB, LOCK_SH, LOCK_UN};

fn state(lock_type: u8, readers: u32) -> FileLockState {
    FileLockState { lock_type, readers }
}

#[test]
fn shared_locks_count_holders() {
    let mut s = FileLockState::default();
    assert_eq!(s.apply(LOCK_SH), FlockOutcome::Success);
    assert_eq!(s.apply(LOCK_SH), FlockOutcome::Success);
    assert_eq!(s, state(1, 2));
    assert_eq!(s.apply(LOCK_UN), FlockOutcome::Success);
    assert_eq!(s, state(1, 1));
    assert_eq!(s.apply(LOCK_UN), FlockOutcome::Success);
    assert_eq!(s, FileLockState::new());
}

#[test]
fn exclusive_lock_then_release_unlocks() {
    let mut s = state(1, 3);
    assert_eq!(s.apply(LOCK_EX), FlockOutcome::Success);
    assert_eq!(s, state(2, 0));
    assert_eq!(s.apply(LOCK_UN), FlockOutcome::Success);
    assert_eq!(s, state(0, 0));
}

#[test]
fn nonblocking_conflicts_are_refused() {
    let mut s = state(2, 0);
    assert_eq!(s.apply(LOCK_SH | LOCK_NB), FlockOutcome::Again);
    assert_eq!(s, state(2, 0));
    let mut s = state(1, 1);
    assert_eq!(s.apply(LOCK_EX | LOCK_NB), FlockOutcome::Again);
    assert_eq!(s, state(1, 1));
    assert_eq!(s.apply(LOCK_SH | LOCK_NB), FlockOutcome::Success);
    assert_eq!(s, state(1, 2));
    let mut s = FileLockState::new();
    assert_eq!(s.apply(LOCK_EX | LOCK_NB), FlockOutcome::Success);
    assert_eq!(s, state(2, 0));
}

#[test]
fn blocking_conflicts_are_granted() {
    let mut s = state(2, 0);
    assert_eq!(s.apply(LOCK_SH), FlockOutcome::Success);
    assert_eq!(s, state(1, 1));
    assert_eq!(s.apply(LOCK_EX), FlockOutcome::Success);
    assert_eq!(s, state(2, 0));
}

#[test]
fn invalid_operations_are_refused() {
    let mut s = state(1, 1);
    assert_eq!(s.apply(0), FlockOutcome::Inval);
    assert_eq!(s.apply(LOCK_SH | LOCK_EX), FlockOutcome::Inval);
    assert_eq!(s.apply(16), FlockOutcome::Inval);
    assert_eq!(s, state(1, 1));
    assert_eq!(s.apply(LOCK_UN | LOCK_NB), FlockOutcome::Success);
    assert_eq!(s, state(0, 0));
}
