use vstd::prelude::*;

verus! {

/// Take a shared lock.
pub const LOCK_SH: i32 = 1;

/// Take an exclusive lock.
pub const LOCK_EX: i32 = 2;

/// Do not block: fail when the lock is held in a conflicting way.
pub const LOCK_NB: i32 = 4;

/// Release the lock.
pub const LOCK_UN: i32 = 8;

/// The advisory lock held on one file: `lock_type` is 0 when unlocked, 1 when
/// shared (by `readers` holders) and 2 when exclusive.
#[derive(Clone, Copy, Debug, PartialEq, Eq, Structural)]
pub struct FileLockState {
    pub lock_type: u8,
    pub readers: u32,
}

/// The answer to a lock request.
#[derive(Clone, Copy, Debug, PartialEq, Eq, Structural)]
pub enum FlockOutcome {
    /// The request was carried out.
    Success,
    /// Non-blocking request on a lock held in a conflicting way.
    Again,
    /// The operation is not one of the lock operations.
    Inval,
}

/// The unlocked state.
pub open spec fn unlocked() -> FileLockState {
    FileLockState { lock_type: 0, readers: 0 }
}

/// The lock operation asked for, without the non-blocking flag.
pub open spec fn lock_kind(operation: i32) -> i32 {
    operation & !LOCK_NB
}

/// Whether the request must not block.
pub open spec fn is_nonblocking(operation: i32) -> bool {
    (operation & LOCK_NB) != 0
}

/// Whether a request would have to count one more shared holder.
pub open spec fn adds_reader(s: FileLockState, operation: i32) -> bool {
    lock_kind(operation) == LOCK_SH && !(s.lock_type == 2 && is_nonblocking(operation))
}

/// What a lock request does to the lock state of a file, and its answer.
/// Releasing drops one shared holder (unlocking with the last) or clears the
/// lock; a shared request joins the holders; an exclusive request takes the
/// lock. Within one process the lock is advisory: a blocking request that
/// conflicts is granted, a non-blocking one is refused with `Again`.
pub open spec fn flock_step(s: FileLockState, operation: i32) -> (FileLockState, FlockOutcome) {
    let kind = lock_kind(operation);
    let nb = is_nonblocking(operation);
    if kind == LOCK_UN {
        if s.lock_type == 1 && s.readers > 0 {
            let readers = (s.readers - 1) as u32;
            (FileLockState { lock_type: if readers == 0 { 0 } else { 1 }, readers }, FlockOutcome::Success)
        } else {
            (unlocked(), FlockOutcome::Success)
        }
    } else if kind == LOCK_SH {
        if s.lock_type == 2 && nb {
            (s, FlockOutcome::Again)
        } else {
            (FileLockState { lock_type: 1, readers: (s.readers + 1) as u32 }, FlockOutcome::Success)
        }
    } else if kind == LOCK_EX {
        if s.lock_type != 0 && nb {
            (s, FlockOutcome::Again)
        } else {
            (FileLockState { lock_type: 2, readers: 0 }, FlockOutcome::Success)
        }
    } else {
        (s, FlockOutcome::Inval)
    }
}

impl FileLockState {
    /// An unlocked file.
    pub fn new() -> (r: Self)
        ensures
            r == unlocked(),
    {
        FileLockState { lock_type: 0, readers: 0 }
    }

    /// Applies a lock request (`LOCK_SH`, `LOCK_EX` or `LOCK_UN`, possibly
    /// with `LOCK_NB`) and answers it. The shared holders are counted, so the
    /// count must have room for one more when a shared request is granted.
    pub fn apply(&mut self, operation: i32) -> (r: FlockOutcome)
        requires
            adds_reader(*old(self), operation) ==> old(self).readers < u32::MAX,
        ensures
            (*final(self), r) == flock_step(*old(self), operation),
    {
        let kind = operation & !LOCK_NB;
        let nonblocking = (operation & LOCK_NB) != 0;
        if kind == LOCK_UN {
            if self.lock_type == 1 && self.readers > 0 {
                self.readers = self.readers - 1;
                if self.readers == 0 {
                    self.lock_type = 0;
                }
            } else {
                self.lock_type = 0;
                self.readers = 0;
            }
            FlockOutcome::Success
        } else if kind == LOCK_SH {
            if self.lock_type == 2 && nonblocking {
                return FlockOutcome::Again;
            }
            self.lock_type = 1;
            self.readers = self.readers + 1;
            FlockOutcome::Success
        } else if kind == LOCK_EX {
            if self.lock_type != 0 && nonblocking {
                return FlockOutcome::Again;
            }
            self.lock_type = 2;
            self.readers = 0;
            FlockOutcome::Success
        } else {
            FlockOutcome::Inval
        }
    }
}

impl Default for FileLockState {
    fn default() -> (r: Self)
        ensures
            r == unlocked(),
    {
        FileLockState::new()
    }
}

/// Releasing an exclusive lock leaves the file unlocked, whatever it held
/// before.
pub proof fn law_exclusive_then_release(s: FileLockState)
    ensures
        flock_step(s, LOCK_EX).1 == FlockOutcome::Success,
        flock_step(flock_step(s, LOCK_EX).0, LOCK_UN) == (unlocked(), FlockOutcome::Success),
{
    assert(lock_kind(LOCK_EX) == LOCK_EX) by (bit_vector);
    assert(lock_kind(LOCK_UN) == LOCK_UN) by (bit_vector);
    assert(!is_nonblocking(LOCK_EX)) by (bit_vector);
}

/// Taking a shared lock and releasing it gives back the state before, when
/// that state is unlocked or shared.
pub proof fn law_shared_then_release(s: FileLockState)
    requires
        (s.lock_type == 0 && s.readers == 0) || (s.lock_type == 1 && s.readers > 0),
        s.readers < u32::MAX,
    ensures
        flock_step(s, LOCK_SH).1 == FlockOutcome::Success,
        flock_step(flock_step(s, LOCK_SH).0, LOCK_UN) == (s, FlockOutcome::Success),
{
    assert(lock_kind(LOCK_SH) == LOCK_SH) by (bit_vector);
    assert(lock_kind(LOCK_UN) == LOCK_UN) by (bit_vector);
    assert(!is_nonblocking(LOCK_SH)) by (bit_vector);
}

/// A non-blocking request that conflicts with the lock held is refused and
/// changes nothing: a shared one against an exclusive lock, an exclusive one
/// against any lock.
pub proof fn law_nonblocking_conflict_refused(s: FileLockState)
    ensures
        s.lock_type == 2 ==> flock_step(s, LOCK_SH | LOCK_NB) == (s, FlockOutcome::Again),
        s.lock_type != 0 ==> flock_step(s, LOCK_EX | LOCK_NB) == (s, FlockOutcome::Again),
{
    assert(lock_kind(LOCK_SH | LOCK_NB) == LOCK_SH) by (bit_vector);
    assert(lock_kind(LOCK_EX | LOCK_NB) == LOCK_EX) by (bit_vector);
    assert(is_nonblocking(LOCK_SH | LOCK_NB)) by (bit_vector);
    assert(is_nonblocking(LOCK_EX | LOCK_NB)) by (bit_vector);
}

/// A non-blocking request that does not conflict with the lock held is
/// granted just as the blocking request is: a shared one whenever the lock is
/// not exclusive (joining the holders), an exclusive one when the file is
/// unlocked.
pub proof fn law_nonblocking_granted_without_conflict(s: FileLockState)
    ensures
        s.lock_type != 2 && s.readers < u32::MAX ==> {
            &&& flock_step(s, LOCK_SH | LOCK_NB) == flock_step(s, LOCK_SH)
            &&& flock_step(s, LOCK_SH | LOCK_NB) == (
                FileLockState { lock_type: 1, readers: (s.readers + 1) as u32 },
                FlockOutcome::Success,
            )
        },
        s.lock_type == 0 ==> {
            &&& flock_step(s, LOCK_EX | LOCK_NB) == flock_step(s, LOCK_EX)
            &&& flock_step(s, LOCK_EX | LOCK_NB) == (FileLockState { lock_type: 2, readers: 0 }, FlockOutcome::Success)
        },
{
    assert(lock_kind(LOCK_SH | LOCK_NB) == LOCK_SH) by (bit_vector);
    assert(lock_kind(LOCK_EX | LOCK_NB) == LOCK_EX) by (bit_vector);
    assert(lock_kind(LOCK_SH) == LOCK_SH) by (bit_vector);
    assert(lock_kind(LOCK_EX) == LOCK_EX) by (bit_vector);
    assert(is_nonblocking(LOCK_SH | LOCK_NB)) by (bit_vector);
    assert(is_nonblocking(LOCK_EX | LOCK_NB)) by (bit_vector);
    assert(!is_nonblocking(LOCK_SH)) by (bit_vector);
    assert(!is_nonblocking(LOCK_EX)) by (bit_vector);
}

/// An operation that names no lock request is refused as invalid and changes
/// nothing.
pub proof fn law_invalid_operation_refused(s: FileLockState, operation: i32)
    requires
        lock_kind(operation) != LOCK_SH,
        lock_kind(operation) != LOCK_EX,
        lock_kind(operation) != LOCK_UN,
    ensures
        flock_step(s, operation) == (s, FlockOutcome::Inval),
{
}

/// The lock state stays meaningful: unlocked with no holders, shared with at
/// least one, or exclusive with none.
pub open spec fn lock_state_valid(s: FileLockState) -> bool {
    ||| s.lock_type == 0 && s.readers == 0
    ||| s.lock_type == 1 && s.readers > 0
    ||| s.lock_type == 2 && s.readers == 0
}

/// Every request keeps a meaningful lock state meaningful.
pub proof fn law_step_keeps_state_valid(s: FileLockState, operation: i32)
    requires
        lock_state_valid(s),
        adds_reader(s, operation) ==> s.readers < u32::MAX,
    ensures
        lock_state_valid(flock_step(s, operation).0),
{
}

} // verus!
