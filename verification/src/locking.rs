//! Locks that are directories: whoever creates the directory holds the lock, and records itself
//! in it.

use vstd::prelude::*;

verus! {

/// How old a lock is, in milliseconds, as far as 64 bits tell.
pub open spec fn lock_age(now_ms: u128, acquired_at_ms: u128) -> int {
    (if now_ms >= acquired_at_ms {
        now_ms - acquired_at_ms
    } else {
        0
    }) % 0x1_0000_0000_0000_0000
}

/// Whether a lock may be broken: it says nothing of its holder, or it is older than the timeout
/// and its holder is gone.
pub open spec fn breakable(
    acquired_at_ms: Option<u128>,
    now_ms: u128,
    lock_timeout_ms: u64,
    pid_alive: bool,
) -> bool {
    match acquired_at_ms {
        None => true,
        Some(at) => lock_age(now_ms, at) > lock_timeout_ms && !pid_alive,
    }
}

/// Whether a lock that was taken at a time may be broken.
pub fn is_breakable(
    acquired_at_ms: Option<u128>,
    now_ms: u128,
    lock_timeout_ms: u64,
    pid_alive: bool,
) -> (r: bool)
    ensures
        r == breakable(acquired_at_ms, now_ms, lock_timeout_ms, pid_alive),
{
    match acquired_at_ms {
        None => true,
        Some(at) => {
            let age = now_ms.saturating_sub(at);
            let age_ms: u64 = (age % 0x1_0000_0000_0000_0000) as u64;
            age_ms > lock_timeout_ms && !pid_alive
        },
    }
}

/// How far the taking of a lock has come.
#[derive(Debug, Clone, Copy)]
pub enum LockStage {
    /// Creating the directory.
    Create,
    /// Reading who holds the lock.
    Inspect,
    /// Removing the directory of a lock that may be broken.
    Break,
    /// Recording who holds it now.
    Record { pid: u32, acquired_at_ms: u128 },
    /// It is held, since a time.
    Held { pid: u32, since_ms: u128 },
    /// Another holds it.
    Busy,
}

/// What came of a step.
#[derive(Debug, Clone, Copy)]
pub enum LockEvent {
    /// The directory was created, by a process, at a time.
    Created { pid: u32, now_ms: u128 },
    /// There is such a directory.
    Exists,
    /// What the lock says of its holder, and whether that process lives.
    Holder { acquired_at_ms: Option<u128>, now_ms: u128, pid_alive: bool },
    /// The removal was tried.
    Removed,
    /// The record was written, at a time.
    Recorded { now_ms: u128 },
}

impl LockStage {
    /// Whether the taking of the lock is over.
    pub open spec fn over(self) -> bool {
        self is Held || self is Busy
    }

    /// What can come of the step that the taking of the lock waits for.
    pub open spec fn answered_by(self, event: LockEvent) -> bool {
        match self {
            LockStage::Create => event is Created || event is Exists,
            LockStage::Inspect => event is Holder,
            LockStage::Break => event is Removed,
            LockStage::Record { .. } => event is Recorded,
            LockStage::Held { .. } | LockStage::Busy => false,
        }
    }

    /// Where the taking of the lock goes.
    pub open spec fn next(self, lock_timeout_ms: u64, event: LockEvent) -> LockStage {
        match (self, event) {
            (LockStage::Create, LockEvent::Created { pid, now_ms }) => LockStage::Record {
                pid,
                acquired_at_ms: now_ms,
            },
            (LockStage::Create, _) => LockStage::Inspect,
            (LockStage::Inspect, LockEvent::Holder { acquired_at_ms, now_ms, pid_alive }) =>
                if breakable(acquired_at_ms, now_ms, lock_timeout_ms, pid_alive) {
                LockStage::Break
            } else {
                LockStage::Busy
            },
            (LockStage::Break, _) => LockStage::Create,
            (LockStage::Record { pid, .. }, LockEvent::Recorded { now_ms }) => LockStage::Held {
                pid,
                since_ms: now_ms,
            },
            _ => self,
        }
    }

    /// Takes what came of the step that the taking of the lock waited for.
    pub fn advance(self, lock_timeout_ms: u64, event: LockEvent) -> (r: LockStage)
        requires
            self.answered_by(event),
        ensures
            r == self.next(lock_timeout_ms, event),
    {
        match (self, event) {
            (LockStage::Create, LockEvent::Created { pid, now_ms }) => LockStage::Record {
                pid,
                acquired_at_ms: now_ms,
            },
            (LockStage::Create, _) => LockStage::Inspect,
            (LockStage::Inspect, LockEvent::Holder { acquired_at_ms, now_ms, pid_alive }) => {
                if is_breakable(acquired_at_ms, now_ms, lock_timeout_ms, pid_alive) {
                    LockStage::Break
                } else {
                    LockStage::Busy
                }
            },
            (LockStage::Break, _) => LockStage::Create,
            (LockStage::Record { pid, .. }, LockEvent::Recorded { now_ms }) => LockStage::Held {
                pid,
                since_ms: now_ms,
            },
            _ => self,
        }
    }
}

/// Breaking locks keeps holders apart: a lock whose holder is alive, or that is no older than the
/// timeout, is not broken.
pub proof fn law_live_lock_is_kept(
    acquired_at_ms: u128,
    now_ms: u128,
    lock_timeout_ms: u64,
    pid_alive: bool,
)
    requires
        pid_alive || (now_ms >= acquired_at_ms && now_ms - acquired_at_ms <= lock_timeout_ms),
    ensures
        !breakable(Some(acquired_at_ms), now_ms, lock_timeout_ms, pid_alive),
        LockStage::Inspect.next(
            lock_timeout_ms,
            LockEvent::Holder { acquired_at_ms: Some(acquired_at_ms), now_ms, pid_alive },
        ) is Busy,
{
}

/// A lock is held only by who created its directory and recorded itself in it.
pub proof fn law_held_locks_were_created(stage: LockStage, lock_timeout_ms: u64, event: LockEvent)
    requires
        stage.answered_by(event),
    ensures
        stage.next(lock_timeout_ms, event) is Held ==> stage is Record && event is Recorded,
        stage.next(lock_timeout_ms, event) is Record ==> stage is Create && event is Created,
        stage.next(lock_timeout_ms, event) is Break ==> stage is Inspect && event is Holder
            && breakable(
            event->acquired_at_ms,
            event->Holder_now_ms,
            lock_timeout_ms,
            event->pid_alive,
        ),
{
}

/// A lock is broken exactly where it tells nothing of its holder, or its holder is gone and it is
/// older than the timeout; one that is broken can be taken anew, and one that nobody holds is
/// taken.
pub proof fn law_left_locks_are_taken(
    acquired_at_ms: u128,
    now_ms: u128,
    lock_timeout_ms: u64,
    pid: u32,
)
    ensures
        breakable(None, now_ms, lock_timeout_ms, true),
        acquired_at_ms <= now_ms && lock_timeout_ms < now_ms - acquired_at_ms
            <= u64::MAX ==> breakable(Some(acquired_at_ms), now_ms, lock_timeout_ms, false),
        now_ms <= acquired_at_ms ==> !breakable(
            Some(acquired_at_ms),
            now_ms,
            lock_timeout_ms,
            false,
        ),
        LockStage::Create.next(lock_timeout_ms, LockEvent::Created { pid, now_ms }) == (
        LockStage::Record { pid, acquired_at_ms: now_ms }),
        LockStage::Create.next(lock_timeout_ms, LockEvent::Exists) is Inspect,
        LockStage::Break.next(lock_timeout_ms, LockEvent::Removed) is Create,
        (LockStage::Record { pid, acquired_at_ms }).next(
            lock_timeout_ms,
            LockEvent::Recorded { now_ms },
        ) == (LockStage::Held { pid, since_ms: now_ms }),
        forall|at: Option<u128>, alive: bool| #[trigger]
            breakable(at, now_ms, lock_timeout_ms, alive) ==> (LockStage::Inspect.next(
                lock_timeout_ms,
                LockEvent::Holder { acquired_at_ms: at, now_ms, pid_alive: alive },
            ) is Break),
{
}

} // verus!
