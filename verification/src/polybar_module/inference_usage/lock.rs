//! Locks taken around work on credentials.
//!
//! A lock is a directory: creating it takes the lock, and removing it gives it back. Its mtime
//! tells when its holder was last known to be alive.

use vstd::prelude::*;

use crate::backoff::{self, Backoff, Growth};

verus! {

/// Parameters of a lock. Durations are in nanoseconds.
#[derive(Debug, PartialEq, Eq)]
pub struct ClaudeLockParams {
    /// Directory whose creation takes the lock, relative to the credentials directory.
    pub dir: String,
    /// Age at which a held lock is considered abandoned.
    pub stale: u128,
    /// Delay between refreshes of the lock mtime, `None` to leave it untouched.
    pub heartbeat: Option<u128>,
}

impl ClaudeLockParams {
    /// Lock serializing writes to the credentials directory.
    pub fn storage() -> (r: Self)
        ensures
            r.dir@ == ".storage-write.lock"@,
            r.stale == 15_000_000_000,
            r.heartbeat is None,
    {
        ClaudeLockParams {
            dir: ".storage-write.lock".to_owned(),
            stale: 15_000_000_000,
            heartbeat: None,
        }
    }

    /// Lock serializing OAuth grants, held across the refresh request.
    pub fn refresh() -> (r: Self)
        ensures
            r.dir@ == ".oauth_refresh.lock"@,
            r.stale == 60_000_000_000,
            r.heartbeat == Some(5_000_000_000u128),
    {
        ClaudeLockParams {
            dir: ".oauth_refresh.lock".to_owned(),
            stale: 60_000_000_000,
            heartbeat: Some(5_000_000_000),
        }
    }
}

/// What came of an attempt to create the directory of a lock.
#[derive(Clone, Copy, Debug, PartialEq, Eq, Structural)]
pub enum Creation {
    Created,
    /// It exists already; its age in nanoseconds, where that is known.
    Exists(Option<u128>),
    Failed,
}

/// What to do about a lock next.
#[derive(Clone, Copy, Debug, PartialEq, Eq, Structural)]
pub enum LockStep {
    /// The lock is held now.
    Held,
    /// Remove the directory that was left behind, then try again.
    Steal,
    /// Wait for that many nanoseconds, then try again.
    Wait(u128),
    /// The lock is held by another, and has been for all the attempts.
    Busy,
    /// The directory cannot be created.
    Fail,
}

/// An acquisition of a lock that is under way.
pub struct ClaudeLockAttempt {
    /// A lock is stolen at most once, so that two acquisitions racing to steal the same lock cannot
    /// loop.
    pub may_steal: bool,
    /// Delays between attempts.
    pub backoff: Backoff,
}

/// Whether a lock has been left untouched long enough to be stolen.
pub open spec fn is_abandoned(age: Option<u128>, stale: u128) -> bool {
    match age {
        Some(a) => a > stale,
        None => false,
    }
}

impl ClaudeLockAttempt {
    pub open spec fn wf(&self) -> bool {
        &&& self.backoff.wf()
        &&& self.backoff.growth == (Growth::Bounded { min_ms: 100, max_ms: 1000, max_times: 10 })
    }

    /// Attempts that can still follow.
    pub open spec fn attempts_left(&self) -> int {
        self.backoff.left() + if self.may_steal {
            1int
        } else {
            0
        }
    }

    pub fn new() -> (r: Self)
        ensures
            r.wf(),
            r.may_steal,
            r.backoff.left() == 10,
            r.backoff.base() is None,
    {
        ClaudeLockAttempt { may_steal: true, backoff: Backoff::bounded(100, 1000, 10) }
    }

    /// Whether a lock has been left untouched long enough to be stolen.
    pub fn stale(age: Option<u128>, stale: u128) -> (r: bool)
        ensures
            r == is_abandoned(age, stale),
    {
        match age {
            Some(a) => a > stale,
            None => false,
        }
    }

    /// Takes what came of an attempt to create the directory of the lock; returns what to do next.
    pub fn on_create(&mut self, creation: Creation, stale: u128) -> (r: LockStep)
        requires
            old(self).wf(),
        ensures
            final(self).wf(),
            steps(*old(self), *final(self), creation, stale, r),
    {
        match creation {
            Creation::Created => LockStep::Held,
            Creation::Failed => LockStep::Fail,
            Creation::Exists(age) => {
                if self.may_steal && Self::stale(age, stale) {
                    self.may_steal = false;
                    return LockStep::Steal;
                }
                match self.backoff.next() {
                    Some(n) => LockStep::Wait(n),
                    None => LockStep::Busy,
                }
            },
        }
    }
}

/// What an attempt to create the directory of the lock does to an acquisition, and what to do next:
/// an abandoned lock is stolen once, and any other is waited for as long as there are delays left.
pub open spec fn steps(
    before: ClaudeLockAttempt,
    after: ClaudeLockAttempt,
    creation: Creation,
    stale: u128,
    step: LockStep,
) -> bool {
    match creation {
        Creation::Created => step == LockStep::Held && after == before,
        Creation::Failed => step == LockStep::Fail && after == before,
        Creation::Exists(age) => if before.may_steal && is_abandoned(age, stale) {
            &&& step == LockStep::Steal
            &&& !after.may_steal
            &&& after.backoff == before.backoff
        } else {
            &&& after.may_steal == before.may_steal
            &&& match step {
                LockStep::Wait(n) => backoff::advances(before.backoff, after.backoff, n),
                LockStep::Busy => {
                    &&& before.backoff.left() == 0 && after.backoff.left() == 0
                    &&& after.backoff.base() == before.backoff.base()
                },
                _ => false,
            }
        },
    }
}

/// An acquisition comes to an end: every step that asks for another attempt leaves fewer of them.
pub proof fn acquisitions_end(
    before: ClaudeLockAttempt,
    after: ClaudeLockAttempt,
    creation: Creation,
    stale: u128,
    step: LockStep,
)
    requires
        steps(before, after, creation, stale, step),
    ensures
        step == LockStep::Steal || step is Wait ==> 0 <= after.attempts_left()
            < before.attempts_left(),
{
}

/// The first wait for a lock takes a tenth of a second, and none takes more than a second.
pub proof fn waits_for_a_lock_are_short(
    before: ClaudeLockAttempt,
    after: ClaudeLockAttempt,
    creation: Creation,
    stale: u128,
    n: u128,
)
    requires
        before.wf(),
        steps(before, after, creation, stale, LockStep::Wait(n)),
    ensures
        before.backoff.base() is None ==> n == 100_000_000,
        100_000_000 <= n <= 1_000_000_000,
{
}

/// A lock that is not abandoned is never stolen, and none is stolen twice.
pub proof fn only_abandoned_locks_are_stolen(
    before: ClaudeLockAttempt,
    after: ClaudeLockAttempt,
    creation: Creation,
    stale: u128,
    step: LockStep,
)
    requires
        steps(before, after, creation, stale, step),
        step == LockStep::Steal,
    ensures
        creation matches Creation::Exists(age) && is_abandoned(age, stale),
        before.may_steal,
        !after.may_steal,
{
}

/// What to do about a lock on giving it back.
#[derive(Clone, Copy, Debug, PartialEq, Eq, Structural)]
pub enum Release {
    /// Remove its directory.
    Remove,
    /// Leave it to the writer that took it over, who would otherwise write unprotected.
    Leave,
    /// Nothing is known of it.
    Unknown,
}

/// What to do about a lock on giving it back, `own` being the inode of the directory that took it
/// and `found` the one of the directory that is there now.
pub fn release(own: u64, found: Option<u64>) -> (r: Release)
    ensures
        r == match found {
            Some(inode) => if inode == own {
                Release::Remove
            } else {
                Release::Leave
            },
            None => Release::Unknown,
        },
{
    match found {
        Some(inode) => if inode == own {
            Release::Remove
        } else {
            Release::Leave
        },
        None => Release::Unknown,
    }
}

/// A lock is abandoned exactly if it is known to be older than the limit.
pub proof fn old_locks_are_abandoned(age: u128, stale: u128)
    ensures
        is_abandoned(Some(age), stale) <==> age > stale,
        !is_abandoned(None, stale),
{
}

/// A directory that was created is the lock, and one that cannot be created is a failure; one that
/// exists is stolen where it is abandoned and none was stolen before, else waited for, and given up
/// once there are no delays left.
pub proof fn locks_are_taken_or_waited_for(
    before: ClaudeLockAttempt,
    after: ClaudeLockAttempt,
    creation: Creation,
    stale: u128,
    step: LockStep,
)
    requires
        steps(before, after, creation, stale, step),
    ensures
        step == LockStep::Held <==> creation == Creation::Created,
        step == LockStep::Fail <==> creation == Creation::Failed,
        step == LockStep::Steal <==> before.may_steal && (creation matches Creation::Exists(Some(age))
            && age > stale),
        step is Wait ==> before.backoff.left() > 0,
        step == LockStep::Busy ==> before.backoff.left() == 0,
{
}

}
