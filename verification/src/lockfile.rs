//! The per-host lock file: when an attempt to take it is retried, and when
//! a left-over lock is removed.
use vstd::prelude::*;
use crate::failure::Failure;
use crate::text::{append, chars_of, string_of};

verus! {

/// How long to wait for a lock, in nanoseconds (a minute).
pub const LOCK_TIMEOUT_NANOS: u128 = 60_000_000_000u128;

/// The age after which a lock is taken to be left over, in nanoseconds
/// (ten minutes).
pub const STALE_AFTER_NANOS: u128 = 600_000_000_000u128;

/// What an attempt to create the lock file came to.
#[derive(Debug, Clone)]
pub enum LockAttempt {
    Created,
    /// Another process holds the lock.
    Exists,
    /// Creating the file failed otherwise.
    Failed,
}

/// What to do after an attempt.
#[derive(Debug)]
pub enum LockNext {
    /// The lock is held.
    Acquired,
    /// Remove the lock if it is left over, wait and try again.
    Retry,
    Fail(Failure),
}

/// The message of a lock that could not be taken in time.
pub open spec fn timeout_text(path: Seq<char>) -> Seq<char> {
    "timed out waiting for lock "@ + path
}

/// The message of a lock file that could not be created.
pub open spec fn create_text(path: Seq<char>) -> Seq<char> {
    "create lock "@ + path
}

fn with_path(prefix: &str, path: &str) -> (res: String)
    ensures
        res@ == prefix@ + path@,
{
    let mut t = chars_of(prefix);
    append(&mut t, &chars_of(path));
    string_of(&t)
}

/// The next step of taking the lock at `path`, `waited` nanoseconds after
/// the first attempt.
pub fn after_attempt(attempt: LockAttempt, waited: u128, path: &str) -> (res: LockNext)
    ensures
        match attempt {
            LockAttempt::Created => res is Acquired,
            LockAttempt::Exists => if waited > LOCK_TIMEOUT_NANOS {
                res matches LockNext::Fail(Failure::Message(m)) && m@ == timeout_text(path@)
            } else {
                res is Retry
            },
            LockAttempt::Failed => res matches LockNext::Fail(Failure::Message(m)) && m@ == create_text(
                path@,
            ),
        },
{
    match attempt {
        LockAttempt::Created => LockNext::Acquired,
        LockAttempt::Exists => {
            if waited > LOCK_TIMEOUT_NANOS {
                LockNext::Fail(Failure::Message(with_path("timed out waiting for lock ", path)))
            } else {
                LockNext::Retry
            }
        },
        LockAttempt::Failed => LockNext::Fail(Failure::Message(with_path("create lock ", path))),
    }
}

/// Is a lock file of this age (none when it is unknown) left over.
pub fn is_stale(age: Option<u128>) -> (res: bool)
    ensures
        res == (age matches Some(a) && a > STALE_AFTER_NANOS),
{
    match age {
        Some(a) => a > STALE_AFTER_NANOS,
        None => false,
    }
}

} // verus!
