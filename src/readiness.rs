//! When the rendered locator page holds enough of the list to be read.
//!
//! The caller renders the page, counts the list entries now and then, and asks
//! `poll_action` what to do with the count: read the page, wait and count
//! again, reload the page for a new attempt, or give up.
use vstd::prelude::*;

verus! {

/// Entries the list must hold before the page is read.
pub const MIN_ARCADES: usize = 2000;

/// Loads of the page, the first one included.
pub const MAX_LOAD_ATTEMPTS: u32 = 5;

/// How long one load may take to fill the list.
pub const POLLING_TIMEOUT_MS: u64 = 90_000;

/// Pause between two counts.
pub const POLLING_INTERVAL_MS: u64 = 2_000;

/// How long to wait for the list container to appear after a load.
pub const CONTAINER_TIMEOUT_MS: u64 = 60_000;

/// What to do after counting the entries of the list.
#[derive(Debug, Clone, Copy, PartialEq, Eq, Structural)]
pub enum PollAction {
    /// The list is full enough: read the page.
    Ready,
    /// Wait this many milliseconds and count again.
    Wait(u64),
    /// Reload the page and start the next attempt.
    Reload,
    /// Every attempt timed out: the page cannot be read.
    GiveUp,
}

/// The action after counting `count` entries, `elapsed_ms` into load number
/// `attempt`.
pub open spec fn poll_action_spec(attempt: u32, count: usize, elapsed_ms: u64) -> PollAction {
    if count >= MIN_ARCADES {
        PollAction::Ready
    } else if elapsed_ms > POLLING_TIMEOUT_MS {
        if attempt < MAX_LOAD_ATTEMPTS {
            PollAction::Reload
        } else {
            PollAction::GiveUp
        }
    } else {
        PollAction::Wait(POLLING_INTERVAL_MS)
    }
}

/// Decides what follows a count of the list entries: the page is read once
/// the list holds `MIN_ARCADES` entries; a load that has not filled it within
/// `POLLING_TIMEOUT_MS` is followed by a reload, and the last allowed one by
/// giving up; otherwise the list is counted again after `POLLING_INTERVAL_MS`.
pub fn poll_action(attempt: u32, count: usize, elapsed_ms: u64) -> (r: PollAction)
    requires
        1 <= attempt <= MAX_LOAD_ATTEMPTS,
    ensures
        r == poll_action_spec(attempt, count, elapsed_ms),
{
    if count >= MIN_ARCADES {
        PollAction::Ready
    } else if elapsed_ms > POLLING_TIMEOUT_MS {
        if attempt < MAX_LOAD_ATTEMPTS {
            PollAction::Reload
        } else {
            PollAction::GiveUp
        }
    } else {
        PollAction::Wait(POLLING_INTERVAL_MS)
    }
}

} // verus!
