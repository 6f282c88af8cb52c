//! Making sure that a daemon runs before a command needs it.
use crate::text::{decimal, decimal_text};
use vstd::prelude::*;
use vstd::string::*;

verus! {

/// How long a started daemon may take to answer, in milliseconds.
pub const READY_TIMEOUT_MS: u64 = 10_000;

/// How long to wait between two probes, in milliseconds.
pub const POLL_INTERVAL_MS: u64 = 500;

/// How long one probe may take, in milliseconds.
pub const PROBE_TIMEOUT_MS: u64 = 750;

/// What to do after a probe.
pub enum GuardStep {
    /// The daemon answers: go on.
    Ready,
    /// Start a daemon, tell so, and probe again after the interval.
    Start(String),
    /// Probe again after the interval.
    Wait,
    /// No daemon came up in time.
    GiveUp(String),
}

/// What to do after a probe. `since_start` is the time that has passed since a
/// daemon was started, in milliseconds; nothing where none was started yet.
pub fn ensure_daemon_running(base: &str, healthy: bool, since_start: Option<u64>) -> (step:
    GuardStep)
    ensures
        match step {
            GuardStep::Ready => healthy,
            GuardStep::Start(s) => !healthy && since_start is None && s@
                == "Starting trusty-search daemon…"@,
            GuardStep::Wait => !healthy && (since_start matches Some(ms) && ms < READY_TIMEOUT_MS),
            GuardStep::GiveUp(s) => !healthy && (since_start matches Some(ms) && ms
                >= READY_TIMEOUT_MS) && s@ == "daemon did not become ready within "@ + decimal(10)
                + "s at "@ + base@
                + " — try `trusty-search start` manually to see the error"@,
        },
{
    if healthy {
        return GuardStep::Ready;
    }
    match since_start {
        None => GuardStep::Start("Starting trusty-search daemon…".to_owned()),
        Some(ms) => if ms < READY_TIMEOUT_MS {
            GuardStep::Wait
        } else {
            let mut s = "daemon did not become ready within ".to_owned();
            s.append(decimal_text(READY_TIMEOUT_MS / 1000).as_str());
            s.append("s at ");
            s.append(base);
            s.append(" — try `trusty-search start` manually to see the error");
            GuardStep::GiveUp(s)
        },
    }
}

} // verus!
