//! Stopping the daemon.
//!
//! The daemon is told to stop by a signal; it is gone when its port file is.
use crate::commands::daemon_utils::{pid_from, pid_in};
use crate::engine::memguard::opt_str;
use crate::text::{decimal, decimal_text};
use vstd::prelude::*;
use vstd::string::*;

verus! {

/// How often the port file is looked for after the signal.
pub const STOP_POLLS: u8 = 50;

/// What to do about the daemon.
pub enum StopStep {
    /// There is none, and what to tell.
    NotRunning(String),
    /// Signal the process, and what to tell.
    Signal { pid: u32, notice: String },
}

/// What to do about the daemon whose lock file has the given content.
pub fn handle_stop(lock_file: Option<&str>) -> (step: StopStep)
    ensures
        match step {
            StopStep::NotRunning(s) => pid_in(opt_str(lock_file)) is None && s@
                == "No daemon running (no PID file)"@,
            StopStep::Signal { pid, notice } => pid_in(opt_str(lock_file)) == Some(pid) && notice@
                == "Stopping daemon (PID "@ + decimal(pid as nat) + ")…"@,
        },
{
    match pid_from(lock_file) {
        None => StopStep::NotRunning("No daemon running (no PID file)".to_owned()),
        Some(pid) => {
            let mut notice = "Stopping daemon (PID ".to_owned();
            notice.append(decimal_text(pid as u64).as_str());
            notice.append(")…");
            StopStep::Signal { pid, notice }
        },
    }
}

/// Waiting for a signalled daemon.
#[derive(Debug, PartialEq, Eq, Structural)]
pub struct StopWait {
    /// How often the port file was looked for.
    pub polls: u8,
}

/// What waiting came to.
pub enum StopOutcome {
    /// Look again.
    Waiting,
    /// The daemon is gone.
    Stopped(String),
    /// The daemon did not go away in time.
    StillThere(String),
}

impl StopWait {
    /// Starts to wait, where the signal was sent.
    pub fn after_signal(sent: bool) -> (r: Result<StopWait, String>)
        ensures
            match r {
                Ok(w) => sent && w.polls == 0,
                Err(s) => !sent && s@
                    == "Failed to send SIGTERM (process may already be gone)"@,
            },
    {
        if sent {
            Ok(StopWait { polls: 0 })
        } else {
            Err("Failed to send SIGTERM (process may already be gone)".to_owned())
        }
    }

    /// Takes note of whether the port file is gone; a port file whose place is
    /// not known counts as gone.
    pub fn poll(&mut self, port_file_there: Option<bool>) -> (outcome: StopOutcome)
        requires
            old(self).polls < STOP_POLLS,
        ensures
            final(self).polls == old(self).polls + 1,
            match outcome {
                StopOutcome::Stopped(s) => port_file_there != Some(true) && s@
                    == "Daemon stopped"@,
                StopOutcome::StillThere(s) => port_file_there == Some(true) && final(self).polls
                    == STOP_POLLS && s@ == "Daemon may still be shutting down"@,
                StopOutcome::Waiting => port_file_there == Some(true) && final(self).polls
                    < STOP_POLLS,
            },
    {
        self.polls = self.polls + 1;
        let there = match port_file_there {
            Some(b) => b,
            None => false,
        };
        if !there {
            StopOutcome::Stopped("Daemon stopped".to_owned())
        } else if self.polls == STOP_POLLS {
            StopOutcome::StillThere("Daemon may still be shutting down".to_owned())
        } else {
            StopOutcome::Waiting
        }
    }
}

} // verus!
