//! Playback control: the shared run flag's transitions and the per-event
//! decision of the playback loop.
//!
//! The embedding program owns a single `ClickerState` behind a
//! mutual-exclusion lock shared with one background thread per run. All
//! decisions are made here; the program only executes them: it spawns the
//! thread on a successful `start_clicker`, and the thread walks the event
//! list calling `clicker_step` with the flag and the elapsed wall-clock
//! time, sleeping and injecting keys as the returned action says, then calls
//! `finish_run`. A stop request cannot interrupt an event already firing: it
//! is seen only at the next `clicker_step`.

use vstd::prelude::*;
use vstd::string::StrSliceExecFns;
use crate::timing::{sat_sub, sat_sub_u64};

verus! {

/// One timed key event: the key (only its first character is meaningful),
/// the scheduled offset from playback start, and how long to hold the key.
pub struct NoteEvent {
    pub key: String,
    pub time_ms: u64,
    pub duration_ms: u64,
}

/// The playback error surface: `start_clicker` while a run is in progress.
#[derive(Clone, Copy, Debug, PartialEq, Eq, Structural)]
pub enum PlaybackError {
    AlreadyRunning,
}

impl PlaybackError {
    /// The human-readable message surfaced to callers for this error.
    pub fn message(&self) -> (r: String)
        ensures
            r@ == "Clicker is already running"@,
    {
        "Clicker is already running".to_owned()
    }
}

/// The one piece of state shared between the control calls and the
/// background playback thread: the run flag. The thread handle the program
/// may keep beside it plays no part in any decision.
pub struct ClickerState {
    pub is_running: bool,
}

impl ClickerState {
    /// A fresh state: nothing is running.
    pub fn new() -> (s: Self)
        ensures
            !s.is_running,
    {
        ClickerState { is_running: false }
    }

    /// Requests a new playback run. While one is in progress the call fails
    /// and changes nothing; otherwise it flips the flag, and the caller must
    /// launch the background unit. Check and set happen on one `&mut`
    /// borrow, so under the caller's lock they are atomic.
    pub fn start_clicker(&mut self) -> (r: Result<(), PlaybackError>)
        ensures
            old(self).is_running ==> r == Err::<(), PlaybackError>(PlaybackError::AlreadyRunning)
                && *final(self) == *old(self),
            !old(self).is_running ==> r == Ok::<(), PlaybackError>(()) && final(self).is_running,
    {
        if self.is_running {
            Err(PlaybackError::AlreadyRunning)
        } else {
            self.is_running = true;
            Ok(())
        }
    }

    /// Requests the end of the current run. Always succeeds: stopping while
    /// nothing runs is a no-op. The request is cooperative; the background
    /// unit observes the lowered flag at its next iteration boundary.
    pub fn stop_clicker(&mut self) -> (r: Result<(), PlaybackError>)
        ensures
            r == Ok::<(), PlaybackError>(()),
            !final(self).is_running,
    {
        self.is_running = false;
        Ok(())
    }

    /// A snapshot of the run flag.
    pub fn is_clicker_running(&self) -> (r: bool)
        ensures
            r == self.is_running,
    {
        self.is_running
    }

    /// The background unit's last act, whether the run ended naturally or by
    /// an early stop: lower the flag so a new `start_clicker` may succeed.
    pub fn finish_run(&mut self)
        ensures
            !final(self).is_running,
    {
        self.is_running = false;
    }
}

/// What the playback loop does for one event.
#[derive(Clone, Copy, Debug, PartialEq, Eq, Structural)]
pub enum StepAction {
    /// The run flag is down: abandon this and every later event.
    Halt,
    /// Fire the event: wait `wait_ms` (zero when the schedule is already
    /// behind — no catch-up), press `key` if there is one, hold it
    /// `hold_ms`, release it.
    Fire { wait_ms: u64, hold_ms: u64, key: Option<char> },
}

/// The decision `clicker_step` makes: halt when the flag is down, else fire
/// after waiting out the remainder of the event's schedule.
pub open spec fn step_action_spec(running: bool, ev: NoteEvent, elapsed_ms: u64) -> StepAction {
    if !running {
        StepAction::Halt
    } else {
        (StepAction::Fire {
            wait_ms: sat_sub_u64(ev.time_ms as nat, elapsed_ms as nat) as u64,
            hold_ms: ev.duration_ms,
            key: if ev.key@.len() == 0 {
                None
            } else {
                Some(ev.key@[0])
            },
        })
    }
}

/// One iteration boundary of the playback loop: given a snapshot of the run
/// flag, the next event, and the wall-clock time elapsed since the run
/// began, decide what to do.
pub fn clicker_step(running: bool, ev: &NoteEvent, elapsed_ms: u64) -> (a: StepAction)
    ensures
        a == step_action_spec(running, *ev, elapsed_ms),
{
    if !running {
        return StepAction::Halt;
    }
    let key = if ev.key.as_str().is_empty() {
        None
    } else {
        Some(ev.key.as_str().get_char(0))
    };
    StepAction::Fire { wait_ms: sat_sub(ev.time_ms, elapsed_ms), hold_ms: ev.duration_ms, key }
}

/// Once a stop request has been observed — the flag is down — the loop
/// starts no further event, whatever the event and the clock say.
pub proof fn lemma_stop_halts_every_event(ev: NoteEvent, elapsed_ms: u64)
    ensures
        step_action_spec(false, ev, elapsed_ms) == StepAction::Halt,
{
}

} // verus!
