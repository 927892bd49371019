use vstd::prelude::*;

use crate::rows::{frame_fits, frame_rows, frame_rows_spec, TermMetrics};
use crate::settings::Settings;

verus! {

/// Where the render loop stands.
#[derive(Clone, Copy, Debug, PartialEq, Eq, Structural)]
pub enum Phase {
    /// The command is to be run and its output drawn.
    Capture,
    /// A frame of `rows` rows was drawn; the loop waits for the interval or a stop request.
    Wait { rows: u64 },
    /// A stop was requested: nothing more is written once the cursor is shown again.
    Stopped,
}

/// How a wait on the cancellation signal ended.
#[derive(Clone, Copy, Debug, PartialEq, Eq, Structural)]
pub enum WaitOutcome {
    /// The interval elapsed and the signal still says to run.
    TimedOut,
    /// The signal was set to stop.
    Cancelled,
}

/// The phase after a frame of `rows` rows has been drawn.
pub open spec fn after_frame(p: Phase, rows: u64) -> Phase {
    match p {
        Phase::Capture => Phase::Wait { rows },
        _ => p,
    }
}

/// The phase after a wait ended with `o`.
pub open spec fn after_wait(p: Phase, o: WaitOutcome) -> Phase {
    match p {
        Phase::Wait { .. } => match o {
            WaitOutcome::TimedOut => Phase::Capture,
            WaitOutcome::Cancelled => Phase::Stopped,
        },
        _ => p,
    }
}

/// Rows to move the cursor up by, as a terminal takes it: at most `u16::MAX`.
pub open spec fn move_up_rows(rows: u64) -> u16 {
    if rows > u16::MAX {
        u16::MAX
    } else {
        rows as u16
    }
}

/// How a wait ended, given whether the running flag is still set when it returns.
pub open spec fn outcome_of(still_running: bool) -> WaitOutcome {
    if still_running {
        WaitOutcome::TimedOut
    } else {
        WaitOutcome::Cancelled
    }
}

/// Decides how a wait ended from the running flag as it stands once the wait returns:
/// the flag, not the wake-up alone, tells whether a stop was requested.
pub fn wait_outcome(still_running: bool) -> (r: WaitOutcome)
    ensures
        r == outcome_of(still_running),
{
    if still_running {
        WaitOutcome::TimedOut
    } else {
        WaitOutcome::Cancelled
    }
}

/// The decisions of the loop that runs a command every `interval_ms` milliseconds and
/// redraws its output in place; the caller performs the terminal and process work.
pub struct RenderLoop {
    pub interval_ms: u64,
    pub phase: Phase,
}

impl RenderLoop {
    /// A loop about to run its command for the first time.
    pub fn new(settings: &Settings) -> (r: RenderLoop)
        ensures
            r.interval_ms == settings.interval_ms,
            r.phase == Phase::Capture,
    {
        RenderLoop { interval_ms: settings.interval_ms, phase: Phase::Capture }
    }

    /// Whether the loop has stopped.
    pub fn is_stopped(&self) -> (r: bool)
        ensures
            r == (self.phase == Phase::Stopped),
    {
        match self.phase {
            Phase::Stopped => true,
            _ => false,
        }
    }

    /// Records the frame about to be drawn, measured on the terminal as it is now, and
    /// returns the rows it takes. The caller then clears from the cursor down, writes
    /// `out` then `err`, flushes, and waits for `interval_ms` or a stop request.
    pub fn begin_frame(&mut self, out: &[u8], err: &[u8], term: TermMetrics) -> (r: u64)
        requires
            old(self).phase == Phase::Capture,
            term.width > 0,
            frame_fits(out@, err@),
        ensures
            r == frame_rows_spec(out@, err@, term),
            final(self).phase == after_frame(old(self).phase, r),
            final(self).interval_ms == old(self).interval_ms,
    {
        let rows = frame_rows(out, err, term);
        self.phase = Phase::Wait { rows };
        rows
    }

    /// Records how the wait ended. After a timeout it returns the rows to move the cursor
    /// up by before the next frame, the rows of the frame just drawn; after a stop request
    /// it returns `None`, and the caller shows the cursor and writes nothing more.
    pub fn end_wait(&mut self, outcome: WaitOutcome) -> (r: Option<u16>)
        requires
            old(self).phase is Wait,
        ensures
            final(self).phase == after_wait(old(self).phase, outcome),
            final(self).interval_ms == old(self).interval_ms,
            r == (match outcome {
                WaitOutcome::TimedOut => Some(move_up_rows(old(self).phase->rows)),
                WaitOutcome::Cancelled => None,
            }),
    {
        let rows = match self.phase {
            Phase::Wait { rows } => rows,
            _ => 0,
        };
        match outcome {
            WaitOutcome::TimedOut => {
                self.phase = Phase::Capture;
                if rows > u16::MAX as u64 {
                    Some(u16::MAX)
                } else {
                    Some(rows as u16)
                }
            },
            WaitOutcome::Cancelled => {
                self.phase = Phase::Stopped;
                None
            },
        }
    }
}

/// The phase after drawing frames of the given rows, each wait ending in a timeout.
pub open spec fn run_uncancelled(p: Phase, frames: Seq<u64>) -> Phase
    decreases frames.len(),
{
    if frames.len() == 0 {
        p
    } else {
        after_wait(
            after_frame(run_uncancelled(p, frames.drop_last()), frames.last()),
            WaitOutcome::TimedOut,
        )
    }
}

/// A stop request that arrives during a wait ends the loop at that wait, whatever
/// the frame drawn; once stopped, the loop neither draws nor waits again.
pub proof fn lemma_stop_request_ends_loop(rows: u64, later_rows: u64, later: WaitOutcome)
    ensures
        after_wait(Phase::Wait { rows }, outcome_of(false)) == Phase::Stopped,
        after_frame(Phase::Stopped, later_rows) == Phase::Stopped,
        after_wait(Phase::Stopped, later) == Phase::Stopped,
{
}

/// While no stop is requested, the loop goes on: after any number of frames, each
/// followed by a wait that times out, it runs the command again.
pub proof fn lemma_runs_until_stopped(frames: Seq<u64>)
    ensures
        run_uncancelled(Phase::Capture, frames) == Phase::Capture,
        outcome_of(true) == WaitOutcome::TimedOut,
    decreases frames.len(),
{
    if frames.len() > 0 {
        lemma_runs_until_stopped(frames.drop_last());
    }
}

/// After a wait that times out, the cursor moves up by exactly the rows of the frame
/// just drawn (when they fit a terminal), and the next frame is measured anew.
pub proof fn lemma_next_frame_starts_where_last_began(rows: u64)
    requires
        rows <= u16::MAX,
    ensures
        move_up_rows(rows) == rows,
        after_wait(Phase::Wait { rows }, WaitOutcome::TimedOut) == Phase::Capture,
{
}

} // verus!
