//! The panel's reset pulse and its wait for the busy line.
//!
//! The caller owns the pins and the delay; these functions decide what
//! it does with them next.

use vstd::prelude::*;
use crate::error::DisplayError;

verus! {

/// Reads of the busy line before giving up on the panel.
pub const IDLE_READS: u32 = 4;

/// Milliseconds to wait after a read that finds the panel busy.
pub const IDLE_DELAY_MS: u32 = 500;

/// Milliseconds that the reset line is held in each state.
pub const RESET_DELAY_MS: u32 = 10;

/// One step of a hardware reset.
#[derive(Clone, Copy, Debug, PartialEq, Eq)]
pub enum ResetStep {
    /// Drive the reset line low: the panel is held in reset.
    Low,
    /// Drive the reset line high: the panel runs.
    High,
    /// Wait this many milliseconds.
    DelayMs(u32),
}

/// The hardware reset: hold the line low for 10 ms, then release it and
/// give the panel 10 ms.
pub open spec fn reset_steps() -> Seq<ResetStep> {
    seq![ResetStep::Low, ResetStep::DelayMs(RESET_DELAY_MS), ResetStep::High, ResetStep::DelayMs(RESET_DELAY_MS)]
}

/// The steps of a hardware reset, in order.
pub fn reset_sequence() -> (steps: Vec<ResetStep>)
    ensures
        steps@ == reset_steps(),
{
    let mut steps: Vec<ResetStep> = Vec::new();
    steps.push(ResetStep::Low);
    steps.push(ResetStep::DelayMs(RESET_DELAY_MS));
    steps.push(ResetStep::High);
    steps.push(ResetStep::DelayMs(RESET_DELAY_MS));
    assert(steps@ =~= reset_steps());
    steps
}

/// A hardware reset holds the panel in reset (line low) for 10 ms, then
/// releases it (line high) and gives it 10 ms before anything else.
pub proof fn lemma_reset_pulse()
    ensures
        reset_steps().len() == 4,
        reset_steps()[0] == ResetStep::Low,
        reset_steps()[1] == ResetStep::DelayMs(10),
        reset_steps()[2] == ResetStep::High,
        reset_steps()[3] == ResetStep::DelayMs(10),
{
}

/// What the caller does next while waiting for the panel.
#[derive(Clone, Copy, Debug, PartialEq, Eq)]
pub enum IdleAction {
    /// Read the busy line and report whether it is high (not busy).
    ReadBusy,
    /// Wait this many milliseconds and report when done.
    DelayMs(u32),
    /// The wait is over, with this outcome.
    Finish(Result<(), DisplayError>),
}

/// The decision after a read of the busy line, which is low while the
/// panel is busy: a high line ends the wait.
pub open spec fn idle_after_read(line_high: bool) -> IdleAction {
    if line_high {
        IdleAction::Finish(Ok(()))
    } else {
        IdleAction::DelayMs(IDLE_DELAY_MS)
    }
}

/// The decision after the delay that folhighs read number `reads`.
pub open spec fn idle_after_delay(reads: nat) -> IdleAction {
    if reads >= IDLE_READS {
        IdleAction::Finish(Err(DisplayError::RSError))
    } else {
        IdleAction::ReadBusy
    }
}

/// The wait for the panel to become idle: the busy line, low while the
/// panel is busy, is read up to four times, 500 ms apart; a high line
/// ends the wait at once.
pub struct IdleWait {
    reads: u32,
}

impl IdleWait {
    /// Reads of the busy line made so far.
    pub closed spec fn reads_done(&self) -> nat {
        self.reads as nat
    }

    /// A wait that has not read the line yet; its first step is a read.
    pub fn new() -> (w: Self)
        ensures
            w.reads_done() == 0,
    {
        IdleWait { reads: 0 }
    }

    /// Takes the result of a read of the busy line: `line_high` when it
    /// reads high, that is when the panel is not busy.
    pub fn after_read(&mut self, line_high: bool) -> (a: IdleAction)
        requires
            old(self).reads_done() < 4,
        ensures
            final(self).reads_done() == old(self).reads_done() + 1,
            a == idle_after_read(line_high),
    {
        self.reads = self.reads + 1;
        if line_high {
            IdleAction::Finish(Ok(()))
        } else {
            IdleAction::DelayMs(IDLE_DELAY_MS)
        }
    }

    /// Takes the end of the delay after a read that found the panel busy.
    pub fn after_delay(&self) -> (a: IdleAction)
        requires
            1 <= self.reads_done() <= 4,
        ensures
            a == idle_after_delay(self.reads_done()),
    {
        if self.reads >= IDLE_READS {
            IdleAction::Finish(Err(DisplayError::RSError))
        } else {
            IdleAction::ReadBusy
        }
    }
}

/// How a wait goes on from `reads` reads when read `i` finds the line
/// high exactly where `highs[i]`: the reads made in all, the delays
/// waited, and the outcome.
pub open spec fn idle_trace(highs: Seq<bool>, reads: nat) -> (nat, nat, Result<(), DisplayError>)
    decreases 4 - reads,
{
    if reads >= 4 {
        (reads, reads, Err(DisplayError::RSError))
    } else {
        match idle_after_read(highs[reads as int]) {
            IdleAction::Finish(r) => (reads + 1, reads, r),
            _ => match idle_after_delay(reads + 1) {
                IdleAction::Finish(r) => (reads + 1, reads + 1, r),
                _ => idle_trace(highs, reads + 1),
            },
        }
    }
}

proof fn lemma_idle_trace_from(highs: Seq<bool>, reads: nat)
    requires
        reads <= 4,
        highs.len() >= 4,
        forall|i: int| 0 <= i < reads ==> !highs[i],
    ensures
        (forall|i: int| 0 <= i < 4 ==> !highs[i])
            ==> idle_trace(highs, reads) == (4nat, 4nat, Err::<(), DisplayError>(DisplayError::RSError)),
        forall|k: int| #![trigger highs[k]]
            reads <= k < 4 && highs[k] && (forall|i: int| 0 <= i < k ==> !highs[i])
            ==> idle_trace(highs, reads) == ((k + 1) as nat, k as nat, Ok::<(), DisplayError>(())),
    decreases 4 - reads,
{
    if reads < 4 {
        if !highs[reads as int] {
            lemma_idle_trace_from(highs, reads + 1);
        } else {
            assert forall|k: int| #![trigger highs[k]]
                reads <= k < 4 && highs[k] && (forall|i: int| 0 <= i < k ==> !highs[i])
                implies idle_trace(highs, reads) == ((k + 1) as nat, k as nat, Ok::<(), DisplayError>(())) by {
                if k > reads {
                    assert(!highs[reads as int]);
                }
            }
        }
    }
}

/// Waiting for the panel ends in `Ok` at the first of the four reads that
/// finds the busy line high (not busy), after one 500 ms delay for each
/// read before it; when all four reads find it low (busy), the wait ends
/// in `RSError` after four reads and four delays.
pub proof fn lemma_idle_wait_outcome(highs: Seq<bool>)
    requires
        highs.len() >= 4,
    ensures
        (forall|i: int| 0 <= i < 4 ==> !highs[i])
            ==> idle_trace(highs, 0) == (4nat, 4nat, Err::<(), DisplayError>(DisplayError::RSError)),
        forall|k: int| #![trigger highs[k]]
            0 <= k < 4 && highs[k] && (forall|i: int| 0 <= i < k ==> !highs[i])
            ==> idle_trace(highs, 0) == ((k + 1) as nat, k as nat, Ok::<(), DisplayError>(())),
{
    lemma_idle_trace_from(highs, 0);
}

} // verus!
