//! What is sent to the panel, and how a run of transfers ends.
//!
//! A driver describes an operation as a list of transfers. The caller
//! performs them in order on the bus and reports each outcome; the run
//! stops at the first transfer that fails and ends with that failure.

use vstd::prelude::*;
use crate::error::DisplayError;

verus! {

/// One exchange with the panel controller.
#[derive(Debug, PartialEq, Eq)]
pub enum Transfer {
    /// Bytes sent with the data/command line in command mode.
    Command(Vec<u8>),
    /// Bytes sent with the data/command line in data mode.
    Data(Vec<u8>),
    /// Wait until the controller reports that it is no longer busy.
    WaitUntilIdle,
    /// Pulse the controller's reset line.
    Reset,
}

/// The value of a transfer, its bytes taken as a sequence.
#[verifier::ext_equal]
pub enum Step {
    Command(Seq<u8>),
    Data(Seq<u8>),
    WaitUntilIdle,
    Reset,
}

impl View for Transfer {
    type V = Step;

    open spec fn view(&self) -> Step {
        match self {
            Transfer::Command(bytes) => Step::Command(bytes@),
            Transfer::Data(bytes) => Step::Data(bytes@),
            Transfer::WaitUntilIdle => Step::WaitUntilIdle,
            Transfer::Reset => Step::Reset,
        }
    }
}

/// The steps that a list of transfers describes.
pub open spec fn steps_of(transfers: Seq<Transfer>) -> Seq<Step> {
    transfers.map_values(|t: Transfer| t@)
}

pub proof fn lemma_steps_of_push(transfers: Seq<Transfer>, t: Transfer)
    ensures
        steps_of(transfers.push(t)) == steps_of(transfers).push(t@),
{
    assert(steps_of(transfers.push(t)) =~= steps_of(transfers).push(t@));
}

/// A command of one byte.
pub open spec fn command(byte: u8) -> Step {
    Step::Command(seq![byte])
}

/// What the caller does next in a run of transfers.
#[derive(Clone, Copy, Debug, PartialEq, Eq)]
pub enum RunAction {
    /// Perform the transfer at this index and report its outcome.
    Perform(usize),
    /// The run is over, with this outcome.
    Finish(Result<(), DisplayError>),
}

/// The decision after `performed` of `len` transfers, the last of which
/// ended in `last` (`Ok` before the first).
pub open spec fn run_step_spec(len: usize, performed: usize, last: Result<(), DisplayError>) -> RunAction {
    match last {
        Err(e) => RunAction::Finish(Err(e)),
        Ok(()) => if performed < len {
            RunAction::Perform(performed)
        } else {
            RunAction::Finish(Ok(()))
        },
    }
}

/// Decides what follows in a run of `len` transfers, of which `performed`
/// have been performed, the last one ending in `last` (`Ok(())` when none
/// has been performed yet).
pub fn run_step(len: usize, performed: usize, last: Result<(), DisplayError>) -> (a: RunAction)
    requires
        performed <= len,
    ensures
        a == run_step_spec(len, performed, last),
{
    match last {
        Err(e) => RunAction::Finish(Err(e)),
        Ok(()) => if performed < len {
            RunAction::Perform(performed)
        } else {
            RunAction::Finish(Ok(()))
        },
    }
}

/// What a run is told after each transfer: it is only ever told to
/// perform the next transfer of the list, and only while nothing has
/// failed; a failure always ends the run with that failure's error, and a
/// run with nothing failed ends in `Ok` exactly when every transfer has
/// been performed.
pub proof fn lemma_run_step_decides(len: usize, performed: usize, last: Result<(), DisplayError>)
    requires
        performed <= len,
    ensures
        run_step_spec(len, performed, last) matches RunAction::Perform(i)
            ==> i == performed && i < len && last is Ok,
        last is Err ==> run_step_spec(len, performed, last) == RunAction::Finish(last),
        last is Ok ==> (run_step_spec(len, performed, last) == RunAction::Finish(Ok(())) <==> performed == len),
        last is Ok && performed < len ==> run_step_spec(len, performed, last) is Perform,
{
}

/// How a run goes on from `performed` transfers when transfer `i` ends in
/// `outcomes[i]`: the number of transfers performed in all, and the
/// outcome of the run.
pub open spec fn run_trace(
    len: usize,
    outcomes: Seq<Result<(), DisplayError>>,
    performed: usize,
    last: Result<(), DisplayError>,
) -> (usize, Result<(), DisplayError>)
    decreases len - performed,
{
    match run_step_spec(len, performed, last) {
        RunAction::Perform(i) => if performed < len {
            run_trace(len, outcomes, (performed + 1) as usize, outcomes[i as int])
        } else {
            (performed, last)
        },
        RunAction::Finish(r) => (performed, r),
    }
}

proof fn lemma_run_trace_from(
    len: usize,
    outcomes: Seq<Result<(), DisplayError>>,
    performed: usize,
    last: Result<(), DisplayError>,
)
    requires
        outcomes.len() == len,
        performed <= len,
        last is Ok,
        forall|i: int| 0 <= i < performed ==> outcomes[i] is Ok,
    ensures
        (forall|i: int| 0 <= i < len ==> outcomes[i] is Ok)
            ==> run_trace(len, outcomes, performed, last) == (len, Ok::<(), DisplayError>(())),
        forall|k: int| #![trigger outcomes[k]]
            performed <= k < len && outcomes[k] is Err && (forall|i: int| 0 <= i < k ==> outcomes[i] is Ok)
            ==> run_trace(len, outcomes, performed, last) == ((k + 1) as usize, outcomes[k]),
    decreases len - performed,
{
    if performed < len {
        let o = outcomes[performed as int];
        if o is Ok {
            lemma_run_trace_from(len, outcomes, (performed + 1) as usize, o);
        } else {
            let next = (performed + 1) as usize;
            assert(run_trace(len, outcomes, next, o) == (next, o));
            assert forall|k: int| #![trigger outcomes[k]]
                performed <= k < len && outcomes[k] is Err && (forall|i: int| 0 <= i < k ==> outcomes[i] is Ok)
                implies run_trace(len, outcomes, performed, last) == ((k + 1) as usize, outcomes[k]) by {
                if k > performed {
                    assert(outcomes[performed as int] is Ok);
                }
            }
        }
    }
}

/// A run of `len` transfers that starts with nothing performed stops at
/// the first transfer that fails, having performed it and every transfer
/// before it, and ends with that transfer's error; when every transfer
/// succeeds, all `len` are performed and the run ends in `Ok`.
pub proof fn lemma_run_stops_at_first_error(len: usize, outcomes: Seq<Result<(), DisplayError>>)
    requires
        outcomes.len() == len,
    ensures
        (forall|i: int| 0 <= i < len ==> outcomes[i] is Ok)
            ==> run_trace(len, outcomes, 0, Ok(())) == (len, Ok::<(), DisplayError>(())),
        forall|k: int| #![trigger outcomes[k]]
            0 <= k < len && outcomes[k] is Err && (forall|i: int| 0 <= i < k ==> outcomes[i] is Ok)
            ==> run_trace(len, outcomes, 0, Ok(())) == ((k + 1) as usize, outcomes[k]),
{
    lemma_run_trace_from(len, outcomes, 0, Ok(()));
}

} // verus!
