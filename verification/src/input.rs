//! Decoding of raw input reports into button presses, and the decision
//! the read loop takes on each read outcome.

use vstd::prelude::*;

verus! {

/// Length of one input report: a 4-byte header followed by one state
/// byte per physical button.
pub const INPUT_REPORT_LEN: usize = 19;

/// Length of the header at the front of an input report.
pub const INPUT_HEADER_LEN: usize = 4;

/// The position of the first pressed byte (value 1) in a run of button
/// state bytes, or nothing when no byte is 1.
pub fn get_button_index(vec: Vec<u8>) -> (r: Option<usize>)
    ensures
        match r {
            Some(i) => i < vec@.len() && vec@[i as int] == 1u8 && (forall|j: int|
                0 <= j < i ==> vec@[j] != 1u8),
            None => forall|j: int| 0 <= j < vec@.len() ==> vec@[j] != 1u8,
        },
{
    let mut i: usize = 0;
    while i < vec.len()
        invariant
            i <= vec@.len(),
            forall|j: int| 0 <= j < i ==> vec@[j] != 1u8,
        decreases vec@.len() - i,
    {
        if vec[i] == 1 {
            return Some(i);
        }
        i = i + 1;
    }
    None
}

/// The button-state bytes of a raw input report: everything after the
/// fixed header.
pub fn button_states(report: &Vec<u8>) -> (r: Vec<u8>)
    requires
        report@.len() >= INPUT_HEADER_LEN,
    ensures
        r@ == report@.skip(INPUT_HEADER_LEN as int),
{
    let mut out: Vec<u8> = Vec::new();
    let mut i: usize = INPUT_HEADER_LEN;
    while i < report.len()
        invariant
            INPUT_HEADER_LEN <= i <= report@.len(),
            out@ =~= report@.subrange(INPUT_HEADER_LEN as int, i as int),
        decreases report@.len() - i,
    {
        out.push(report[i]);
        i = i + 1;
    }
    proof {
        assert(out@ =~= report@.skip(INPUT_HEADER_LEN as int));
    }
    out
}

/// One read attempt of the input loop, as the surrounding program saw
/// it: a whole input report, or a failed read (a lost device).
pub enum ReadOutcome {
    Report(Vec<u8>),
    Failed,
}

/// What the input loop does next: dispatch the press of one button,
/// keep polling, or acquire a fresh device handle and then keep
/// polling. A reconnect touches nothing else: the engine state is not
/// part of this decision.
#[derive(PartialEq, Eq, Structural, Debug)]
pub enum LoopStep {
    Dispatch(u8),
    Poll,
    Reconnect,
}

/// Decides what the input loop does with one read outcome: a failed
/// read asks for a reconnect, a report with a pressed button (the
/// first state byte equal to 1) dispatches that button, and a report
/// with no press polls again.
pub fn input_step(outcome: ReadOutcome) -> (r: LoopStep)
    requires
        outcome matches ReadOutcome::Report(rep) ==> rep@.len() == INPUT_REPORT_LEN,
    ensures
        match outcome {
            ReadOutcome::Failed => r == LoopStep::Reconnect,
            ReadOutcome::Report(rep) => {
                let states = rep@.skip(INPUT_HEADER_LEN as int);
                match r {
                    LoopStep::Dispatch(i) => i < states.len() && states[i as int] == 1u8 && (forall|
                        j: int,
                    | 0 <= j < i ==> states[j] != 1u8),
                    LoopStep::Poll => forall|j: int| 0 <= j < states.len() ==> states[j] != 1u8,
                    LoopStep::Reconnect => false,
                }
            },
        },
{
    match outcome {
        ReadOutcome::Failed => LoopStep::Reconnect,
        ReadOutcome::Report(rep) => {
            let states = button_states(&rep);
            match get_button_index(states) {
                Some(i) => LoopStep::Dispatch(i as u8),
                None => LoopStep::Poll,
            }
        },
    }
}

} // verus!
