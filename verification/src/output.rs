//! Output model: the ordered, timestamped event stream the engine emits.
use vstd::prelude::*;

use crate::Key;
use crate::session::Participant;
use crate::trial::{Response, Stimulus};

verus! {

/// Error conditions that appear in the event stream.
#[derive(Clone, PartialEq, Debug)]
pub enum YexError {
    /// A stimulus whose asset could not be resolved.
    FileNotFound(Stimulus),
    /// The participant (or the input source) left mid-run.
    PartInterrupt(Participant),
    /// A wait policy had no resolution path.
    PolicyViolation,
}

/// One event on the session timeline.  Durations are in microseconds; the
/// emission timestamp lives beside the event in `runner::Emitted`.
#[derive(Clone, PartialEq, Debug)]
pub enum YldEvent {
    Error(YexError),
    /// A block starts, with its execution index.
    Block(usize),
    /// A block is over (relax phase included), with its execution index.
    BlockEnd(usize),
    /// The seed that realizes a randomized order, recorded so the order can
    /// be reconstructed.
    Seed(u64),
    Relax(u64),
    FixCross(u64),
    StimPresented(Stimulus),
    KeyPress(Key),
    Response(Response),
    Welcome,
    Consent,
    Demographics,
    Goodbye,
}

} // verus!
