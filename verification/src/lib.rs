//! Engine for timed stimulus-response experiments.
//!
//! A `Session` drives `Block`s, which drive `Trial`s; each level applies its
//! own wait/advance policy (fixed delay, wait for a key set, key-or-deadline
//! race) while producing a totally ordered, timestamped stream of events and
//! an ordered sequence of `Observation`s.  All waiting happens on a virtual
//! timeline (`runner::Runner`): the engine consumes a time-sorted script of
//! key events and advances a logical clock, so every run is deterministic and
//! auditable.  Real delays, rendering and input capture are left to a thin
//! unverified driver around this crate.
//!
//! All durations and timestamps are in microseconds.
use vstd::prelude::*;

pub mod block;
pub mod output;
pub mod runner;
pub mod laws;
pub mod session;
pub mod shuffle;
pub mod trial;

verus! {

/// Identity of a pressed key.
pub type Key = char;

/// Instruction or stimulus text.
pub type Text = String;

/// Navigation commands a participant can issue outside the trial flow.
pub enum NaviEvent {
    Back,
    Forward,
    Quit,
}

/// Coarse event categories the engine distinguishes while waiting.
/// `AdvanceAfter` carries a duration in microseconds.
pub enum Event {
    Response(),
    InputEvent,
    AdvanceAfter(u64),
}

} // verus!
