//! The metrics consumer's decisions, as a pure function.
//!
//! The stream listener around this library counts results in process-wide
//! counters. The decision of which counters one parsed result touches is
//! logic, and it lives here, verified; performing the increments is I/O and
//! stays outside. The counters are keyed by labels as a time-series store
//! returns them; [`Metric`] is one such label set.

use crate::game::GuessChar;
use crate::game::Wordle;
use vstd::prelude::*;

verus! {

/// What the metrics consumer records for one parsed result: the per-day,
/// per-score game counter's labels, and whether the per-day hard-mode and
/// dark-theme counters are incremented too.
#[derive(Debug, Clone, Copy, PartialEq, Eq, Structural)]
pub struct MetricsUpdate {
    /// the day label of the counters to increment
    pub day: u16,
    /// the score label of the game counter to increment
    pub score: u8,
    /// whether the hard-mode counter for the day is incremented
    pub hard: bool,
    /// whether the dark-theme counter for the day is incremented
    pub dark: bool,
}

/// The decision part of the listener loop: from one parsed result, the
/// counter updates its consumer must perform. Pure; the caller does the I/O.
pub fn metrics_update(w: &Wordle) -> (u: MetricsUpdate)
    ensures
        u.day == w.day,
        u.score == w.score,
        u.hard == w.hard,
        u.dark == (w.guesses@.len() > 0 && w.guesses@[0]@.contains(GuessChar::Black)),
{
    MetricsUpdate { day: w.day, score: w.score, hard: w.hard, dark: w.dark_mode() }
}

/// The label set of one sample as the time-series store reports it: the
/// counter's name and the day ("game"), instance and job labels.
#[derive(Debug, Clone, PartialEq, Eq)]
pub struct Metric {
    pub name: String,
    pub game: String,
    pub instance: String,
    pub job: String,
}

} // verus!
