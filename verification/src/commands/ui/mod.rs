//! What a session reports, and how: everything travels as one event, and one
//! renderer consumes them.

pub mod event;
pub mod plan;
pub mod tui;

use vstd::prelude::*;

verus! {

/// How a session reports itself.
#[derive(Debug, Clone, Copy, PartialEq, Eq, Structural)]
pub enum ReportMode {
    /// The full-screen terminal UI.
    Tui,
    /// One line per event on stdout.
    Plain,
}

impl ReportMode {
    /// The UI is only ever taken out when stdout is a terminal we own: piped
    /// output gets the plain report, because escape sequences and an alternate
    /// screen are worse than useless there.
    pub fn of(stdout_is_terminal: bool) -> (mode: Self)
        ensures
            mode == if stdout_is_terminal { ReportMode::Tui } else { ReportMode::Plain },
    {
        if stdout_is_terminal {
            ReportMode::Tui
        } else {
            ReportMode::Plain
        }
    }
}

} // verus!
