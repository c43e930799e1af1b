//! Keys, and the flat plans of key events a command plays.

pub mod keys;

use crate::time::Duration;
use vstd::prelude::*;

verus! {

/// A key, by its evdev code.
#[derive(Debug, Clone, Copy, PartialEq, Eq, PartialOrd, Ord, Hash, Structural)]
pub struct KeyCode {
    pub code: u16,
}

/// One step of a plan.
#[derive(Debug, Clone, Copy, PartialEq, Eq, Structural)]
pub enum KeyEvent {
    /// A key goes down.
    Down(KeyCode),
    /// A key comes back up.
    Up(KeyCode),
    /// Nothing happens for a while.
    Wait(Duration),
    /// Everything which is still down comes up.
    ReleaseAll,
}

/// What a command does, as a flat plan.
#[derive(Debug, Clone, PartialEq, Eq)]
pub enum CompiledOutput {
    /// Key events, in the order they are played.
    Keyboard(Vec<KeyEvent>),
}

impl View for CompiledOutput {
    type V = Seq<KeyEvent>;

    open spec fn view(&self) -> Seq<KeyEvent> {
        match self {
            CompiledOutput::Keyboard(plan) => plan@,
        }
    }
}

} // verus!
