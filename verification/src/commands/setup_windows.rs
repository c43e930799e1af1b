//! `voice-orders setup` on Windows: there is nothing to set up.
//!
//! Keyboard output and the listen hotkey are ordinary user-space APIs there, so
//! the command stays, says so, and succeeds: a setup script which runs it on
//! both platforms should not have to know which one it is on.

use super::setup::SetupArgs;
use vstd::prelude::*;

verus! {

/// What this command tells a Windows user.
pub const NOTHING_TO_CONFIGURE: &'static str = "Nothing to configure: Windows needs no drivers or permissions for voice-orders. Keyboard output goes through SendInput and the listen hotkey through a low-level keyboard hook, both of which are ordinary user-space APIs. Run 'voice-orders doctor' to check the rest of your installation.";

/// Reports that this machine needs no configuration: what to say, and the exit
/// code to leave with. Both flags are accepted and have no effect: there is no
/// plan to confirm and no plan to print.
pub fn run(args: SetupArgs) -> (outcome: (&'static str, i32))
    ensures
        outcome.0@ == NOTHING_TO_CONFIGURE@,
        outcome.1 == 0,
{
    let _ = args;
    (NOTHING_TO_CONFIGURE, 0)
}

} // verus!
