//! The rules behind every subcommand: what each one decides, and what it says.

pub mod devices;
pub mod doctor;
pub mod new;
pub mod run;
pub mod setup;
pub mod setup_windows;
pub mod test;
pub mod ui;
pub mod update;
pub mod validate;

use vstd::prelude::*;

verus! {

/// What the command line asked for.
#[derive(Debug, Clone, PartialEq, Eq)]
pub enum Command {
    /// Scaffold a new profile with commented examples.
    New(new::NewArgs),
    /// Check a profile: grammar, key names, and every word against the model's
    /// vocabulary.
    Validate(validate::ValidateArgs),
    /// Listen and report what would happen, without typing anything.
    Test(test::TestArgs),
    /// Load a profile and start listening; optionally wrap a child process.
    Run(run::RunArgs),
    /// Configure this system.
    Setup(setup::SetupArgs),
    /// Diagnose this system.
    Doctor(doctor::DoctorArgs),
    /// List this machine's microphones and input devices.
    Devices(devices::DevicesArgs),
}

} // verus!
