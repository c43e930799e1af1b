//! The values a profile gets for whatever it leaves out.

use crate::time::Duration;
use vstd::prelude::*;

verus! {

/// `audio.device`: let the host pick the system default input.
pub const AUDIO_DEVICE: &'static str = "default";

/// `hotkey.device`: search every readable `/dev/input/event*`.
pub fn hotkey_device() -> (device: String)
    ensures
        device@ == "auto"@,
{
    "auto".to_owned()
}

/// `completion_timeout`: how long an ambiguous prefix waits for more words.
pub fn completion_timeout() -> (timeout: Duration)
    ensures
        timeout.wf(),
        timeout.total_nanos() == 300_000_000,
{
    Duration::from_millis(300)
}

/// `defaults.duration`: how long each chord is held down.
pub fn key_duration() -> (duration: Duration)
    ensures
        duration.wf(),
        duration.total_nanos() == 30_000_000,
{
    Duration::from_millis(30)
}

/// `defaults.interval`: the gap left between chords.
pub fn key_interval() -> (interval: Duration)
    ensures
        interval.wf(),
        interval.total_nanos() == 25_000_000,
{
    Duration::from_millis(25)
}

} // verus!
