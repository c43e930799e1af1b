//! What the audio backend reports, worded for the person who has to deal with
//! it.
//!
//! Anything the person running the tool can fix (an unplugged microphone, a
//! device another application has grabbed exclusively) is a user error;
//! anything that means the sound server is behaving unexpectedly is a system
//! error.

use crate::errors::{
    wrapped_system_error, wrapped_user_error, Error, ErrorView, HumanizableError,
};
use vstd::prelude::*;

verus! {

/// What kind of failure the audio backend reported.
#[derive(Debug, Clone, Copy, PartialEq, Eq, Structural)]
pub enum AudioErrorKind {
    DeviceBusy,
    DeviceChanged,
    DeviceNotAvailable,
    HostUnavailable,
    InvalidInput,
    PermissionDenied,
    RealtimeDenied,
    ResourceExhausted,
    StreamInvalidated,
    UnsupportedConfig,
    UnsupportedOperation,
    Xrun,
    BackendError,
    Other,
}

/// A failure the audio backend reported.
#[derive(Debug, Clone)]
pub struct AudioError {
    pub kind: AudioErrorKind,
    /// The failure in the backend's own words.
    pub detail: String,
}

/// Advice shared by every "the device vanished" failure.
pub open spec fn device_unavailable_advice() -> Seq<Seq<char>> {
    seq![
        "Make sure your microphone is still plugged in and enabled in your sound settings."@,
        "Set audio.device in your profile to 'default', or to part of the name of a microphone which is always present."@,
    ]
}

/// Advice shared by every "this looks like a broken sound stack" failure.
pub open spec fn backend_advice() -> Seq<Seq<char>> {
    seq![
        "Make sure PipeWire or PulseAudio is running and that the ALSA compatibility layer is installed."@,
        "Please report this issue on GitHub if your microphone works in other applications."@,
    ]
}

/// Advice shared by every "this looks like a broken sound stack" failure.
fn backend_tips() -> (advice: Vec<&'static str>)
    ensures
        crate::errors::tips(advice@) == backend_advice(),
{
    vec![
        "Make sure PipeWire or PulseAudio is running and that the ALSA compatibility layer is installed.",
        "Please report this issue on GitHub if your microphone works in other applications.",
    ]
}

impl HumanizableError for AudioError {
    open spec fn humanized(&self) -> ErrorView {
        match self.kind {
            AudioErrorKind::DeviceNotAvailable | AudioErrorKind::StreamInvalidated =>
                wrapped_user_error(
                self.detail@,
                "The microphone we selected is no longer available."@,
                device_unavailable_advice(),
            ),
            AudioErrorKind::DeviceBusy => wrapped_user_error(
                self.detail@,
                "Another application is using the microphone we selected."@,
                seq![
                    "Close the application which is using the microphone and try again."@,
                    "Set audio.device in your profile to a different microphone."@,
                ],
            ),
            AudioErrorKind::PermissionDenied => wrapped_user_error(
                self.detail@,
                "Your system refused to let us use the microphone we selected."@,
                seq![
                    "Make sure your user is allowed to use audio devices (on Linux this usually means membership of the 'audio' group)."@,
                    "Check your desktop's privacy settings to make sure microphone access is allowed."@,
                ],
            ),
            AudioErrorKind::UnsupportedConfig => wrapped_user_error(
                self.detail@,
                "The device we selected cannot record audio in the format we asked it for."@,
                seq![
                    "Set audio.device in your profile to part of the name of a microphone rather than a speaker."@,
                    "Set audio.device to 'default' to use your system's default microphone."@,
                    "If the device is used exclusively by another application, close that application and try again."@,
                ],
            ),
            AudioErrorKind::HostUnavailable => wrapped_user_error(
                self.detail@,
                "We could not reach your system's sound server."@,
                backend_advice(),
            ),
            AudioErrorKind::Xrun => wrapped_user_error(
                self.detail@,
                "Your system could not keep up with the audio coming from your microphone, so some of it was lost."@,
                seq![
                    "Close other applications which are using a lot of CPU and try again."@,
                    "If this happens often, ask your sound server for a larger buffer (on PipeWire, raise its quantum)."@,
                ],
            ),
            _ => wrapped_system_error(
                self.detail@,
                "Your microphone's audio backend reported an unexpected error."@,
                backend_advice(),
            ),
        }
    }

    fn to_human_error(self) -> (error: Error) {
        match self.kind {
            AudioErrorKind::DeviceNotAvailable | AudioErrorKind::StreamInvalidated =>
                Error::wrap_user(
                self.detail,
                "The microphone we selected is no longer available.".to_owned(),
                vec![
                    "Make sure your microphone is still plugged in and enabled in your sound settings.",
                    "Set audio.device in your profile to 'default', or to part of the name of a microphone which is always present.",
                ],
            ),
            AudioErrorKind::DeviceBusy => Error::wrap_user(
                self.detail,
                "Another application is using the microphone we selected.".to_owned(),
                vec![
                    "Close the application which is using the microphone and try again.",
                    "Set audio.device in your profile to a different microphone.",
                ],
            ),
            AudioErrorKind::PermissionDenied => Error::wrap_user(
                self.detail,
                "Your system refused to let us use the microphone we selected.".to_owned(),
                vec![
                    "Make sure your user is allowed to use audio devices (on Linux this usually means membership of the 'audio' group).",
                    "Check your desktop's privacy settings to make sure microphone access is allowed.",
                ],
            ),
            AudioErrorKind::UnsupportedConfig => Error::wrap_user(
                self.detail,
                "The device we selected cannot record audio in the format we asked it for.".to_owned(),
                vec![
                    "Set audio.device in your profile to part of the name of a microphone rather than a speaker.",
                    "Set audio.device to 'default' to use your system's default microphone.",
                    "If the device is used exclusively by another application, close that application and try again.",
                ],
            ),
            AudioErrorKind::HostUnavailable => Error::wrap_user(
                self.detail,
                "We could not reach your system's sound server.".to_owned(),
                backend_tips(),
            ),
            AudioErrorKind::Xrun => Error::wrap_user(
                self.detail,
                "Your system could not keep up with the audio coming from your microphone, so some of it was lost.".to_owned(),
                vec![
                    "Close other applications which are using a lot of CPU and try again.",
                    "If this happens often, ask your sound server for a larger buffer (on PipeWire, raise its quantum).",
                ],
            ),
            _ => Error::wrap_system(
                self.detail,
                "Your microphone's audio backend reported an unexpected error.".to_owned(),
                backend_tips(),
            ),
        }
    }
}

} // verus!
