//! Audio capture: format conversion to the model's sample rate, framing, and
//! the choice of which device to record from and how.
//!
//! A device buffer takes this path to the recognizer:
//!
//! ```text
//! device buffer -> downmix_to_mono -> Resampler -> FrameAssembler -> channel
//! ```

use crate::errors::{system_error, Error};
use crate::recognition::AudioMsg;
use convert::{each_frame_is_mixed_into_one_sample, mono, IntoPcm16};
use device::{spec_format_rank, SampleFormat, StreamConfig};
use frames::{drops_counted, every_sample_is_framed_once, offered, FrameAssembler};
use pipeline::{processed, CapturePipeline};
use resample::seconds_of_audio_stay_seconds;
use std::sync::atomic::AtomicU64;
use std::sync::mpsc::SyncSender;
use std::sync::Arc;
use vstd::prelude::*;

pub mod binary32;
pub mod convert;
pub mod device;
pub mod errors;
pub mod frames;
pub mod pipeline;
pub mod resample;

verus! {

/// The `audio.device` value which means "whatever the system considers
/// default", as opposed to a substring of a device's name.
pub const DEFAULT_DEVICE_HINT: &'static str = "default";

/// How many frames are sent per second, each about 100 ms long.
pub const FRAMES_PER_SECOND: u32 = 10;

/// The number of samples in a frame at a rate.
pub open spec fn spec_frame_len(target_rate: u32) -> nat {
    if target_rate / FRAMES_PER_SECOND == 0 { 1 } else { (target_rate / FRAMES_PER_SECOND) as nat }
}

/// The number of samples in a frame at a rate: a tenth of a second's worth,
/// and at least one.
pub fn frame_len(target_rate: u32) -> (len: usize)
    ensures
        len == spec_frame_len(target_rate),
{
    let len: u32 = target_rate / FRAMES_PER_SECOND;
    if len < 1 {
        1
    } else {
        len as usize
    }
}

/// A sample encoding which can be converted to 16-bit mono.
#[derive(Debug, Clone, Copy, PartialEq, Eq, Structural)]
pub enum Encoding {
    /// Signed 16-bit integers.
    Signed,
    /// Single-precision floating point.
    Float,
    /// Unsigned 16-bit integers.
    Unsigned,
}

/// How a capture runs: what the device delivers, and what is made of it.
#[derive(Debug, Clone, Copy, PartialEq, Eq, Structural)]
pub struct CapturePlan {
    /// The sample rate the device is actually running at, before conversion.
    pub input_rate: u32,
    /// The number of channels the device is actually delivering, before the
    /// down-mix to mono.
    pub input_channels: u16,
    /// The encoding the device is actually delivering.
    pub encoding: Encoding,
    /// The rate of the frames.
    pub target_rate: u32,
    /// The number of samples in each frame.
    pub frame_len: usize,
}

/// The encoding of a format, where it can be converted.
pub open spec fn spec_encoding(format: SampleFormat) -> Option<Encoding> {
    match format {
        SampleFormat::I16 => Some(Encoding::Signed),
        SampleFormat::F32 => Some(Encoding::Float),
        SampleFormat::U16 => Some(Encoding::Unsigned),
        _ => None,
    }
}

/// Checks that a rate is one which can be captured at: anything but zero.
pub fn check_target_rate(target_rate: u32) -> (checked: Result<(), Error>)
    ensures
        match checked {
            Ok(()) => target_rate > 0,
            Err(error) => target_rate == 0 && error@ == system_error(
                "We were asked to capture audio at a sample rate of 0 Hz, which is not something any microphone can do."@,
                seq!["Please report this issue on GitHub so that we can investigate."@],
            ),
        },
{
    if target_rate == 0 {
        return Err(
            Error::system(
                "We were asked to capture audio at a sample rate of 0 Hz, which is not something any microphone can do.".to_owned(),
                vec!["Please report this issue on GitHub so that we can investigate."],
            ),
        );
    }
    Ok(())
}

/// Plans a capture from the configuration which was chosen for the device.
pub fn plan_capture(config: StreamConfig, target_rate: u32) -> (plan: Result<CapturePlan, Error>)
    ensures
        match plan {
            Ok(plan) => {
                &&& spec_encoding(config.format) == Some(plan.encoding)
                &&& plan.input_rate == config.rate
                &&& plan.input_channels == config.channels
                &&& plan.target_rate == target_rate
                &&& plan.frame_len == spec_frame_len(target_rate)
            },
            Err(error) => {
                &&& spec_encoding(config.format) is None
                &&& error@ == system_error(
                    "We selected an audio format ("@ + config.format.spec_name()
                        + ") which we do not know how to convert to the 16-bit mono audio the speech model needs."@,
                    seq!["Please report this issue on GitHub so that we can investigate."@],
                )
            },
        },
{
    let encoding = match config.format {
        SampleFormat::I16 => Encoding::Signed,
        SampleFormat::F32 => Encoding::Float,
        SampleFormat::U16 => Encoding::Unsigned,
        other => {
            let mut description = "We selected an audio format (".to_owned();
            description.append(other.name());
            description.append(
                ") which we do not know how to convert to the 16-bit mono audio the speech model needs.",
            );
            return Err(
                Error::system(
                    description,
                    vec!["Please report this issue on GitHub so that we can investigate."],
                ),
            );
        },
    };
    Ok(
        CapturePlan {
            input_rate: config.rate,
            input_channels: config.channels,
            encoding,
            target_rate,
            frame_len: frame_len(target_rate),
        },
    )
}

impl CapturePlan {
    /// The conversion path the plan describes, ending in a channel.
    pub fn pipeline(self, frames: SyncSender<AudioMsg>, dropped: Arc<AtomicU64>) -> (pipeline:
        CapturePipeline)
        ensures
            pipeline.wf(),
            pipeline.channels() == if self.input_channels == 0 { 1 } else { self.input_channels },
            pipeline.resampler().fresh(self.input_rate, self.target_rate),
            pipeline.assembler().spec_frame_len() == if self.frame_len == 0 {
                1
            } else {
                self.frame_len as nat
            },
            pipeline.assembler().pending() == Seq::<i16>::empty(),
            pipeline.assembler().offers() == offered(frames),
            pipeline.assembler().drops() == drops_counted(dropped),
            !pipeline.assembler().closed(),
    {
        CapturePipeline::new(
            self.input_channels,
            self.input_rate,
            self.target_rate,
            FrameAssembler::new(self.frame_len, frames, dropped),
        )
    }
}

/// What a capture does with a device buffer: while listening it goes through
/// the pipeline, and while not it is discarded at the source, together with
/// everything buffered before it.
pub fn capture<T: IntoPcm16>(pipeline: &mut CapturePipeline, listening: bool, interleaved: &[T])
    requires
        old(pipeline).wf(),
    ensures
        final(pipeline).wf(),
        listening ==> processed(*old(pipeline), *final(pipeline), interleaved@),
        !listening ==> {
            &&& final(pipeline).channels() == old(pipeline).channels()
            &&& final(pipeline).resampler().restarted(old(pipeline).resampler())
            &&& final(pipeline).assembler().spec_frame_len() == old(
                pipeline,
            ).assembler().spec_frame_len()
            &&& final(pipeline).assembler().pending() == Seq::<i16>::empty()
            &&& final(pipeline).assembler().offers() == old(pipeline).assembler().offers()
            &&& final(pipeline).assembler().drops() == old(pipeline).assembler().drops()
            &&& final(pipeline).assembler().closed() == old(pipeline).assembler().closed()
        },
{
    if !listening {
        pipeline.discard();
        return ;
    }
    pipeline.push(interleaved);
}

/// A frame is a tenth of a second long, rounded down, and never empty.
pub proof fn a_frame_is_a_tenth_of_a_second(target_rate: u32)
    ensures
        spec_frame_len(target_rate) >= 1,
        target_rate >= 10 ==> spec_frame_len(target_rate) * 10 <= target_rate
            < spec_frame_len(target_rate) * 10 + 10,
        target_rate < 10 ==> spec_frame_len(target_rate) == 1,
{
}

/// Exactly the encodings which can be converted are captured, each as what it
/// is.
pub proof fn an_encoding_is_taken_for_what_it_is(format: SampleFormat)
    ensures
        spec_encoding(format) == Some(Encoding::Signed) <==> format == SampleFormat::I16,
        spec_encoding(format) == Some(Encoding::Unsigned) <==> format == SampleFormat::U16,
        spec_encoding(format) == Some(Encoding::Float) <==> format == SampleFormat::F32,
        spec_encoding(format) is Some <==> spec_format_rank(format) is Some,
{
}

/// What a microphone delivers reaches the recognizer at the recognizer's rate:
/// some seconds of audio, in whatever number of channels, at a rate which is not
/// raised, come to exactly as many seconds of mono samples in frames, but for
/// what is not a whole frame yet.
pub proof fn seconds_reach_the_recognizer<T: IntoPcm16>(
    start: CapturePipeline,
    end: CapturePipeline,
    interleaved: Seq<T>,
    input_rate: u32,
    target_rate: u32,
    seconds: nat,
)
    requires
        start.wf(),
        start.resampler().fresh(input_rate, target_rate),
        start.assembler().pending() == Seq::<i16>::empty(),
        0 < target_rate <= input_rate,
        interleaved.len() == seconds * input_rate * start.channels(),
        processed(start, end, interleaved),
        !end.assembler().closed(),
    ensures
        ({
            let frames = end.assembler().offers().len() - start.assembler().offers().len();
            let frame_len = start.assembler().spec_frame_len();
            let pending = end.assembler().pending().len();
            &&& frames * frame_len + pending == seconds * target_rate
            &&& pending < frame_len
        }),
{
    let channels = start.channels();
    let mixed = mono(interleaved, channels);
    each_frame_is_mixed_into_one_sample(interleaved, channels, 0);
    let one = seconds * input_rate;
    assert(mixed.len() == one) by (nonlinear_arith)
        requires
            mixed.len() * channels <= one * channels,
            one * channels < (mixed.len() + 1) * channels,
            channels > 0,
    ;
    seconds_of_audio_stay_seconds(start.resampler(), input_rate, target_rate, mixed, seconds);
    every_sample_is_framed_once(
        start.assembler(),
        end.assembler(),
        start.resampler().produced(mixed),
    );
}

} // verus!
