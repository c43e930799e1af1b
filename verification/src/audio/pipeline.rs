//! The whole conversion path, assembled: interleaved device samples in, frames
//! of mono PCM at the model's rate out.

use super::convert::{downmix_to_mono, downmixing_ignores_buffering, mono, IntoPcm16};
use super::frames::{framing_ignores_chunking, FrameAssembler};
use super::resample::{
    a_reset_resampler_is_a_fresh_one, resampling_ignores_chunking, Resampler,
};
use vstd::prelude::*;

verus! {

/// Converts one device buffer at a time into recognizer frames.
///
/// Both scratch buffers are reused from buffer to buffer.
pub struct CapturePipeline {
    channels: u16,
    mono: Vec<i16>,
    resampled: Vec<i16>,
    resampler: Resampler,
    assembler: FrameAssembler,
}

impl CapturePipeline {
    /// How many channels the device interleaves.
    pub closed spec fn channels(&self) -> u16 {
        self.channels
    }

    /// The resampling stage.
    pub closed spec fn resampler(&self) -> Resampler {
        self.resampler
    }

    /// The framing stage.
    pub closed spec fn assembler(&self) -> FrameAssembler {
        self.assembler
    }

    /// Each stage's own invariant.
    pub open spec fn wf(&self) -> bool {
        &&& self.channels() > 0
        &&& self.resampler().wf()
        &&& self.assembler().wf()
    }

    /// Builds a pipeline for a device running at `input_rate` with `channels`
    /// interleaved channels, producing frames at `target_rate`. No channel at
    /// all counts as one.
    pub fn new(
        channels: u16,
        input_rate: u32,
        target_rate: u32,
        assembler: FrameAssembler,
    ) -> (pipeline: Self)
        requires
            assembler.wf(),
        ensures
            pipeline.wf(),
            pipeline.channels() == if channels == 0 { 1 } else { channels },
            pipeline.resampler().fresh(input_rate, target_rate),
            pipeline.assembler() == assembler,
    {
        Self {
            channels: if channels == 0 { 1 } else { channels },
            mono: Vec::new(),
            resampled: Vec::new(),
            resampler: Resampler::new(input_rate, target_rate),
            assembler,
        }
    }

    /// Processes one interleaved device buffer: it is mixed down, resampled
    /// and framed.
    pub fn push<T: IntoPcm16>(&mut self, interleaved: &[T])
        requires
            old(self).wf(),
        ensures
            final(self).wf(),
            processed(*old(self), *final(self), interleaved@),
    {
        self.mono.clear();
        downmix_to_mono(interleaved, self.channels, &mut self.mono);
        self.resampled.clear();
        self.resampler.process(&self.mono, &mut self.resampled);
        let ghost mixed = mono(interleaved@, old(self).channels());
        assert(self.mono@ == mixed);
        assert(self.resampled@ == old(self).resampler().produced(mixed));
        self.assembler.push(&self.resampled);
    }

    /// Throws away every scrap of buffered state. Called while listening is
    /// off so that audio from before a mute can never be stitched onto audio
    /// from after it.
    pub fn discard(&mut self)
        requires
            old(self).wf(),
        ensures
            final(self).wf(),
            final(self).channels() == old(self).channels(),
            final(self).resampler().restarted(old(self).resampler()),
            final(self).assembler().spec_frame_len() == old(self).assembler().spec_frame_len(),
            final(self).assembler().pending() == Seq::<i16>::empty(),
            final(self).assembler().offers() == old(self).assembler().offers(),
            final(self).assembler().drops() == old(self).assembler().drops(),
            final(self).assembler().closed() == old(self).assembler().closed(),
    {
        self.mono.clear();
        self.resampled.clear();
        self.resampler.reset();
        self.assembler.reset();
    }

    /// Whether the recognizer end of the channel has gone away.
    pub fn is_closed(&self) -> (closed: bool)
        ensures
            closed == self.assembler().closed(),
    {
        self.assembler.is_closed()
    }
}

/// Whether processing one buffer takes a pipeline from one state to another.
pub open spec fn processed<T: IntoPcm16>(
    start: CapturePipeline,
    end: CapturePipeline,
    interleaved: Seq<T>,
) -> bool {
    let mixed = mono(interleaved, start.channels());
    &&& end.channels() == start.channels()
    &&& end.resampler().after(start.resampler(), mixed)
    &&& end.assembler().pushed(start.assembler(), start.resampler().produced(mixed))
}

/// How the device chops a recording into buffers plays no part in the frames
/// which come out: two buffers, the first of whole frames, do what one buffer
/// of both would do.
pub proof fn capture_ignores_buffering<T: IntoPcm16>(
    start: CapturePipeline,
    middle: CapturePipeline,
    end: CapturePipeline,
    first: Seq<T>,
    second: Seq<T>,
)
    requires
        start.wf(),
        first.len() % start.channels() as nat == 0,
        processed(start, middle, first),
        processed(middle, end, second),
    ensures
        processed(start, end, first + second),
{
    let early = mono(first, start.channels());
    let late = mono(second, start.channels());
    downmixing_ignores_buffering(first, second, start.channels());
    resampling_ignores_chunking(start.resampler(), middle.resampler(), early, late);
    framing_ignores_chunking(
        start.assembler(),
        middle.assembler(),
        end.assembler(),
        start.resampler().produced(early),
        middle.resampler().produced(late),
    );
    match start.resampler() {
        Resampler::Passthrough => {},
        Resampler::Decimate(decimator) => {
            assert(decimator.heard() + early + late == decimator.heard() + (early + late));
        },
        Resampler::Linear(linear) => {
            assert(linear.heard() + early + late == linear.heard() + (early + late));
        },
    }
}

/// Nothing heard before a discard reaches a frame after it: from a discarded
/// pipeline on, the same buffer is resampled as by a pipeline which has heard
/// nothing, and framed from an empty frame on.
pub proof fn nothing_survives_a_discard(
    fresh: CapturePipeline,
    used: CapturePipeline,
    discarded: CapturePipeline,
    heard: Seq<i16>,
    mixed: Seq<i16>,
    input_rate: u32,
    target_rate: u32,
)
    requires
        fresh.resampler().fresh(input_rate, target_rate),
        used.resampler().after(fresh.resampler(), heard),
        discarded.resampler().restarted(used.resampler()),
        discarded.assembler().pending() == Seq::<i16>::empty(),
    ensures
        discarded.resampler().produced(mixed) == fresh.resampler().produced(mixed),
        discarded.assembler().pending() + discarded.resampler().produced(mixed)
            == fresh.resampler().produced(mixed),
{
    a_reset_resampler_is_a_fresh_one(
        fresh.resampler(),
        used.resampler(),
        discarded.resampler(),
        input_rate,
        target_rate,
        heard,
        mixed,
    );
    assert(Seq::<i16>::empty() + fresh.resampler().produced(mixed) == fresh.resampler().produced(
        mixed,
    ));
}

} // verus!
