//! Sample-format conversion and channel down-mixing.

use super::binary32::{pcm16_of, Binary32};
use vstd::arithmetic::div_mod::*;
use vstd::arithmetic::mul::*;
use vstd::prelude::*;

verus! {

/// A sample format a device may hand over which can be turned into the 16-bit
/// signed PCM the recognizer expects.
///
/// Every sample ends up captured by a realtime stream callback, hence the
/// bounds.
pub trait IntoPcm16: Copy + Send + 'static {
    /// The signed 16-bit sample this sample stands for.
    spec fn pcm16(self) -> i16;

    /// Converts this sample into signed 16-bit PCM.
    fn into_pcm16(self) -> (sample: i16)
        ensures
            sample == self.pcm16(),
    ;
}

impl IntoPcm16 for i16 {
    open spec fn pcm16(self) -> i16 {
        self
    }

    fn into_pcm16(self) -> (sample: i16) {
        self
    }
}

impl IntoPcm16 for u16 {
    /// Unsigned 16-bit PCM has its origin at 32768, so the conversion is a
    /// re-centring rather than a rescale.
    open spec fn pcm16(self) -> i16 {
        (self - 32768) as i16
    }

    fn into_pcm16(self) -> (sample: i16) {
        (self as i32 - 32768) as i16
    }
}

impl IntoPcm16 for Binary32 {
    /// Floating point PCM is nominally `-1.0..=1.0`; anything outside that is
    /// clamped rather than allowed to wrap into a loud click.
    open spec fn pcm16(self) -> i16 {
        pcm16_of(self) as i16
    }

    fn into_pcm16(self) -> (sample: i16) {
        self.to_pcm16()
    }
}

/// The sum of some samples.
pub open spec fn sum(samples: Seq<i16>) -> int
    decreases samples.len(),
{
    if samples.len() == 0 {
        0
    } else {
        sum(samples.drop_last()) + samples.last()
    }
}

/// The quotient of a division which rounds towards zero.
pub open spec fn truncated(n: int, d: nat) -> int {
    if n < 0 {
        -((-n) / d as int)
    } else {
        n / d as int
    }
}

/// The average of some samples, rounded towards zero.
pub open spec fn average(samples: Seq<i16>) -> int {
    truncated(sum(samples), samples.len())
}

/// Every sample as signed 16-bit PCM.
pub open spec fn pcm<T: IntoPcm16>(samples: Seq<T>) -> Seq<i16> {
    samples.map_values(|sample: T| sample.pcm16())
}

/// How many samples a frame of `channels` interleaved channels takes: no channel
/// at all counts as one.
pub open spec fn frame_width(channels: u16) -> nat {
    if channels == 0 {
        1
    } else {
        channels as nat
    }
}

/// Interleaved samples as mono: the average of each whole frame of `channels`
/// channels. A trailing partial frame is ignored.
pub open spec fn mono<T: IntoPcm16>(interleaved: Seq<T>, channels: u16) -> Seq<i16> {
    let width = frame_width(channels);
    Seq::new(
        interleaved.len() / width,
        |frame: int| average(pcm(interleaved).subrange(frame * width, frame * width + width)) as i16,
    )
}

/// A sum of samples is no larger than its number of samples allows.
pub proof fn lemma_sum_bounds(samples: Seq<i16>)
    ensures
        -32768 * samples.len() <= sum(samples) <= 32767 * samples.len(),
    decreases samples.len(),
{
    if samples.len() > 0 {
        lemma_sum_bounds(samples.drop_last());
    }
}

/// An average of samples is a sample.
pub proof fn lemma_average_bounds(samples: Seq<i16>)
    requires
        samples.len() > 0,
    ensures
        -32768 <= average(samples) <= 32767,
{
    lemma_sum_bounds(samples);
    let n = sum(samples);
    let d = samples.len() as int;
    if n < 0 {
        assert((-n) / d <= 32768) by (nonlinear_arith)
            requires
                0 < d,
                0 <= -n <= 32768 * d,
        ;
        assert((-n) / d >= 0) by (nonlinear_arith)
            requires
                0 < d,
                0 <= -n,
        ;
    } else {
        assert(0 <= n / d <= 32767) by (nonlinear_arith)
            requires
                0 < d,
                0 <= n <= 32767 * d,
        ;
    }
}

/// `n / d` rounded towards zero.
pub(crate) fn divide(n: i64, d: u32) -> (quotient: i64)
    requires
        d > 0,
        -0x1000_0000_0000_0000 <= n <= 0x1000_0000_0000_0000,
    ensures
        quotient == truncated(n as int, d as nat),
{
    if n < 0 {
        let magnitude: u64 = (-n) as u64;
        let quotient: u64 = magnitude / d as u64;
        assert(quotient <= magnitude) by (nonlinear_arith)
            requires
                quotient == magnitude / d as u64,
                d > 0,
        ;
        -(quotient as i64)
    } else {
        let quotient: u64 = n as u64 / d as u64;
        assert(quotient <= n) by (nonlinear_arith)
            requires
                quotient == n as u64 / d as u64,
                d > 0,
                n >= 0,
        ;
        quotient as i64
    }
}

/// Converts an interleaved multi-channel buffer into mono 16-bit PCM by
/// averaging each frame's channels, appending the result to `out`.
///
/// A trailing partial frame is ignored.
pub fn downmix_to_mono<T: IntoPcm16>(interleaved: &[T], channels: u16, out: &mut Vec<i16>)
    ensures
        final(out)@ == old(out)@ + mono(interleaved@, channels),
{
    let width: usize = if channels == 0 {
        1
    } else {
        channels as usize
    };
    let frames: usize = interleaved.len() / width;
    let ghost before = out@;
    let ghost all = mono(interleaved@, channels);
    assert(frames * width <= interleaved.len()) by (nonlinear_arith)
        requires
            frames == interleaved.len() / width,
            width > 0,
    ;
    assert(before + all.take(0) == before);
    for frame in 0..frames
        invariant
            0 < width <= 65535,
            width == frame_width(channels),
            frames == interleaved.len() / width,
            frames * width <= interleaved.len(),
            all == mono(interleaved@, channels),
            out@ == before + all.take(frame as int),
    {
        let mut total: i32 = 0;
        assert(frame * width + width <= frames * width) by (nonlinear_arith)
            requires
                frame + 1 <= frames,
        ;
        let start: usize = frame * width;
        let ghost group = pcm(interleaved@).subrange(start as int, start + width);
        assert(group.take(0) == Seq::<i16>::empty());
        for channel in 0..width
            invariant
                0 < width <= 65535,
                start + width <= interleaved.len(),
                group == pcm(interleaved@).subrange(start as int, start + width),
                total == sum(group.take(channel as int)),
                -32768 * channel <= total <= 32767 * channel,
        {
            assert(group.take(channel + 1).drop_last() == group.take(channel as int));
            total = total + interleaved[start + channel].into_pcm16() as i32;
        }
        assert(group.take(width as int) == group);
        proof {
            lemma_average_bounds(group);
        }
        let mixed: i64 = divide(total as i64, width as u32);
        out.push(mixed as i16);
        assert(all.take(frame + 1) == all.take(frame as int).push(all[frame as int]));
        assert(all[frame as int] == average(group) as i16);
    }
    assert(all.take(frames as int) == all);
}

/// Mono samples are taken over one for one.
pub proof fn mono_input_is_only_converted<T: IntoPcm16>(samples: Seq<T>)
    ensures
        mono(samples, 1) == pcm(samples),
        mono(samples, 0) == pcm(samples),
{
    let width: nat = 1;
    assert(samples.len() / width == samples.len());
    assert(mono(samples, 1).len() == samples.len());
    assert forall|i: int| 0 <= i < samples.len() implies #[trigger] mono(samples, 1)[i] == pcm(
        samples,
    )[i] by {
        assert(i * width == i);
        let one = pcm(samples).subrange(i * width, i * width + width);
        assert(one.drop_last() == Seq::<i16>::empty());
        assert(sum(one.drop_last()) == 0);
        assert(sum(one) == pcm(samples)[i]);
        assert(average(one) == pcm(samples)[i]);
    }
    assert(mono(samples, 1) == pcm(samples));
    assert(mono(samples, 0) == mono(samples, 1));
}

/// Buffers of whole frames can be mixed down one by one.
pub proof fn downmixing_ignores_buffering<T: IntoPcm16>(first: Seq<T>, second: Seq<T>, channels: u16)
    requires
        first.len() % frame_width(channels) == 0,
    ensures
        mono(first + second, channels) == mono(first, channels) + mono(second, channels),
{
    let width = frame_width(channels) as int;
    let early = first.len() as int / width;
    let late = second.len() as int / width;
    lemma_fundamental_div_mod(first.len() as int, width);
    lemma_fundamental_div_mod(second.len() as int, width);
    lemma_mul_is_commutative(width, early);
    lemma_mul_is_commutative(width, late);
    lemma_mul_is_distributive_add_other_way(width, early, late);
    let all = first + second;
    lemma_fundamental_div_mod_converse(
        all.len() as int,
        width,
        early + late,
        second.len() as int % width,
    );
    let mixed = mono(first, channels) + mono(second, channels);
    assert(mono(all, channels).len() == mixed.len());
    assert forall|i: int| 0 <= i < mixed.len() implies #[trigger] mono(all, channels)[i]
        == mixed[i] by {
        lemma_mul_is_distributive_add_other_way(width, i, 1);
        if i < early {
            lemma_mul_inequality(i + 1, early, width);
            lemma_mul_nonnegative(i, width);
            assert(pcm(all).subrange(i * width, i * width + width) == pcm(first).subrange(
                i * width,
                i * width + width,
            ));
        } else {
            let j = i - early;
            lemma_mul_inequality(j + 1, late, width);
            lemma_mul_is_distributive_add_other_way(width, early, j);
            lemma_mul_is_distributive_add_other_way(width, j, 1);
            lemma_mul_nonnegative(j, width);
            assert(pcm(all).subrange(i * width, i * width + width) == pcm(second).subrange(
                j * width,
                j * width + width,
            ));
        }
    }
    assert(mono(all, channels) =~= mixed);
}

/// A sum adds up: that of two runs of samples is the sum of theirs, and that of
/// one sample is the sample.
pub proof fn sums_add_up(first: Seq<i16>, second: Seq<i16>, sample: i16)
    ensures
        sum(first + second) == sum(first) + sum(second),
        sum(seq![sample]) == sample,
    decreases second.len(),
{
    assert(seq![sample].drop_last() == Seq::<i16>::empty());
    assert(sum(seq![sample].drop_last()) == 0);
    if second.len() == 0 {
        assert(first + second == first);
    } else {
        sums_add_up(first, second.drop_last(), sample);
        assert((first + second).drop_last() == first + second.drop_last());
    }
}

/// An average is less than one away from the exact value, on the side of zero.
pub proof fn averages_are_close(samples: Seq<i16>)
    requires
        samples.len() > 0,
    ensures
        ({
            let total = sum(samples);
            let spread = average(samples) * samples.len();
            &&& -samples.len() < total - spread < samples.len()
            &&& total >= 0 ==> 0 <= spread <= total
            &&& total <= 0 ==> total <= spread <= 0
        }),
{
    let n = sum(samples);
    let d = samples.len() as int;
    let size = if n < 0 {
        -n
    } else {
        n
    };
    lemma_fundamental_div_mod(size, d);
    lemma_mod_bound(size, d);
    lemma_mul_is_commutative(d, size / d);
    lemma_div_pos_is_pos(size, d);
    lemma_mul_nonnegative(size / d, d);
    lemma_mul_unary_negation(size / d, d);
}

/// A sum lies within the bounds of its samples, as often as there are samples.
proof fn lemma_sum_within(samples: Seq<i16>, low: int, high: int)
    requires
        forall|i: int| 0 <= i < samples.len() ==> low <= #[trigger] samples[i] <= high,
    ensures
        low * samples.len() <= sum(samples) <= high * samples.len(),
    decreases samples.len(),
{
    if samples.len() > 0 {
        let less = samples.drop_last();
        assert forall|i: int| 0 <= i < less.len() implies low <= #[trigger] less[i] <= high by {
            assert(less[i] == samples[i]);
        }
        lemma_sum_within(less, low, high);
        lemma_mul_is_distributive_add(low, less.len() as int, 1);
        lemma_mul_is_distributive_add(high, less.len() as int, 1);
        assert(low <= samples.last() <= high);
    } else {
        lemma_mul_basics(low);
        lemma_mul_basics(high);
    }
}

/// An average lies within the bounds of its samples.
pub proof fn averages_stay_within_bounds(samples: Seq<i16>, low: int, high: int)
    requires
        samples.len() > 0,
        forall|i: int| 0 <= i < samples.len() ==> low <= #[trigger] samples[i] <= high,
    ensures
        low <= average(samples) <= high,
{
    lemma_sum_within(samples, low, high);
    averages_are_close(samples);
    let d = samples.len() as int;
    let total = sum(samples);
    let mean = average(samples);
    assert(low <= mean <= high) by (nonlinear_arith)
        requires
            d > 0,
            low * d <= total <= high * d,
            -d < total - mean * d < d,
            total >= 0 ==> 0 <= mean * d <= total,
            total <= 0 ==> total <= mean * d <= 0,
    ;
}

/// Mixing down takes each whole frame to one sample: the average of its
/// channels, less than one away from the exact value on the side of zero.
pub proof fn each_frame_is_mixed_into_one_sample<T: IntoPcm16>(
    interleaved: Seq<T>,
    channels: u16,
    frame: int,
)
    requires
        channels > 0,
    ensures
        ({
            let mixed = mono(interleaved, channels);
            &&& mixed.len() * channels <= interleaved.len() < (mixed.len() + 1) * channels
            &&& 0 <= frame < mixed.len() ==> {
                let start = frame * channels;
                let total = sum(
                    Seq::new(channels as nat, |c: int| interleaved[start + c].pcm16()),
                );
                &&& 0 <= start
                &&& start + channels <= interleaved.len()
                &&& -channels < total - mixed[frame] * channels < channels
                &&& total >= 0 ==> 0 <= mixed[frame] * channels <= total
                &&& total <= 0 ==> total <= mixed[frame] * channels <= 0
            }
        }),
{
    let width = channels as int;
    let mixed = mono(interleaved, channels);
    let count = interleaved.len() as int / width;
    lemma_fundamental_div_mod(interleaved.len() as int, width);
    lemma_mod_bound(interleaved.len() as int, width);
    lemma_mul_is_commutative(width, count);
    lemma_mul_is_distributive_add_other_way(width, count, 1);
    if 0 <= frame < mixed.len() {
        let start = frame * width;
        lemma_mul_inequality(frame + 1, count, width);
        lemma_mul_is_distributive_add_other_way(width, frame, 1);
        lemma_mul_nonnegative(frame, width);
        let group = pcm(interleaved).subrange(start, start + width);
        assert(group =~= Seq::new(channels as nat, |c: int| interleaved[start + c].pcm16()));
        lemma_average_bounds(group);
        averages_are_close(group);
    }
}

/// Unsigned samples are moved, not rescaled: the distance between two of them
/// stays what it was, and the middle of their range is silence.
pub proof fn unsigned_samples_are_recentred(a: u16, b: u16)
    ensures
        a.pcm16() - b.pcm16() == a - b,
        32768u16.pcm16() == 0,
{
}

/// Signed samples are taken over as they are.
pub proof fn signed_samples_are_unchanged(sample: i16)
    ensures
        sample.pcm16() == sample,
{
}

} // verus!
