//! Sample-rate conversion from whatever the device gives us to the model's
//! rate.
//!
//! Two strategies, picked once when the stream is built:
//!
//! * an exact integer ratio is handled by averaging decimation: every group of
//!   `factor` input samples is averaged into one output sample;
//! * anything else uses linear interpolation over an exact rational position.
//!
//! Both carry their state from chunk to chunk, and the stream they produce is
//! stated over everything heard so far, so how the input happens to be chopped
//! up plays no part in it.

use super::binary32::{
    interpolate, interpolated, interpolation_is_close, interpolation_rises,
    interpolation_stays_between,
};
use super::convert::{
    average, averages_are_close, averages_stay_within_bounds, divide, lemma_average_bounds,
    lemma_sum_bounds, sum,
};
use vstd::arithmetic::div_mod::*;
use vstd::arithmetic::mul::*;
use vstd::prelude::*;

verus! {

/// The averages of a stream's whole groups of `factor` samples.
pub open spec fn decimated(stream: Seq<i16>, factor: nat) -> Seq<i16> {
    Seq::new(
        stream.len() / factor,
        |k: int| average(stream.subrange(k * factor, k * factor + factor)) as i16,
    )
}

/// How many output samples a stream of `len` samples determines: those whose
/// source position is no later than the last sample.
pub open spec fn output_count(len: nat, input_rate: nat, output_rate: nat) -> nat {
    if len == 0 {
        0
    } else {
        ((len - 1) * output_rate) as nat / input_rate + 1
    }
}

/// Output sample `k`: the stream at position `k * input_rate / output_rate`,
/// interpolated where that falls between two samples.
pub open spec fn linear_sample(
    stream: Seq<i16>,
    k: nat,
    input_rate: nat,
    output_rate: nat,
) -> int {
    let position = ((k * input_rate) / output_rate) as int;
    let fraction = (k * input_rate) % output_rate;
    if fraction == 0 {
        stream[position] as int
    } else {
        interpolated(stream[position] as int, stream[position + 1] as int, fraction, output_rate)
    }
}

/// A stream resampled by linear interpolation.
pub open spec fn linearly_resampled(stream: Seq<i16>, input_rate: nat, output_rate: nat) -> Seq<
    i16,
> {
    Seq::new(
        output_count(stream.len(), input_rate, output_rate),
        |k: int| linear_sample(stream, k as nat, input_rate, output_rate) as i16,
    )
}

/// Averaging decimation by an exact integer factor.
pub struct Decimator {
    factor: u32,
    accumulator: i64,
    count: u32,
    heard: Ghost<Seq<i16>>,
}

impl Decimator {
    /// How many input samples make one output sample.
    pub closed spec fn factor(&self) -> nat {
        self.factor as nat
    }

    /// Every sample processed since the start, or since the last reset.
    pub closed spec fn heard(&self) -> Seq<i16> {
        self.heard@
    }

    /// The running average is that of the group the stream has begun.
    pub closed spec fn wf(&self) -> bool {
        &&& self.factor > 0
        &&& self.count == self.heard@.len() % self.factor as nat
        &&& self.accumulator == sum(self.heard@.skip(self.heard@.len() - self.count))
    }

    /// What processing some more input appends to the output.
    pub open spec fn produced(&self, input: Seq<i16>) -> Seq<i16> {
        decimated(self.heard() + input, self.factor()).skip(
            decimated(self.heard(), self.factor()).len() as int,
        )
    }

    /// Creates a decimator which averages every `factor` input samples into
    /// one output sample. A factor of zero is treated as one.
    pub fn new(factor: u32) -> (decimator: Self)
        ensures
            decimator.wf(),
            decimator.factor() == if factor == 0 { 1 } else { factor as nat },
            decimator.heard() == Seq::<i16>::empty(),
    {
        let ghost width: int = if factor == 0 { 1 } else { factor as int };
        proof {
            lemma_small_mod(0, width as nat);
            assert(Seq::<i16>::empty().skip(0) == Seq::<i16>::empty());
        }
        Self {
            factor: if factor == 0 { 1 } else { factor },
            accumulator: 0,
            count: 0,
            heard: Ghost(Seq::empty()),
        }
    }

    /// Decimates `input`, appending the result to `out`.
    pub fn process(&mut self, input: &[i16], out: &mut Vec<i16>)
        requires
            old(self).wf(),
        ensures
            final(self).wf(),
            final(self).factor() == old(self).factor(),
            final(self).heard() == old(self).heard() + input@,
            final(out)@ == old(out)@ + old(self).produced(input@),
    {
        let ghost before = out@;
        let ghost started = decimated(self.heard@, self.factor as nat).len() as int;
        let ghost earlier = self.heard@;
        assert(earlier + input@.take(0) == earlier);
        assert(decimated(earlier, self.factor as nat).skip(started) == Seq::<i16>::empty());
        for i in 0..input.len()
            invariant
                self.wf(),
                self.factor() == old(self).factor(),
                earlier == old(self).heard(),
                self.heard() == earlier + input@.take(i as int),
                started == decimated(earlier, self.factor()).len(),
                started <= decimated(self.heard(), self.factor()).len(),
                out@ == before + decimated(self.heard(), self.factor()).skip(started),
        {
            let ghost was = self.heard@;
            self.accept(input[i], out);
            assert(input@.take(i + 1) == input@.take(i as int).push(input@[i as int]));
            assert(self.heard@ == earlier + input@.take(i + 1));
            proof {
                let one = Seq::<i16>::empty().push(input@[i as int]);
                assert(was + one =~= was.push(input@[i as int]));
                lemma_decimated_prefix(was, one, self.factor as nat);
                let all = decimated(self.heard@, self.factor as nat);
                let less = decimated(was, self.factor as nat);
                assert(all.skip(started) == less.skip(started) + all.skip(less.len() as int));
            }
        }
        assert(input@.take(input.len() as int) == input@);
    }

    /// Takes in one sample, appending an average once a group is whole.
    fn accept(&mut self, sample: i16, out: &mut Vec<i16>)
        requires
            old(self).wf(),
        ensures
            final(self).wf(),
            final(self).factor() == old(self).factor(),
            final(self).heard() == old(self).heard().push(sample),
            final(out)@ == old(out)@ + decimated(
                old(self).heard().push(sample),
                old(self).factor(),
            ).skip(decimated(old(self).heard(), old(self).factor()).len() as int),
    {
        let ghost was = self.heard@;
        let ghost now = was.push(sample);
        let ghost f = self.factor as int;
        let ghost open = was.skip(was.len() - self.count);
        proof {
            lemma_mod_bound(was.len() as int, f);
            lemma_fundamental_div_mod(was.len() as int, f);
            lemma_sum_bounds(open);
            assert(open.push(sample).drop_last() == open);
            lemma_sum_bounds(open.push(sample));
            assert(now.skip(now.len() - (self.count + 1)) == open.push(sample));
        }
        self.accumulator = self.accumulator + sample as i64;
        self.count = self.count + 1;
        self.heard = Ghost(now);
        let ghost groups = was.len() as int / f;
        if self.count == self.factor {
            proof {
                let group = open.push(sample);
                assert(now.len() == f * groups + f);
                lemma_mul_is_distributive_add(f, groups, 1);
                lemma_mul_is_commutative(f, groups);
                lemma_mul_is_commutative(f, groups + 1);
                lemma_div_multiples_vanish(groups + 1, f);
                lemma_mod_multiples_basic(groups + 1, f);
                assert(group == now.subrange(groups * f, groups * f + f));
                lemma_average_bounds(group);
                let all = decimated(now, f as nat);
                assert(all.len() == groups + 1);
                assert(all.skip(groups) =~= seq![average(group) as i16]);
            }
            out.push(divide(self.accumulator, self.factor) as i16);
            self.accumulator = 0;
            self.count = 0;
            assert(now.skip(now.len() as int) == Seq::<i16>::empty());
        } else {
            proof {
                lemma_fundamental_div_mod_converse(
                    now.len() as int,
                    f,
                    groups,
                    self.count as int,
                );
                let all = decimated(now, f as nat);
                assert(all.len() == groups);
                assert(all.skip(groups) =~= Seq::<i16>::empty());
            }
        }
    }

    /// Discards the partially accumulated group.
    pub fn reset(&mut self)
        requires
            old(self).wf(),
        ensures
            final(self).wf(),
            final(self).factor() == old(self).factor(),
            final(self).heard() == Seq::<i16>::empty(),
    {
        self.accumulator = 0;
        self.count = 0;
        self.heard = Ghost(Seq::empty());
        proof {
            lemma_small_mod(0, self.factor as nat);
        }
        assert(Seq::<i16>::empty().skip(0) == Seq::<i16>::empty());
    }
}

/// More input never changes what a decimated stream began with.
proof fn lemma_decimated_prefix(stream: Seq<i16>, more: Seq<i16>, factor: nat)
    requires
        factor > 0,
    ensures
        decimated(stream, factor).len() <= decimated(stream + more, factor).len(),
        decimated(stream + more, factor).take(decimated(stream, factor).len() as int) == decimated(
            stream,
            factor,
        ),
{
    let f = factor as int;
    let count = stream.len() as int / f;
    lemma_div_is_ordered(stream.len() as int, (stream + more).len() as int, f);
    lemma_fundamental_div_mod(stream.len() as int, f);
    lemma_mul_is_commutative(f, count);
    assert forall|k: int| 0 <= k < count implies decimated(stream + more, factor)[k] == decimated(
        stream,
        factor,
    )[k] by {
        lemma_mul_inequality(k + 1, count, f);
        lemma_mul_is_distributive_add_other_way(f, k, 1);
        lemma_mul_nonnegative(k, f);
        assert((stream + more).subrange(k * f, k * f + f) == stream.subrange(k * f, k * f + f));
    }
    assert(decimated(stream + more, factor).take(count) =~= decimated(stream, factor));
}

/// A decimated stream does not depend on how it was chopped into chunks: two
/// chunks produce what their concatenation produces.
pub proof fn decimation_ignores_chunking(
    heard: Seq<i16>,
    first: Seq<i16>,
    second: Seq<i16>,
    factor: nat,
)
    requires
        factor > 0,
    ensures
        ({
            let produced = |heard: Seq<i16>, input: Seq<i16>|
                decimated(heard + input, factor).skip(decimated(heard, factor).len() as int);
            produced(heard, first) + produced(heard + first, second) == produced(
                heard,
                first + second,
            )
        }),
{
    lemma_decimated_prefix(heard, first, factor);
    lemma_decimated_prefix(heard + first, second, factor);
    assert((heard + first) + second == heard + (first + second));
    let start = decimated(heard, factor).len() as int;
    let middle = decimated(heard + first, factor);
    let all = decimated(heard + (first + second), factor);
    assert(all.take(middle.len() as int) == middle);
    assert(middle.skip(start) + all.skip(middle.len() as int) =~= all.skip(start));
}

/// Linear interpolation over an exact rational position.
///
/// The position of output sample `k` is `k * input_rate / output_rate` input
/// samples from the start of the stream. That position is tracked as an
/// integer part plus a fraction with denominator `output_rate`, so it never
/// drifts and never depends on how the input was chunked.
pub struct LinearResampler {
    output_rate: u32,
    /// Integer part of the per-output-sample step.
    step_whole: u32,
    /// Fractional part of the step, over `output_rate`.
    step_fraction: u32,
    /// Integer part of the next output's source position, relative to the
    /// start of the chunk currently being processed. Always `>= -1`.
    position: i128,
    /// Fractional part of that position, over `output_rate`.
    fraction: u32,
    /// The input sample immediately before the current chunk (source index
    /// `-1`), so an output landing between two chunks interpolates correctly.
    previous: i16,
    heard: Ghost<Seq<i16>>,
}

/// Whether a position is that of output sample `k`, once `passed` samples have
/// gone by.
spec fn is_position(
    k: nat,
    position: int,
    fraction: int,
    passed: nat,
    input_rate: nat,
    output_rate: nat,
) -> bool {
    (position + passed) * output_rate + fraction == k * input_rate
}

impl LinearResampler {
    /// The rate of the stream which comes in.
    pub closed spec fn input_rate(&self) -> nat {
        (self.step_whole * self.output_rate + self.step_fraction) as nat
    }

    /// The rate of the stream which goes out.
    pub closed spec fn output_rate(&self) -> nat {
        self.output_rate as nat
    }

    /// Every sample processed since the start, or since the last reset.
    pub closed spec fn heard(&self) -> Seq<i16> {
        self.heard@
    }

    /// The position is that of the first output which has not been produced.
    pub closed spec fn wf(&self) -> bool {
        &&& self.output_rate > 0
        &&& self.input_rate() > 0
        &&& self.step_fraction < self.output_rate
        &&& self.fraction < self.output_rate
        &&& is_position(
            output_count(self.heard@.len(), self.input_rate(), self.output_rate()),
            self.position as int,
            self.fraction as int,
            self.heard@.len(),
            self.input_rate(),
            self.output_rate(),
        )
        &&& -1 <= self.position <= self.step_whole + 1
        &&& self.heard@.len() == 0 ==> self.position >= 0
        &&& self.previous == if self.heard@.len() == 0 { 0 } else { self.heard@.last() }
    }

    /// What processing some more input appends to the output.
    pub open spec fn produced(&self, input: Seq<i16>) -> Seq<i16> {
        linearly_resampled(self.heard() + input, self.input_rate(), self.output_rate()).skip(
            output_count(self.heard().len(), self.input_rate(), self.output_rate()) as int,
        )
    }

    /// Creates a resampler converting `input_rate` to `output_rate`, where an
    /// output rate of zero is treated as one.
    pub fn new(input_rate: u32, output_rate: u32) -> (linear: Self)
        requires
            input_rate > 0,
        ensures
            linear.wf(),
            linear.input_rate() == input_rate,
            linear.output_rate() == if output_rate == 0 { 1 } else { output_rate as nat },
            linear.heard() == Seq::<i16>::empty(),
    {
        let rate: u32 = if output_rate == 0 { 1 } else { output_rate };
        proof {
            lemma_fundamental_div_mod(input_rate as int, rate as int);
            lemma_mul_is_commutative((input_rate / rate) as int, rate as int);
            assert(0 * input_rate == 0);
            assert(0 * rate == 0);
        }
        Self {
            output_rate: rate,
            step_whole: input_rate / rate,
            step_fraction: input_rate % rate,
            position: 0,
            fraction: 0,
            previous: 0,
            heard: Ghost(Seq::empty()),
        }
    }

    /// Resamples `input`, appending the result to `out`.
    pub fn process(&mut self, input: &[i16], out: &mut Vec<i16>)
        requires
            old(self).wf(),
        ensures
            final(self).wf(),
            final(self).input_rate() == old(self).input_rate(),
            final(self).output_rate() == old(self).output_rate(),
            final(self).heard() == old(self).heard() + input@,
            final(out)@ == old(out)@ + old(self).produced(input@),
    {
        let len: i128 = input.len() as i128;
        let ghost earlier = self.heard@;
        let ghost stream = earlier + input@;
        let ghost ir = self.input_rate();
        let ghost or = self.output_rate();
        let ghost first = output_count(earlier.len(), ir, or);
        let ghost all = linearly_resampled(stream, ir, or);
        let ghost before = out@;
        if len == 0 {
            assert(stream == earlier);
            assert(all.skip(first as int) == Seq::<i16>::empty());
            return ;
        }
        let ghost mut k: nat = first;
        proof {
            lemma_output_count(earlier.len(), ir, or);
            lemma_output_count_monotone(earlier.len(), stream.len(), ir, or);
            if earlier.len() > 0 {
                lemma_mul_inequality(
                    earlier.len() - 1,
                    stream.len() - 1,
                    or as int,
                );
            }
            assert(all.subrange(first as int, k as int) == Seq::<i16>::empty());
        }
        // An output can be produced while its source position is within the
        // samples we can see: strictly before the last one, or exactly on it
        // when there is no fraction left to interpolate.
        while self.position < len - 1 || (self.position == len - 1 && self.fraction == 0)
            invariant
                len == input.len(),
                len > 0,
                earlier == old(self).heard(),
                stream == earlier + input@,
                self.heard@ == earlier,
                self.output_rate > 0,
                self.input_rate() > 0,
                self.input_rate() == old(self).input_rate(),
                self.output_rate() == old(self).output_rate(),
                self.step_fraction < self.output_rate,
                self.fraction < self.output_rate,
                self.step_whole == old(self).step_whole,
                self.previous == if earlier.len() == 0 { 0 } else { earlier.last() },
                ir == self.input_rate(),
                or == self.output_rate(),
                is_position(k, self.position as int, self.fraction as int, earlier.len(), ir, or),
                -1 <= self.position <= len + self.step_whole,
                earlier.len() == 0 ==> self.position >= 0,
                first <= k,
                all == linearly_resampled(stream, ir, or),
                k <= all.len(),
                k == 0 || (k - 1) * ir <= (stream.len() - 1) * or,
                out@ == before + all.subrange(first as int, k as int),
            decreases all.len() - k,
        {
            proof {
                lemma_within(
                    k,
                    self.position as int,
                    self.fraction as int,
                    earlier.len(),
                    stream.len(),
                    ir,
                    or,
                );
            }
            let ghost at = self.position + earlier.len();
            let before_sample: i16 = if self.position < 0 {
                self.previous
            } else {
                input[self.position as usize]
            };
            assert(before_sample == stream[at]);
            let sample: i16 = if self.fraction == 0 {
                before_sample
            } else {
                // `position + 1` is in range because the loop condition above
                // only allows a non-zero fraction while `position < len - 1`.
                let after: i16 = input[(self.position + 1) as usize];
                assert(after == stream[at + 1]);
                interpolate(before_sample, after, self.fraction, self.output_rate)
            };
            assert(sample == all[k as int]);
            out.push(sample);
            let ghost was = self.position as int;
            self.advance();
            proof {
                let passed = earlier.len() as int;
                lemma_mul_is_distributive_add_other_way(or as int, was, passed);
                lemma_mul_is_distributive_add_other_way(or as int, self.position as int, passed);
                lemma_mul_is_distributive_add_other_way(ir as int, k as int, 1);
                assert(all.subrange(first as int, (k + 1) as int) == all.subrange(
                    first as int,
                    k as int,
                ).push(all[k as int]));
                k = k + 1;
            }
        }
        proof {
            lemma_beyond(
                k,
                self.position as int,
                self.fraction as int,
                earlier.len(),
                stream.len(),
                ir,
                or,
            );
            assert(all.subrange(first as int, k as int) == all.skip(first as int));
        }
        self.previous = input[(len - 1) as usize];
        self.position = self.position - len;
        self.heard = Ghost(stream);
        proof {
            assert(self.position + stream.len() == (self.position + len) + earlier.len());
        }
    }

    /// Discards the fractional position and the carried-over sample.
    pub fn reset(&mut self)
        requires
            old(self).wf(),
        ensures
            final(self).wf(),
            final(self).input_rate() == old(self).input_rate(),
            final(self).output_rate() == old(self).output_rate(),
            final(self).heard() == Seq::<i16>::empty(),
    {
        self.position = 0;
        self.fraction = 0;
        self.previous = 0;
        self.heard = Ghost(Seq::empty());
        proof {
            assert(0 * self.input_rate() == 0);
            assert(0 * self.output_rate == 0);
        }
    }

    /// Moves on to the position of the next output sample.
    fn advance(&mut self)
        requires
            old(self).output_rate > 0,
            old(self).step_fraction < old(self).output_rate,
            old(self).fraction < old(self).output_rate,
            -1 <= old(self).position <= 0x1_0000_0000_0000_0000,
        ensures
            *final(self) == (LinearResampler {
                position: final(self).position,
                fraction: final(self).fraction,
                ..*old(self)
            }),
            final(self).fraction < final(self).output_rate,
            final(self).position * final(self).output_rate + final(self).fraction == old(
                self,
            ).position * old(self).output_rate + old(self).fraction + old(self).input_rate(),
            old(self).position <= final(self).position <= old(self).position + old(self).step_whole
                + 1,
    {
        proof {
            lemma_mul_is_distributive_add_other_way(
                self.output_rate as int,
                self.position as int,
                self.step_whole as int,
            );
            lemma_mul_is_distributive_add_other_way(
                self.output_rate as int,
                self.position + self.step_whole,
                1,
            );
        }
        self.position = self.position + self.step_whole as i128;
        if self.fraction >= self.output_rate - self.step_fraction {
            self.fraction = self.fraction - (self.output_rate - self.step_fraction);
            self.position = self.position + 1;
        } else {
            self.fraction = self.fraction + self.step_fraction;
        }
    }
}

/// How many outputs there are, as bounds on the last one's position.
proof fn lemma_output_count(len: nat, input_rate: nat, output_rate: nat)
    requires
        input_rate > 0,
    ensures
        len > 0 ==> {
            let count = output_count(len, input_rate, output_rate);
            &&& count > 0
            &&& (count - 1) * input_rate <= (len - 1) * output_rate
            &&& (len - 1) * output_rate < count * input_rate
        },
{
    if len > 0 {
        let reach = (len - 1) * output_rate;
        lemma_mul_nonnegative(len - 1, output_rate as int);
        lemma_fundamental_div_mod(reach, input_rate as int);
        lemma_mod_bound(reach, input_rate as int);
        let quotient = reach / input_rate as int;
        lemma_mul_is_commutative(input_rate as int, quotient);
        lemma_mul_is_distributive_add_other_way(input_rate as int, quotient, 1);
    }
}

/// More input never means fewer outputs.
proof fn lemma_output_count_monotone(less: nat, more: nat, input_rate: nat, output_rate: nat)
    requires
        input_rate > 0,
        less <= more,
    ensures
        output_count(less, input_rate, output_rate) <= output_count(more, input_rate, output_rate),
{
    if less > 0 {
        lemma_mul_inequality(less - 1, more - 1, output_rate as int);
        lemma_mul_nonnegative(less - 1, output_rate as int);
        lemma_div_is_ordered(
            (less - 1) * output_rate,
            (more - 1) * output_rate,
            input_rate as int,
        );
    } else if more > 0 {
        lemma_mul_nonnegative(more - 1, output_rate as int);
        lemma_div_pos_is_pos((more - 1) * output_rate, input_rate as int);
    }
}

/// Where the position is within the samples that can be seen, the output is
/// one of those the stream determines, and the position is its position.
proof fn lemma_within(
    k: nat,
    position: int,
    fraction: int,
    passed: nat,
    total: nat,
    input_rate: nat,
    output_rate: nat,
)
    requires
        input_rate > 0,
        0 <= fraction < output_rate,
        is_position(k, position, fraction, passed, input_rate, output_rate),
        -1 <= position,
        position + passed >= 0,
        passed < total,
        position + passed < total - 1 || (position + passed == total - 1 && fraction == 0),
    ensures
        k < output_count(total, input_rate, output_rate),
        (k * input_rate) / output_rate == position + passed,
        (k * input_rate) % output_rate == fraction,
        k * input_rate <= (total - 1) * output_rate,
{
    let at = position + passed;
    lemma_fundamental_div_mod_converse(
        (k * input_rate) as int,
        output_rate as int,
        at,
        fraction,
    );
    assert(k * input_rate <= (total - 1) * output_rate) by {
        if at < total - 1 {
            lemma_mul_inequality(at + 1, total - 1, output_rate as int);
            lemma_mul_is_distributive_add_other_way(output_rate as int, at, 1);
        }
    }
    let reach = (total - 1) * output_rate;
    lemma_output_count(total, input_rate, output_rate);
    let count = output_count(total, input_rate, output_rate);
    if k >= count {
        lemma_mul_inequality(count as int, k as int, input_rate as int);
    }
}

/// Where the position is past the samples that can be seen, every output the
/// stream determines has been produced.
proof fn lemma_beyond(
    k: nat,
    position: int,
    fraction: int,
    passed: nat,
    total: nat,
    input_rate: nat,
    output_rate: nat,
)
    requires
        input_rate > 0,
        0 <= fraction < output_rate,
        is_position(k, position, fraction, passed, input_rate, output_rate),
        passed < total,
        !(position + passed < total - 1 || (position + passed == total - 1 && fraction == 0)),
        k == 0 || (k - 1) * input_rate <= (total - 1) * output_rate,
    ensures
        k == output_count(total, input_rate, output_rate),
        position + passed <= total - 1 + input_rate / output_rate + 1,
{
    let at = position + passed;
    let count = output_count(total, input_rate, output_rate);
    lemma_output_count(total, input_rate, output_rate);
    assert((total - 1) * output_rate < k * input_rate) by {
        if at > total - 1 {
            lemma_mul_strict_inequality(total - 1, at, output_rate as int);
        }
    }
    if k < count {
        lemma_mul_inequality(k as int, count - 1, input_rate as int);
    }
    if k > count {
        lemma_mul_inequality(count as int, k - 1, input_rate as int);
    }
    // at * output_rate <= k * input_rate <= (total - 1) * output_rate + input_rate
    lemma_mul_is_distributive_add_other_way(input_rate as int, k - 1, 1);
    lemma_fundamental_div_mod(input_rate as int, output_rate as int);
    lemma_mod_bound(input_rate as int, output_rate as int);
    let step = input_rate as int / output_rate as int;
    if at > total - 1 + step + 1 {
        lemma_mul_inequality(total - 1 + step + 1, at, output_rate as int);
        lemma_mul_is_distributive_add_other_way(output_rate as int, total - 1, step + 1);
        lemma_mul_is_distributive_add_other_way(output_rate as int, step, 1);
        lemma_mul_is_commutative(output_rate as int, step);
    }
}

/// More input never changes what a resampled stream began with.
proof fn lemma_linear_prefix(stream: Seq<i16>, more: Seq<i16>, input_rate: nat, output_rate: nat)
    requires
        input_rate > 0,
        output_rate > 0,
    ensures
        ({
            let shorter = linearly_resampled(stream, input_rate, output_rate);
            let longer = linearly_resampled(stream + more, input_rate, output_rate);
            &&& shorter.len() <= longer.len()
            &&& longer.take(shorter.len() as int) == shorter
        }),
{
    let shorter = linearly_resampled(stream, input_rate, output_rate);
    let longer = linearly_resampled(stream + more, input_rate, output_rate);
    lemma_output_count_monotone(stream.len(), (stream + more).len(), input_rate, output_rate);
    lemma_output_count(stream.len(), input_rate, output_rate);
    assert forall|k: int| 0 <= k < shorter.len() implies longer[k] == shorter[k] by {
        let source = k * input_rate;
        let position = source / output_rate as int;
        let fraction = source % output_rate as int;
        lemma_mul_nonnegative(k, input_rate as int);
        lemma_mul_inequality(k, shorter.len() - 1, input_rate as int);
        lemma_fundamental_div_mod(source, output_rate as int);
        lemma_mod_bound(source, output_rate as int);
        lemma_div_pos_is_pos(source, output_rate as int);
        lemma_mul_is_commutative(output_rate as int, position);
        // The source position is no later than the last sample, and earlier
        // where it needs the sample after it.
        assert(position * output_rate + fraction <= (stream.len() - 1) * output_rate);
        if position > stream.len() - 1 {
            lemma_mul_strict_inequality(stream.len() - 1, position, output_rate as int);
        }
        assert(stream[position] == (stream + more)[position]);
        if fraction > 0 {
            assert(position < stream.len() - 1);
            assert(stream[position + 1] == (stream + more)[position + 1]);
        }
    }
    assert(longer.take(shorter.len() as int) =~= shorter);
}

/// A linearly resampled stream does not depend on how it was chopped into
/// chunks: two chunks produce what their concatenation produces.
pub proof fn linear_resampling_ignores_chunking(
    heard: Seq<i16>,
    first: Seq<i16>,
    second: Seq<i16>,
    input_rate: nat,
    output_rate: nat,
)
    requires
        input_rate > 0,
        output_rate > 0,
    ensures
        ({
            let produced = |heard: Seq<i16>, input: Seq<i16>|
                linearly_resampled(heard + input, input_rate, output_rate).skip(
                    output_count(heard.len(), input_rate, output_rate) as int,
                );
            produced(heard, first) + produced(heard + first, second) == produced(
                heard,
                first + second,
            )
        }),
{
    lemma_linear_prefix(heard, first, input_rate, output_rate);
    lemma_linear_prefix(heard + first, second, input_rate, output_rate);
    assert((heard + first) + second == heard + (first + second));
    let start = linearly_resampled(heard, input_rate, output_rate).len() as int;
    let middle = linearly_resampled(heard + first, input_rate, output_rate);
    let all = linearly_resampled(heard + (first + second), input_rate, output_rate);
    assert(all.take(middle.len() as int) == middle);
    assert(middle.skip(start) + all.skip(middle.len() as int) =~= all.skip(start));
}

/// One second of input gives one second of output, where the rate goes down.
pub proof fn a_second_in_is_a_second_out(input_rate: nat, output_rate: nat)
    requires
        0 < output_rate <= input_rate,
    ensures
        output_count(input_rate, input_rate, output_rate) == output_rate,
{
    let reach = (input_rate - 1) * output_rate;
    lemma_mul_is_distributive_sub_other_way(output_rate as int, input_rate as int, 1);
    lemma_mul_is_distributive_sub_other_way(input_rate as int, output_rate as int, 1);
    lemma_mul_is_commutative(input_rate as int, output_rate as int);
    lemma_fundamental_div_mod_converse(
        reach,
        input_rate as int,
        output_rate - 1,
        input_rate - output_rate,
    );
}

/// Decimating whole groups gives one sample per group.
pub proof fn decimation_divides_the_length(stream: Seq<i16>, factor: nat, groups: nat)
    requires
        factor > 0,
        stream.len() == groups * factor,
    ensures
        decimated(stream, factor).len() == groups,
{
    lemma_mul_is_commutative(groups as int, factor as int);
    lemma_div_multiples_vanish(groups as int, factor as int);
}

/// A resampled sample lies between the two samples of the stream around its
/// position.
pub proof fn resampled_samples_stay_in_range(
    stream: Seq<i16>,
    k: nat,
    input_rate: nat,
    output_rate: nat,
)
    requires
        0 < input_rate,
        0 < output_rate <= 0xffff_ffff,
        k < output_count(stream.len(), input_rate, output_rate),
    ensures
        ({
            let position = ((k * input_rate) / output_rate) as int;
            let before = stream[position] as int;
            let after = if (k * input_rate) % output_rate == 0 {
                before
            } else {
                stream[position + 1] as int
            };
            let sample = linear_sample(stream, k, input_rate, output_rate);
            &&& before <= after ==> before <= sample <= after
            &&& after <= before ==> after <= sample <= before
        }),
{
    let position = ((k * input_rate) / output_rate) as int;
    let fraction = (k * input_rate) % output_rate;
    lemma_mod_bound((k * input_rate) as int, output_rate as int);
    if fraction > 0 {
        interpolation_stays_between(
            stream[position] as int,
            stream[position + 1] as int,
            fraction,
            output_rate,
        );
    }
}

/// The samples an output sample is made of are in the stream.
proof fn lemma_source(len: nat, k: nat, input_rate: nat, output_rate: nat)
    requires
        0 < input_rate,
        0 < output_rate,
        k < output_count(len, input_rate, output_rate),
    ensures
        ({
            let source = k * input_rate;
            let position = source / output_rate;
            let fraction = source % output_rate;
            &&& position < len
            &&& 0 <= fraction < output_rate
            &&& fraction > 0 ==> position + 1 < len
            &&& source == position * output_rate + fraction
        }),
{
    let source = (k * input_rate) as int;
    let position = source / output_rate as int;
    let count = output_count(len, input_rate, output_rate);
    lemma_output_count(len, input_rate, output_rate);
    lemma_mul_nonnegative(k as int, input_rate as int);
    lemma_mul_inequality(k as int, count - 1, input_rate as int);
    lemma_fundamental_div_mod(source, output_rate as int);
    lemma_mod_bound(source, output_rate as int);
    lemma_div_pos_is_pos(source, output_rate as int);
    lemma_mul_is_commutative(output_rate as int, position);
    if position > len - 1 {
        lemma_mul_strict_inequality(len - 1, position, output_rate as int);
    }
}

/// An output sample is what the stream is at its position: the very sample
/// there, or between two samples one between them, and less than one away from
/// the exact value of the straight line which joins them.
pub proof fn resampled_samples_are_close(
    stream: Seq<i16>,
    k: nat,
    input_rate: nat,
    output_rate: nat,
)
    requires
        0 < input_rate,
        0 < output_rate <= 0xffff_ffff,
        k < output_count(stream.len(), input_rate, output_rate),
    ensures
        ({
            let position = ((k * input_rate) / output_rate) as int;
            let fraction = (k * input_rate) % output_rate;
            let sample = linearly_resampled(stream, input_rate, output_rate)[k as int];
            &&& 0 <= position < stream.len()
            &&& fraction == 0 ==> sample == stream[position]
            &&& fraction > 0 ==> {
                let before = stream[position] as int;
                let after = stream[position + 1] as int;
                &&& position + 1 < stream.len()
                &&& before <= sample <= after || after <= sample <= before
                &&& -output_rate < (sample - before) * output_rate - (after - before) * fraction
                    < output_rate
            }
        }),
{
    lemma_source(stream.len(), k, input_rate, output_rate);
    resampled_samples_stay_in_range(stream, k, input_rate, output_rate);
    let position = ((k * input_rate) / output_rate) as int;
    let fraction = (k * input_rate) % output_rate;
    if fraction > 0 {
        interpolation_is_close(
            stream[position] as int,
            stream[position + 1] as int,
            fraction,
            output_rate,
        );
    }
}

/// A stream which never falls is resampled into one which never falls, and
/// which starts where it does.
pub proof fn a_rising_stream_stays_rising(
    stream: Seq<i16>,
    j: nat,
    k: nat,
    input_rate: nat,
    output_rate: nat,
)
    requires
        0 < input_rate,
        0 < output_rate <= 0xffff_ffff,
        forall|a: int, b: int| 0 <= a <= b < stream.len() ==> stream[a] <= stream[b],
        j <= k < output_count(stream.len(), input_rate, output_rate),
    ensures
        ({
            let out = linearly_resampled(stream, input_rate, output_rate);
            out[0] == stream[0] && out[j as int] <= out[k as int]
        }),
{
    let out = linearly_resampled(stream, input_rate, output_rate);
    lemma_source(stream.len(), 0, input_rate, output_rate);
    resampled_samples_are_close(stream, 0, input_rate, output_rate);
    assert(0 * input_rate == 0);
    lemma_small_mod(0, output_rate);
    lemma_basic_div(0, output_rate as int);
    lemma_source(stream.len(), j, input_rate, output_rate);
    lemma_source(stream.len(), k, input_rate, output_rate);
    resampled_samples_are_close(stream, j, input_rate, output_rate);
    resampled_samples_are_close(stream, k, input_rate, output_rate);
    lemma_mul_inequality(j as int, k as int, input_rate as int);
    lemma_div_is_ordered((j * input_rate) as int, (k * input_rate) as int, output_rate as int);
    let earlier = ((j * input_rate) / output_rate) as int;
    let later = ((k * input_rate) / output_rate) as int;
    let fraction = (j * input_rate) % output_rate;
    let further = (k * input_rate) % output_rate;
    if earlier == later {
        if fraction > 0 {
            resampled_samples_stay_in_range(stream, j, input_rate, output_rate);
            resampled_samples_stay_in_range(stream, k, input_rate, output_rate);
            interpolation_rises(
                stream[earlier] as int,
                stream[earlier + 1] as int,
                fraction,
                further,
                output_rate,
            );
        }
    }
}

/// Resamples a mono 16-bit PCM stream, chunk by chunk.
pub enum Resampler {
    /// The device already runs at the model's rate.
    Passthrough,
    /// The input rate is an exact integer multiple of the output rate.
    Decimate(Decimator),
    /// Any other ratio, including upsampling.
    Linear(LinearResampler),
}

impl Resampler {
    /// The strategy's own invariant.
    pub open spec fn wf(&self) -> bool {
        match self {
            Resampler::Passthrough => true,
            Resampler::Decimate(decimator) => decimator.wf(),
            Resampler::Linear(linear) => linear.wf(),
        }
    }

    /// What processing some more input appends to the output.
    pub open spec fn produced(&self, input: Seq<i16>) -> Seq<i16> {
        match self {
            Resampler::Passthrough => input,
            Resampler::Decimate(decimator) => decimator.produced(input),
            Resampler::Linear(linear) => linear.produced(input),
        }
    }

    /// Whether this is the strategy for a pair of rates, with nothing heard.
    pub open spec fn fresh(&self, input_rate: u32, output_rate: u32) -> bool {
        if input_rate == 0 || output_rate == 0 || input_rate == output_rate {
            *self is Passthrough
        } else if input_rate > output_rate && input_rate % output_rate == 0 {
            &&& self matches Resampler::Decimate(decimator)
            &&& decimator.factor() == input_rate / output_rate
            &&& decimator.heard() == Seq::<i16>::empty()
        } else {
            &&& self matches Resampler::Linear(linear)
            &&& linear.input_rate() == input_rate
            &&& linear.output_rate() == output_rate
            &&& linear.heard() == Seq::<i16>::empty()
        }
    }

    /// Whether this is what a strategy becomes once it has heard some more.
    pub open spec fn after(&self, earlier: Resampler, input: Seq<i16>) -> bool {
        match (earlier, self) {
            (Resampler::Passthrough, Resampler::Passthrough) => true,
            (Resampler::Decimate(old), Resampler::Decimate(new)) => new.factor() == old.factor()
                && new.heard() == old.heard() + input,
            (Resampler::Linear(old), Resampler::Linear(new)) => new.input_rate() == old.input_rate()
                && new.output_rate() == old.output_rate() && new.heard() == old.heard() + input,
            _ => false,
        }
    }

    /// Whether this is a strategy which has forgotten what it heard.
    pub open spec fn restarted(&self, earlier: Resampler) -> bool {
        match (earlier, self) {
            (Resampler::Passthrough, Resampler::Passthrough) => true,
            (Resampler::Decimate(old), Resampler::Decimate(new)) => new.factor() == old.factor()
                && new.heard() == Seq::<i16>::empty(),
            (Resampler::Linear(old), Resampler::Linear(new)) => new.input_rate() == old.input_rate()
                && new.output_rate() == old.output_rate() && new.heard() == Seq::<i16>::empty(),
            _ => false,
        }
    }

    /// Chooses a strategy for the given rates.
    pub fn new(input_rate: u32, output_rate: u32) -> (resampler: Self)
        ensures
            resampler.wf(),
            resampler.fresh(input_rate, output_rate),
    {
        if input_rate == 0 || output_rate == 0 || input_rate == output_rate {
            return Resampler::Passthrough;
        }
        if input_rate > output_rate && input_rate % output_rate == 0 {
            proof {
                lemma_div_non_zero(input_rate as int, output_rate as int);
            }
            return Resampler::Decimate(Decimator::new(input_rate / output_rate));
        }
        Resampler::Linear(LinearResampler::new(input_rate, output_rate))
    }

    /// Resamples `input`, appending the result to `out`.
    pub fn process(&mut self, input: &[i16], out: &mut Vec<i16>)
        requires
            old(self).wf(),
        ensures
            final(self).wf(),
            final(self).after(*old(self), input@),
            final(out)@ == old(out)@ + old(self).produced(input@),
    {
        match self {
            Resampler::Passthrough => append(input, out),
            Resampler::Decimate(decimator) => decimator.process(input, out),
            Resampler::Linear(linear) => linear.process(input, out),
        }
    }

    /// Discards any partially accumulated state, as though the stream had just
    /// started. Used when listening is turned off so audio from before the
    /// mute cannot be stitched onto audio from after it.
    pub fn reset(&mut self)
        requires
            old(self).wf(),
        ensures
            final(self).wf(),
            final(self).restarted(*old(self)),
    {
        match self {
            Resampler::Passthrough => {},
            Resampler::Decimate(decimator) => decimator.reset(),
            Resampler::Linear(linear) => linear.reset(),
        }
    }
}

/// Appends some samples to others.
pub(crate) fn append(samples: &[i16], out: &mut Vec<i16>)
    ensures
        final(out)@ == old(out)@ + samples@,
{
    out.extend_from_slice(samples);
}

/// A stream which has been reset is resampled as a fresh one is: nothing from
/// before the reset can reach the output.
pub proof fn a_reset_resampler_is_a_fresh_one(
    fresh: Resampler,
    used: Resampler,
    reset: Resampler,
    input_rate: u32,
    output_rate: u32,
    heard: Seq<i16>,
    input: Seq<i16>,
)
    requires
        fresh.fresh(input_rate, output_rate),
        used.after(fresh, heard),
        reset.restarted(used),
    ensures
        reset.fresh(input_rate, output_rate),
        reset.produced(input) == fresh.produced(input),
{
}

/// However a stream is chopped into chunks, whatever strategy resamples it
/// produces the same output.
pub proof fn resampling_ignores_chunking(
    start: Resampler,
    middle: Resampler,
    first: Seq<i16>,
    second: Seq<i16>,
)
    requires
        start.wf(),
        middle.after(start, first),
    ensures
        start.produced(first) + middle.produced(second) == start.produced(first + second),
{
    match start {
        Resampler::Passthrough => {},
        Resampler::Decimate(decimator) => {
            decimation_ignores_chunking(decimator.heard(), first, second, decimator.factor());
        },
        Resampler::Linear(linear) => {
            linear_resampling_ignores_chunking(
                linear.heard(),
                first,
                second,
                linear.input_rate(),
                linear.output_rate(),
            );
        },
    }
}

/// What a fresh strategy makes of its first input.
proof fn lemma_fresh(resampler: Resampler, input_rate: u32, output_rate: u32, input: Seq<i16>)
    requires
        resampler.fresh(input_rate, output_rate),
        input_rate > 0,
        output_rate > 0,
    ensures
        input_rate == output_rate ==> resampler.produced(input) == input,
        input_rate > output_rate && input_rate % output_rate == 0 ==> {
            &&& resampler.produced(input) == decimated(input, (input_rate / output_rate) as nat)
            &&& input_rate / output_rate > 0
            &&& input_rate == (input_rate / output_rate) * output_rate
        },
        input_rate < output_rate || input_rate % output_rate != 0 ==> resampler.produced(input)
            == linearly_resampled(input, input_rate as nat, output_rate as nat),
{
    let nothing = Seq::<i16>::empty();
    assert(nothing + input == input);
    if input_rate == output_rate {
    } else if input_rate > output_rate && input_rate % output_rate == 0 {
        let factor = (input_rate / output_rate) as nat;
        lemma_fundamental_div_mod(input_rate as int, output_rate as int);
        lemma_mul_is_commutative(output_rate as int, factor as int);
        lemma_div_non_zero(input_rate as int, output_rate as int);
        lemma_basic_div(0, factor as int);
        let all = decimated(input, factor);
        assert(decimated(nothing, factor).len() == 0);
        assert(all.skip(0) == all);
    } else {
        let all = linearly_resampled(input, input_rate as nat, output_rate as nat);
        assert(linearly_resampled(nothing, input_rate as nat, output_rate as nat).len() == 0);
        assert(all.skip(0) == all);
    }
}

/// Audio keeps its tempo: whichever strategy is chosen, a stream of samples
/// taken `input_rate` times a second gives as many samples as it takes to last
/// as long at `output_rate`, give or take the one which is not complete yet.
pub proof fn resampling_keeps_the_tempo(
    resampler: Resampler,
    input_rate: u32,
    output_rate: u32,
    input: Seq<i16>,
)
    requires
        resampler.fresh(input_rate, output_rate),
        input_rate > 0,
        output_rate > 0,
    ensures
        ({
            let out = resampler.produced(input).len();
            let slack = if input_rate < output_rate {
                output_rate
            } else {
                input_rate
            };
            &&& out * input_rate < input.len() * output_rate + input_rate
            &&& input.len() * output_rate < out * input_rate + slack
        }),
{
    lemma_fresh(resampler, input_rate, output_rate, input);
    let n = input.len() as int;
    let i = input_rate as int;
    let o = output_rate as int;
    let out = resampler.produced(input).len() as int;
    if input_rate == output_rate {
    } else if input_rate > output_rate && input_rate % output_rate == 0 {
        let f = i / o;
        assert(out == n / f);
        lemma_fundamental_div_mod(n, f);
        lemma_mod_bound(n, f);
        let rest = n % f;
        assert(n * o == out * i + rest * o) by (nonlinear_arith)
            requires
                n == f * out + rest,
                i == f * o,
        ;
        assert(0 <= rest * o < i) by (nonlinear_arith)
            requires
                0 <= rest < f,
                i == f * o,
                o > 0,
        ;
    } else {
        lemma_output_count(input.len(), i as nat, o as nat);
        if n > 0 {
            lemma_mul_is_distributive_sub_other_way(o, n, 1);
            lemma_mul_is_distributive_sub_other_way(i, out, 1);
        } else {
            lemma_mul_basics(o);
            lemma_mul_basics(i);
        }
    }
}

/// A second of audio stays a second of audio: whichever strategy is chosen, a
/// number of seconds at a rate which is not raised gives exactly that number of
/// seconds.
pub proof fn seconds_of_audio_stay_seconds(
    resampler: Resampler,
    input_rate: u32,
    output_rate: u32,
    input: Seq<i16>,
    seconds: nat,
)
    requires
        resampler.fresh(input_rate, output_rate),
        0 < output_rate <= input_rate,
        input.len() == seconds * input_rate,
    ensures
        resampler.produced(input).len() == seconds * output_rate,
{
    resampling_keeps_the_tempo(resampler, input_rate, output_rate, input);
    let out = resampler.produced(input).len() as int;
    let i = input_rate as int;
    let o = output_rate as int;
    assert(out == seconds * o) by (nonlinear_arith)
        requires
            out * i < (seconds * i) * o + i,
            (seconds * i) * o < out * i + i,
            i > 0,
    ;
}

/// Where the rates are the same, or one of them is unknown, audio is passed on
/// as it is.
pub proof fn equal_rates_change_nothing(
    resampler: Resampler,
    input_rate: u32,
    output_rate: u32,
    input: Seq<i16>,
)
    requires
        resampler.fresh(input_rate, output_rate),
        input_rate == output_rate || input_rate == 0 || output_rate == 0,
    ensures
        resampler.produced(input) == input,
{
}

/// Each output sample stands for the stretch of input it was made of: where one
/// rate is a multiple of the other it is the average of as many samples as
/// there are to one output sample, rounded towards zero, and otherwise it is
/// the very sample at its position, or less than one away from the straight line
/// which joins the two samples around it.
pub proof fn output_samples_stand_for_their_input(
    resampler: Resampler,
    input_rate: u32,
    output_rate: u32,
    input: Seq<i16>,
    k: int,
)
    requires
        resampler.fresh(input_rate, output_rate),
        input_rate > 0,
        output_rate > 0,
        0 <= k < resampler.produced(input).len(),
    ensures
        ({
            let sample = resampler.produced(input)[k] as int;
            let source = k * input_rate;
            let position = source / output_rate as int;
            let fraction = source % output_rate as int;
            let width = input_rate / output_rate;
            if input_rate % output_rate == 0 {
                let total = sum(input.subrange(k * width, k * width + width));
                &&& 0 <= k * width
                &&& k * width + width <= input.len()
                &&& -width < total - sample * width < width
                &&& total >= 0 ==> 0 <= sample * width <= total
                &&& total <= 0 ==> total <= sample * width <= 0
            } else {
                &&& 0 <= position < input.len()
                &&& fraction == 0 ==> sample == input[position]
                &&& fraction > 0 ==> {
                    let before = input[position] as int;
                    let after = input[position + 1] as int;
                    &&& position + 1 < input.len()
                    &&& before <= sample <= after || after <= sample <= before
                    &&& -output_rate < (sample - before) * output_rate - (after - before)
                        * fraction < output_rate
                }
            }
        }),
{
    lemma_fresh(resampler, input_rate, output_rate, input);
    if input_rate % output_rate == 0 && input_rate >= output_rate {
        let width = (input_rate / output_rate) as int;
        if input_rate == output_rate {
            lemma_div_by_self(input_rate as int);
            lemma_mod_self_0(input_rate as int);
            let one = input.subrange(k, k + 1);
            assert(one.drop_last() == Seq::<i16>::empty());
            assert(sum(one.drop_last()) == 0);
            assert(sum(one) == input[k]);
            assert(k * 1 == k);
        } else {
            let count = input.len() as int / width;
            lemma_fundamental_div_mod(input.len() as int, width);
            lemma_mod_bound(input.len() as int, width);
            lemma_mul_is_commutative(width, count);
            lemma_mul_inequality(k + 1, count, width);
            lemma_mul_is_distributive_add_other_way(width, k, 1);
            lemma_mul_nonnegative(k, width);
            let group = input.subrange(k * width, k * width + width);
            lemma_average_bounds(group);
            averages_are_close(group);
        }
    } else {
        if input_rate < output_rate {
            lemma_small_mod(input_rate as nat, output_rate as nat);
        }
        resampled_samples_are_close(input, k as nat, input_rate as nat, output_rate as nat);
    }
}

/// Resampling makes nothing louder: whichever strategy is chosen, what comes out
/// stays within the bounds of what went in.
pub proof fn resampling_stays_within_bounds(
    resampler: Resampler,
    input_rate: u32,
    output_rate: u32,
    input: Seq<i16>,
    low: i16,
    high: i16,
    k: int,
)
    requires
        resampler.fresh(input_rate, output_rate),
        forall|i: int| 0 <= i < input.len() ==> low <= #[trigger] input[i] <= high,
        0 <= k < resampler.produced(input).len(),
    ensures
        low <= resampler.produced(input)[k] <= high,
{
    if input_rate == 0 || output_rate == 0 || input_rate == output_rate {
        equal_rates_change_nothing(resampler, input_rate, output_rate, input);
    } else {
        output_samples_stand_for_their_input(resampler, input_rate, output_rate, input, k);
        if input_rate % output_rate == 0 {
            lemma_fresh(resampler, input_rate, output_rate, input);
            if input_rate < output_rate {
                lemma_small_mod(input_rate as nat, output_rate as nat);
            }
            let width = (input_rate / output_rate) as int;
            let group = input.subrange(k * width, k * width + width);
            assert forall|i: int| 0 <= i < group.len() implies low <= #[trigger] group[i]
                <= high by {
                assert(group[i] == input[k * width + i]);
            }
            averages_stay_within_bounds(group, low as int, high as int);
            lemma_average_bounds(group);
        } else {
            let position = (k * input_rate) / output_rate as int;
            assert(low <= input[position] <= high);
        }
    }
}

} // verus!
