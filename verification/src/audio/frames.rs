//! Frame accumulation and the bounded hand-off into the recognizer thread.
//!
//! The device delivers whatever buffer size it feels like; the recognizer
//! wants frames of one length. [`FrameAssembler`] bridges the two without
//! blocking: it fills a buffer and, when that buffer is full, offers it to the
//! channel. If the channel is full the *new* frame is dropped and counted,
//! because dropped audio mid-utterance should be surfaced rather than silently
//! smoothed over.

use super::resample::append;
use crate::recognition::AudioMsg;
use std::sync::atomic::{AtomicU64, Ordering};
use std::sync::mpsc::{SyncSender, TrySendError};
use std::sync::Arc;
use vstd::arithmetic::div_mod::*;
use vstd::arithmetic::mul::*;
use vstd::prelude::*;

verus! {

/// The sending half of a bounded channel.
#[verifier::external_type_specification]
#[verifier::external_body]
#[verifier::reject_recursive_types(T)]
pub struct ExSyncSender<T>(std::sync::mpsc::SyncSender<T>);

/// What became of a frame which was offered to the channel.
#[derive(Debug, Clone, Copy, PartialEq, Eq, Structural)]
pub enum Handover {
    /// The channel took it.
    Accepted,
    /// The channel had no room.
    Full,
    /// Nobody is left to receive it.
    Gone,
}

/// The frames offered through one sender so far, and what became of each.
pub uninterp spec fn offered(frames: SyncSender<AudioMsg>) -> Seq<(Seq<i16>, Handover)>;

/// `SyncSender::try_send`: offers a frame to the channel without blocking, and
/// says whether it was taken, there was no room, or the receiver is gone.
/// Which of the three it is depends on the other end of the channel, so
/// nothing is said of it; the offer is recorded with whatever came back.
#[verifier::external_body]
fn offer(frames: &mut SyncSender<AudioMsg>, frame: Vec<i16>) -> (handover: Handover)
    ensures
        offered(*final(frames)) == offered(*old(frames)).push((frame@, handover)),
{
    match frames.try_send(AudioMsg::Frame(frame)) {
        Ok(()) => Handover::Accepted,
        Err(TrySendError::Full(_)) => Handover::Full,
        Err(TrySendError::Disconnected(_)) => Handover::Gone,
    }
}

/// How many drops have been counted through one handle of the counter.
pub uninterp spec fn drops_counted(dropped: Arc<AtomicU64>) -> nat;

/// `AtomicU64::fetch_add` of one: counts a dropped frame. Other handles of the
/// same counter may count too, so only what went through this one is known.
#[verifier::external_body]
fn count_drop(dropped: &mut Arc<AtomicU64>)
    ensures
        drops_counted(*final(dropped)) == drops_counted(*old(dropped)) + 1,
{
    dropped.fetch_add(1, Ordering::Relaxed);
}

/// Frame number `i` of some samples cut into frames.
pub open spec fn frame(samples: Seq<i16>, frame_len: nat, i: int) -> Seq<i16> {
    samples.subrange(i * frame_len, i * frame_len + frame_len)
}

/// How many of some offers met a full channel.
pub open spec fn refusals(offers: Seq<(Seq<i16>, Handover)>) -> nat
    decreases offers.len(),
{
    if offers.len() == 0 {
        0
    } else {
        refusals(offers.drop_last()) + if offers.last().1 == Handover::Full { 1nat } else { 0 }
    }
}

/// Whether some offers are the first `count` frames of some samples, in order:
/// all of them, or all up to the one which found the receiver gone. Nothing is
/// offered once it has been found gone.
pub open spec fn delivers(
    offers: Seq<(Seq<i16>, Handover)>,
    samples: Seq<i16>,
    frame_len: nat,
    count: nat,
    was_closed: bool,
    is_closed: bool,
) -> bool {
    &&& offers.len() <= count
    &&& forall|i: int|
        0 <= i < offers.len() ==> (#[trigger] offers[i]).0 == frame(samples, frame_len, i)
    &&& forall|i: int| 0 <= i < offers.len() - 1 ==> (#[trigger] offers[i]).1 != Handover::Gone
    &&& was_closed ==> offers.len() == 0
    &&& is_closed == (was_closed || (offers.len() > 0 && offers.last().1 == Handover::Gone))
    &&& !is_closed ==> offers.len() == count
}

/// Accumulates resampled mono PCM into fixed-size frames and pushes them onto
/// the bounded audio channel.
pub struct FrameAssembler {
    frame_len: usize,
    buffer: Vec<i16>,
    frames: SyncSender<AudioMsg>,
    dropped: Arc<AtomicU64>,
    /// Set once the recognizer has gone away, so we stop offering frames
    /// nobody will ever read.
    closed: bool,
}

impl FrameAssembler {
    /// The number of samples in each emitted frame.
    pub closed spec fn spec_frame_len(&self) -> nat {
        self.frame_len as nat
    }

    /// The partially filled frame.
    pub closed spec fn pending(&self) -> Seq<i16> {
        self.buffer@
    }

    /// Every frame offered to the channel so far, and what became of it.
    pub closed spec fn offers(&self) -> Seq<(Seq<i16>, Handover)> {
        offered(self.frames)
    }

    /// How many dropped frames have been counted.
    pub closed spec fn drops(&self) -> nat {
        drops_counted(self.dropped)
    }

    /// Whether the recognizer has been found gone.
    pub closed spec fn closed(&self) -> bool {
        self.closed
    }

    /// The partially filled frame is not a whole one.
    pub closed spec fn wf(&self) -> bool {
        &&& self.frame_len > 0
        &&& self.buffer@.len() < self.frame_len
    }

    /// Creates an assembler emitting frames of `frame_len` samples. A length
    /// of zero is treated as one.
    pub fn new(frame_len: usize, frames: SyncSender<AudioMsg>, dropped: Arc<AtomicU64>) -> (assembler:
        Self)
        ensures
            assembler.wf(),
            assembler.spec_frame_len() == if frame_len == 0 { 1 } else { frame_len as nat },
            assembler.pending() == Seq::<i16>::empty(),
            assembler.offers() == offered(frames),
            assembler.drops() == drops_counted(dropped),
            !assembler.closed(),
    {
        let frame_len: usize = if frame_len == 0 { 1 } else { frame_len };
        Self { frame_len, buffer: Vec::with_capacity(frame_len), frames, dropped, closed: false }
    }

    /// The number of samples in each emitted frame.
    pub fn frame_len(&self) -> (len: usize)
        ensures
            len == self.spec_frame_len(),
    {
        self.frame_len
    }

    /// Whether the recognizer end of the channel has been dropped.
    pub fn is_closed(&self) -> (closed: bool)
        ensures
            closed == self.closed(),
    {
        self.closed
    }

    /// Whether pushing some samples takes the assembler from one state to
    /// another: the whole frames have been offered, the rest is pending.
    pub open spec fn pushed(&self, earlier: FrameAssembler, samples: Seq<i16>) -> bool {
        let all = earlier.pending() + samples;
        let n = earlier.spec_frame_len();
        let offers = self.offers().skip(earlier.offers().len() as int);
        &&& self.spec_frame_len() == n
        &&& self.pending() == all.skip((all.len() / n * n) as int)
        &&& earlier.offers().is_prefix_of(self.offers())
        &&& delivers(offers, all, n, all.len() / n, earlier.closed(), self.closed())
        &&& self.drops() == earlier.drops() + refusals(offers)
    }

    /// Appends `samples`, emitting frames as they fill up.
    pub fn push(&mut self, samples: &[i16])
        requires
            old(self).wf(),
        ensures
            final(self).wf(),
            final(self).pushed(*old(self), samples@),
    {
        let ghost all = self.buffer@ + samples@;
        let ghost n = self.frame_len as int;
        let ghost earlier = offered(self.frames);
        let ghost started = self.buffer@.len() as int;
        let ghost mut whole: int = 0;
        let mut next: usize = 0;
        proof {
            assert(earlier.skip(earlier.len() as int) == Seq::<(Seq<i16>, Handover)>::empty());
            assert(all.subrange(0, started) == self.buffer@);
            lemma_mul_basics(n);
        }
        while next < samples.len()
            invariant
                self.wf(),
                n == self.frame_len,
                n == old(self).spec_frame_len(),
                n > 0,
                next <= samples.len(),
                started == old(self).pending().len(),
                all == old(self).pending() + samples@,
                earlier == old(self).offers(),
                0 <= whole,
                0 <= whole * n,
                whole * n + self.buffer@.len() == started + next,
                self.buffer@ == all.subrange(whole * n, started + next),
                earlier.is_prefix_of(offered(self.frames)),
                delivers(
                    offered(self.frames).skip(earlier.len() as int),
                    all,
                    n as nat,
                    whole as nat,
                    old(self).closed(),
                    self.closed,
                ),
                self.drops() == old(self).drops() + refusals(
                    offered(self.frames).skip(earlier.len() as int),
                ),
            decreases samples.len() - next,
        {
            let wanted: usize = self.frame_len - self.buffer.len();
            let left: usize = samples.len() - next;
            let taken: usize = if wanted < left { wanted } else { left };
            let part = vstd::slice::slice_subrange(samples, next, next + taken);
            append(part, &mut self.buffer);
            next = next + taken;
            assert(self.buffer@ == all.subrange(whole * n, started + next));
            if self.buffer.len() == self.frame_len {
                let ghost offers = offered(self.frames).skip(earlier.len() as int);
                let ghost was_closed = self.closed;
                self.emit();
                proof {
                    lemma_mul_is_distributive_add_other_way(n, whole, 1);
                    assert(all.subrange(whole * n, started + next) == frame(all, n as nat, whole));
                    assert(all.subrange((whole + 1) * n, started + next) == Seq::<i16>::empty());
                    let now = offered(self.frames).skip(earlier.len() as int);
                    if !was_closed {
                        assert(now == offers.push((frame(all, n as nat, whole), now.last().1)));
                        assert(now.drop_last() == offers);
                    }
                    whole = whole + 1;
                }
            }
        }
        proof {
            lemma_fundamental_div_mod_converse(all.len() as int, n, whole, self.buffer@.len() as int);
            assert(self.buffer@ == all.skip(whole * n));
        }
    }

    /// Discards the partially filled frame without sending it.
    pub fn reset(&mut self)
        requires
            old(self).wf(),
        ensures
            final(self).wf(),
            final(self).spec_frame_len() == old(self).spec_frame_len(),
            final(self).pending() == Seq::<i16>::empty(),
            final(self).offers() == old(self).offers(),
            final(self).drops() == old(self).drops(),
            final(self).closed() == old(self).closed(),
    {
        self.buffer.clear();
    }

    /// Offers the filled buffer to the channel, and starts a new one.
    fn emit(&mut self)
        requires
            old(self).frame_len > 0,
        ensures
            final(self).wf(),
            final(self).frame_len == old(self).frame_len,
            final(self).pending() == Seq::<i16>::empty(),
            old(self).closed() ==> final(self).closed() && final(self).offers() == old(
                self,
            ).offers() && final(self).drops() == old(self).drops(),
            !old(self).closed() ==> {
                let handover = final(self).offers().last().1;
                &&& final(self).offers() == old(self).offers().push((old(self).pending(), handover))
                &&& final(self).closed() == (handover == Handover::Gone)
                &&& final(self).drops() == old(self).drops() + if handover == Handover::Full {
                    1nat
                } else {
                    0
                }
            },
    {
        if self.closed {
            self.buffer.clear();
            return ;
        }
        // The channel takes ownership of the samples, so a fresh buffer has to
        // take their place.
        let mut frame: Vec<i16> = Vec::with_capacity(self.frame_len);
        std::mem::swap(&mut frame, &mut self.buffer);
        let handover = offer(&mut self.frames, frame);
        self.settle(handover);
    }

    /// Acts on what became of an offered frame: a full channel is counted, and
    /// a receiver which has gone closes the assembler.
    pub fn settle(&mut self, handover: Handover)
        ensures
            final(self).closed() == (old(self).closed() || handover == Handover::Gone),
            final(self).drops() == old(self).drops() + if handover == Handover::Full {
                1nat
            } else {
                0
            },
            final(self).spec_frame_len() == old(self).spec_frame_len(),
            final(self).pending() == old(self).pending(),
            final(self).offers() == old(self).offers(),
            old(self).wf() ==> final(self).wf(),
    {
        match handover {
            Handover::Accepted => {},
            Handover::Full => count_drop(&mut self.dropped),
            Handover::Gone => {
                self.closed = true;
            },
        }
    }
}

/// The refusals among two runs of offers are those among each.
proof fn lemma_refusals_add(first: Seq<(Seq<i16>, Handover)>, second: Seq<(Seq<i16>, Handover)>)
    ensures
        refusals(first + second) == refusals(first) + refusals(second),
    decreases second.len(),
{
    if second.len() == 0 {
        assert(first + second == first);
    } else {
        lemma_refusals_add(first, second.drop_last());
        assert((first + second).drop_last() == first + second.drop_last());
    }
}

/// How samples are chopped into pushes plays no part in how they are framed:
/// pushing two runs of samples does what pushing them at once would do.
pub proof fn framing_ignores_chunking(
    start: FrameAssembler,
    middle: FrameAssembler,
    end: FrameAssembler,
    first: Seq<i16>,
    second: Seq<i16>,
)
    requires
        start.wf(),
        middle.pushed(start, first),
        end.pushed(middle, second),
    ensures
        end.pushed(start, first + second),
{
    let n = start.spec_frame_len() as int;
    let all = start.pending() + (first + second);
    let early = start.pending() + first;
    let late = middle.pending() + second;
    let before = early.len() as int / n;
    let rest = late.len() as int / n;
    let one = middle.offers().skip(start.offers().len() as int);
    let two = end.offers().skip(middle.offers().len() as int);
    let both = end.offers().skip(start.offers().len() as int);
    lemma_fundamental_div_mod(early.len() as int, n);
    lemma_fundamental_div_mod(late.len() as int, n);
    lemma_mul_is_commutative(n, before);
    lemma_mul_is_commutative(n, rest);
    lemma_mul_is_distributive_add_other_way(n, before, rest);
    assert(all.len() == (before + rest) * n + late.len() as int % n);
    lemma_fundamental_div_mod_converse(all.len() as int, n, before + rest, late.len() as int % n);
    assert(all.skip(before * n) == late);
    assert(late.skip(rest * n) == all.skip((before + rest) * n));
    assert(both == one + two);
    lemma_refusals_add(one, two);
    assert forall|i: int| 0 <= i < both.len() implies (#[trigger] both[i]).0 == frame(
        all,
        n as nat,
        i,
    ) by {
        if i < one.len() {
            lemma_mul_inequality(i + 1, before, n);
            lemma_mul_is_distributive_add_other_way(n, i, 1);
            lemma_mul_nonnegative(i, n);
            assert(both[i] == one[i]);
            assert(frame(all, n as nat, i) == frame(early, n as nat, i));
        } else {
            let j = i - one.len();
            assert(both[i] == two[j]);
            assert(one.len() == before);
            lemma_mul_inequality(j + 1, rest, n);
            lemma_mul_is_distributive_add_other_way(n, j, 1);
            lemma_mul_is_distributive_add_other_way(n, before, j);
            lemma_mul_nonnegative(j, n);
            assert(frame(late, n as nat, j) == frame(all, n as nat, i));
        }
    }
    assert forall|i: int| 0 <= i < both.len() - 1 implies (#[trigger] both[i]).1
        != Handover::Gone by {
        if i < one.len() {
            assert(both[i] == one[i]);
            if i == one.len() - 1 {
                assert(two.len() > 0);
            }
        } else {
            assert(both[i] == two[i - one.len()]);
        }
    }
}

/// Every emitted frame has exactly the assembler's length.
pub proof fn frames_are_of_one_length(
    start: FrameAssembler,
    end: FrameAssembler,
    samples: Seq<i16>,
    i: int,
)
    requires
        start.wf(),
        end.pushed(start, samples),
        start.offers().len() <= i < end.offers().len(),
    ensures
        end.offers()[i].0.len() == start.spec_frame_len(),
{
    let n = start.spec_frame_len() as int;
    let all = start.pending() + samples;
    let offers = end.offers().skip(start.offers().len() as int);
    let j = i - start.offers().len();
    assert(offers[j] == end.offers()[i]);
    let count = all.len() as int / n;
    lemma_fundamental_div_mod(all.len() as int, n);
    lemma_mul_is_commutative(n, count);
    lemma_mul_inequality(j + 1, count, n);
    lemma_mul_is_distributive_add_other_way(n, j, 1);
    lemma_mul_nonnegative(j, n);
}

/// The samples of some offered frames, one after the other.
pub open spec fn spliced(offers: Seq<(Seq<i16>, Handover)>) -> Seq<i16>
    decreases offers.len(),
{
    if offers.len() == 0 {
        Seq::empty()
    } else {
        spliced(offers.drop_last()) + offers.last().0
    }
}

/// The first frames of some samples, one after the other, are those samples up
/// to where the frames end.
proof fn lemma_spliced(offers: Seq<(Seq<i16>, Handover)>, samples: Seq<i16>, frame_len: nat)
    requires
        frame_len > 0,
        offers.len() * frame_len <= samples.len(),
        forall|i: int|
            0 <= i < offers.len() ==> (#[trigger] offers[i]).0 == frame(samples, frame_len, i),
    ensures
        spliced(offers) == samples.take((offers.len() * frame_len) as int),
    decreases offers.len(),
{
    let n = offers.len() as int;
    let width = frame_len as int;
    if n > 0 {
        let fewer = offers.drop_last();
        lemma_mul_is_distributive_sub_other_way(width, n, 1);
        lemma_mul_nonnegative(n - 1, width);
        assert forall|i: int| 0 <= i < fewer.len() implies (#[trigger] fewer[i]).0 == frame(
            samples,
            frame_len,
            i,
        ) by {
            assert(fewer[i] == offers[i]);
        }
        lemma_spliced(fewer, samples, frame_len);
        assert(offers.last().0 == frame(samples, frame_len, n - 1));
        assert(samples.take((n - 1) * width) + frame(samples, frame_len, n - 1) =~= samples.take(
            n * width,
        ));
    } else {
        lemma_mul_basics(width);
        assert(samples.take(0) =~= Seq::<i16>::empty());
    }
}

/// No sample is lost, moved or made up on the way to the channel: what was
/// pending, followed by what is pushed, is what is offered, followed by what is
/// pending then, and less than a frame of that is.
pub proof fn every_sample_is_framed_once(
    start: FrameAssembler,
    end: FrameAssembler,
    samples: Seq<i16>,
)
    requires
        start.wf(),
        end.pushed(start, samples),
        !end.closed(),
    ensures
        ({
            let offers = end.offers().skip(start.offers().len() as int);
            &&& start.offers().is_prefix_of(end.offers())
            &&& start.pending() + samples == spliced(offers) + end.pending()
            &&& end.pending().len() < start.spec_frame_len()
            &&& start.pending().len() + samples.len() == offers.len() * start.spec_frame_len()
                + end.pending().len()
        }),
{
    let n = start.spec_frame_len() as int;
    let all = start.pending() + samples;
    let offers = end.offers().skip(start.offers().len() as int);
    let count = all.len() as int / n;
    lemma_fundamental_div_mod(all.len() as int, n);
    lemma_mod_bound(all.len() as int, n);
    lemma_mul_is_commutative(n, count);
    lemma_spliced(offers, all, n as nat);
    assert(all.take(count * n) + all.skip(count * n) =~= all);
}

/// Each dropped frame is counted, and nothing else is: the count goes up by as
/// many as met a full channel.
pub proof fn every_drop_is_counted(start: FrameAssembler, end: FrameAssembler, samples: Seq<i16>)
    requires
        end.pushed(start, samples),
    ensures
        end.drops() == start.drops() + end.offers().skip(start.offers().len() as int).filter(
            |offer: (Seq<i16>, Handover)| offer.1 == Handover::Full,
        ).len(),
{
    lemma_refusals_are_full(end.offers().skip(start.offers().len() as int));
}

/// The refusals are the offers which met a full channel.
proof fn lemma_refusals_are_full(offers: Seq<(Seq<i16>, Handover)>)
    ensures
        refusals(offers) == offers.filter(
            |offer: (Seq<i16>, Handover)| offer.1 == Handover::Full,
        ).len(),
    decreases offers.len(),
{
    let full = |offer: (Seq<i16>, Handover)| offer.1 == Handover::Full;
    reveal(Seq::filter);
    if offers.len() > 0 {
        lemma_refusals_are_full(offers.drop_last());
    }
}

/// Nothing is offered to a receiver which has gone: the offer which found that
/// out was the last.
pub proof fn nothing_is_offered_to_nobody(
    start: FrameAssembler,
    end: FrameAssembler,
    samples: Seq<i16>,
)
    requires
        end.pushed(start, samples),
        start.closed(),
    ensures
        end.closed(),
        end.offers() == start.offers(),
{
    assert(end.offers() =~= start.offers());
}

} // verus!
