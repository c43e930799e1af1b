//! Rendering a compiled output plan the way a person reads a macro.

use crate::config::output::{chord_events, chords_keep_their_pace, chords_plan, time_taken};
use crate::output::keys::{key_name, name_of};
use crate::output::{CompiledOutput, KeyCode, KeyEvent};
use crate::text::{join, joined, views};
use crate::time::{Duration, NANOS_PER_SECOND};
use vstd::prelude::*;

verus! {

/// What has been read of a plan so far: the finished steps, the keys of the
/// chord being assembled, in the order they were pressed, and those of them
/// which are still held down.
#[verifier::ext_equal]
pub struct Reading {
    pub steps: Seq<Seq<char>>,
    pub chord: Seq<KeyCode>,
    pub held: Set<KeyCode>,
}

impl Reading {
    /// A chord is being assembled for as long as one of its keys is held down,
    /// and none but its keys are.
    pub open spec fn wf(self) -> bool {
        &&& self.chord.len() == 0 <==> self.held =~= Set::<KeyCode>::empty()
        &&& forall|key: KeyCode| self.held.contains(key) ==> #[trigger] self.chord.contains(key)
    }
}

/// One chord: its key names joined by `+`, in the order they go down.
pub open spec fn chord_text(keys: Seq<KeyCode>) -> Seq<char> {
    joined(keys.map_values(|key: KeyCode| name_of(key)), "+"@)
}

/// The step a release with no press before it is called out as.
pub open spec fn release_text(key: KeyCode) -> Seq<char> {
    "(release "@ + name_of(key) + ")"@
}

/// What reading one more event comes to. A chord is finished once every key in
/// it is back up; a release with no press before it is called out, and so is
/// one of everything, which finishes whatever chord was being assembled.
pub open spec fn read_on(reading: Reading, event: KeyEvent) -> Reading {
    match event {
        KeyEvent::Down(key) => Reading {
            chord: if reading.chord.contains(key) {
                reading.chord
            } else {
                reading.chord.push(key)
            },
            held: reading.held.insert(key),
            ..reading
        },
        KeyEvent::Up(key) => if !reading.held.contains(key) {
            Reading { steps: reading.steps.push(release_text(key)), ..reading }
        } else if reading.held.remove(key) =~= Set::<KeyCode>::empty() {
            Reading {
                steps: reading.steps.push(chord_text(reading.chord)),
                chord: Seq::empty(),
                held: Set::empty(),
            }
        } else {
            Reading { held: reading.held.remove(key), ..reading }
        },
        KeyEvent::ReleaseAll => if reading.chord.len() > 0 {
            Reading {
                steps: reading.steps.push(chord_text(reading.chord)).push("(release everything)"@),
                chord: Seq::empty(),
                held: Set::empty(),
            }
        } else {
            Reading { steps: reading.steps.push("(release everything)"@), ..reading }
        },
        KeyEvent::Wait(_) => reading,
    }
}

/// What reading some events comes to, from a reading on.
pub open spec fn read_from(start: Reading, events: Seq<KeyEvent>) -> Reading
    decreases events.len(),
{
    if events.len() == 0 {
        start
    } else {
        read_on(read_from(start, events.drop_last()), events.last())
    }
}

/// Nothing read yet.
pub open spec fn unread() -> Reading {
    Reading { steps: Seq::empty(), chord: Seq::empty(), held: Set::empty() }
}

/// The steps of a plan: those of its reading, and the chord which is never
/// released, if there is one.
pub open spec fn plan_steps(events: Seq<KeyEvent>) -> Seq<Seq<char>> {
    let reading = read_from(unread(), events);
    if reading.chord.len() > 0 {
        reading.steps.push(chord_text(reading.chord) + " (held)"@)
    } else {
        reading.steps
    }
}

/// How a plan reads.
pub open spec fn plan_text(events: Seq<KeyEvent>) -> Seq<char> {
    if plan_steps(events).len() == 0 {
        "(nothing)"@
    } else {
        joined(plan_steps(events), " "@)
    }
}

/// Whether a key is among others.
fn holds(keys: &[KeyCode], key: KeyCode) -> (is: bool)
    ensures
        is == keys@.contains(key),
{
    for i in 0..keys.len()
        invariant
            forall|j: int| 0 <= j < i ==> keys@[j] != key,
    {
        if keys[i] == key {
            assert(keys@[i as int] == key);
            return true;
        }
    }
    false
}

/// Whether some keys are those of a set, each of them once.
spec fn lists(keys: Seq<KeyCode>, set: Set<KeyCode>) -> bool {
    &&& keys.no_duplicates()
    &&& forall|key: KeyCode| keys.contains(key) == #[trigger] set.contains(key)
}

/// Adds a key to some others, unless it is among them.
fn press(keys: &mut Vec<KeyCode>, key: KeyCode)
    ensures
        final(keys)@ == if old(keys)@.contains(key) {
            old(keys)@
        } else {
            old(keys)@.push(key)
        },
        forall|set: Set<KeyCode>| #[trigger]
            lists(old(keys)@, set) ==> lists(final(keys)@, set.insert(key)),
{
    let ghost was = keys@;
    if !holds(keys, key) {
        keys.push(key);
        assert(keys@[was.len() as int] == key);
        assert forall|other: KeyCode| was.contains(other) implies keys@.contains(other) by {
            let i = choose|i: int| 0 <= i < was.len() && was[i] == other;
            assert(keys@[i] == other);
        }
    }
}

/// Takes a key from others, and says whether it was among them.
fn release(keys: &mut Vec<KeyCode>, key: KeyCode) -> (was_held: bool)
    ensures
        was_held == old(keys)@.contains(key),
        !was_held ==> final(keys)@ == old(keys)@,
        forall|set: Set<KeyCode>| #[trigger]
            lists(old(keys)@, set) ==> lists(final(keys)@, set.remove(key)),
{
    let ghost was = keys@;
    let len: usize = keys.len();
    for i in 0..len
        invariant
            len == keys.len(),
            keys@ == was,
            was == old(keys)@,
            forall|j: int| 0 <= j < i ==> keys@[j] != key,
    {
        if keys[i] == key {
            assert(was[i as int] == key);
            keys.remove(i);
            assert forall|set: Set<KeyCode>| #[trigger] lists(was, set) implies lists(
                keys@,
                set.remove(key),
            ) by {
                assert forall|other: KeyCode|
                    keys@.contains(other) == #[trigger] set.remove(key).contains(other) by {
                    if keys@.contains(other) {
                        let j = choose|j: int| 0 <= j < keys@.len() && keys@[j] == other;
                        assert(was[if j < i { j } else { j + 1 }] == other);
                    }
                    if set.remove(key).contains(other) {
                        assert(was.contains(other));
                        let j = choose|j: int| 0 <= j < was.len() && was[j] == other;
                        assert(keys@[if j < i { j } else { j - 1 }] == other);
                    }
                }
            }
            return true;
        }
    }
    assert forall|set: Set<KeyCode>| #[trigger] lists(was, set) implies lists(
        keys@,
        set.remove(key),
    ) by {
        assert forall|other: KeyCode|
            keys@.contains(other) == #[trigger] set.remove(key).contains(other) by {
            assert(keys@.contains(other) == set.contains(other));
        }
    }
    false
}

/// No keys list the empty set, and none else.
proof fn lemma_lists_none(keys: Seq<KeyCode>, set: Set<KeyCode>)
    requires
        lists(keys, set),
    ensures
        keys.len() == 0 <==> set =~= Set::<KeyCode>::empty(),
{
    if keys.len() > 0 {
        assert(keys.contains(keys[0]));
        assert(set.contains(keys[0]));
    }
}

/// Reading on keeps what holds of every reading.
proof fn lemma_read_on_wf(reading: Reading, event: KeyEvent)
    requires
        reading.wf(),
    ensures
        read_on(reading, event).wf(),
{
    let next = read_on(reading, event);
    match event {
        KeyEvent::Down(key) => {
            assert(next.held.contains(key));
            assert(next.chord.contains(key)) by {
                if !reading.chord.contains(key) {
                    assert(next.chord[reading.chord.len() as int] == key);
                }
            }
            assert forall|other: KeyCode| next.held.contains(other) implies #[trigger]
                next.chord.contains(other) by {
                if other != key {
                    assert(reading.chord.contains(other));
                    let i = choose|i: int|
                        0 <= i < reading.chord.len() && reading.chord[i] == other;
                    assert(next.chord[i] == other);
                }
            }
        },
        KeyEvent::Up(key) => {
            if reading.held.contains(key) {
                assert(reading.chord.contains(key));
            }
        },
        _ => {},
    }
}

/// Renders a compiled output plan the way a person reads a macro.
///
/// Keys pressed together come back as a `+`-joined chord, waits are elided,
/// and the two unbalanced cases a profile is allowed to contain are called out
/// rather than silently dropped: a key which is never released (a hold-style
/// macro) and a release with no press before it.
pub fn render_plan(output: &CompiledOutput) -> (text: String)
    ensures
        text@ == plan_text(output@),
{
    let CompiledOutput::Keyboard(plan) = output;
    let mut steps: Vec<String> = Vec::new();
    let mut chord: Vec<KeyCode> = Vec::new();
    let mut held: Vec<KeyCode> = Vec::new();
    assert(plan@.take(0) == Seq::<KeyEvent>::empty());
    assert(views(steps@) == Seq::<Seq<char>>::empty());
    for i in 0..plan.len()
        invariant
            views(steps@) == read_from(unread(), plan@.take(i as int)).steps,
            chord@ == read_from(unread(), plan@.take(i as int)).chord,
            lists(held@, read_from(unread(), plan@.take(i as int)).held),
            read_from(unread(), plan@.take(i as int)).wf(),
    {
        let ghost reading = read_from(unread(), plan@.take(i as int));
        let ghost was = steps@;
        assert(plan@.take(i + 1).drop_last() == plan@.take(i as int));
        proof {
            lemma_read_on_wf(reading, plan@[i as int]);
        }
        match plan[i] {
            KeyEvent::Down(key) => {
                press(&mut chord, key);
                press(&mut held, key);
            },
            KeyEvent::Up(key) => {
                if !release(&mut held, key) {
                    assert(!reading.held.contains(key));
                    assert(reading.held.remove(key) =~= reading.held);
                    let mut step = "(release ".to_owned();
                    step.append(key_name(key).as_str());
                    step.append(")");
                    steps.push(step);
                    assert(views(steps@) == views(was).push(step@));
                } else {
                    assert(reading.held.contains(key));
                    proof {
                        lemma_lists_none(held@, reading.held.remove(key));
                    }
                    // The chord is only finished once every key in it is back
                    // up.
                    if held.len() == 0 {
                        let step = render_chord(&chord);
                        steps.push(step);
                        chord.clear();
                        assert(views(steps@) == views(was).push(step@));
                    }
                }
            },
            KeyEvent::ReleaseAll => {
                // Everything outstanding goes up at once, so whatever chord was
                // being assembled ends here whether or not it was balanced.
                if chord.len() > 0 {
                    let step = render_chord(&chord);
                    steps.push(step);
                    chord.clear();
                    held.clear();
                    assert(views(steps@) == views(was).push(step@));
                }
                let ghost so_far = steps@;
                let last = "(release everything)".to_owned();
                steps.push(last);
                assert(views(steps@) == views(so_far).push(last@));
            },
            KeyEvent::Wait(_) => {},
        }
    }
    assert(plan@.take(plan.len() as int) == plan@);
    if chord.len() > 0 {
        let ghost was = steps@;
        let mut step = render_chord(&chord);
        step.append(" (held)");
        steps.push(step);
        assert(views(steps@) == views(was).push(step@));
    }
    if steps.len() == 0 {
        return "(nothing)".to_owned();
    }
    join(&steps, " ")
}

/// One chord: its key names joined by `+`, in the order they go down.
pub fn render_chord(keys: &[KeyCode]) -> (text: String)
    ensures
        text@ == chord_text(keys@),
{
    let mut names: Vec<String> = Vec::new();
    for i in 0..keys.len()
        invariant
            views(names@) == keys@.take(i as int).map_values(|key: KeyCode| name_of(key)),
    {
        let ghost was = names@;
        let name = key_name(keys[i]);
        names.push(name);
        assert(views(names@) == views(was).push(name@));
        assert(keys@.take(i + 1) == keys@.take(i as int).push(keys@[i as int]));
    }
    assert(keys@.take(keys.len() as int) == keys@);
    join(&names, "+")
}

/// How long the waits of some events are, in nanoseconds.
pub open spec fn waits(events: Seq<KeyEvent>) -> nat
    decreases events.len(),
{
    if events.len() == 0 {
        0
    } else {
        waits(events.drop_last()) + match events.last() {
            KeyEvent::Wait(duration) => duration.total_nanos(),
            _ => 0,
        }
    }
}

/// Whether every wait of some events is a length of time.
pub open spec fn waits_are_durations(events: Seq<KeyEvent>) -> bool {
    forall|i: int|
        0 <= i < events.len() ==> ((#[trigger] events[i]) matches KeyEvent::Wait(duration)
            ==> duration.wf())
}

/// More events never wait for less.
proof fn lemma_waits_grow(events: Seq<KeyEvent>, end: int)
    requires
        0 <= end <= events.len(),
    ensures
        waits(events.take(end)) <= waits(events),
    decreases events.len() - end,
{
    if end == events.len() {
        assert(events.take(end) == events);
    } else {
        assert(events.take(end + 1).drop_last() == events.take(end));
        lemma_waits_grow(events, end + 1);
    }
}

/// How long it would take to play a plan: its waits, since the key events
/// themselves are as good as instantaneous.
pub fn plan_duration(output: &CompiledOutput) -> (duration: Duration)
    requires
        waits_are_durations(output@),
        waits(output@) < 0x1_0000_0000_0000_0000 * NANOS_PER_SECOND,
    ensures
        duration.wf(),
        duration.total_nanos() == waits(output@),
{
    let CompiledOutput::Keyboard(plan) = output;
    let mut total = Duration::zero();
    assert(plan@.take(0) == Seq::<KeyEvent>::empty());
    for i in 0..plan.len()
        invariant
            waits_are_durations(plan@),
            waits(plan@) < 0x1_0000_0000_0000_0000 * NANOS_PER_SECOND,
            total.wf(),
            total.total_nanos() == waits(plan@.take(i as int)),
    {
        assert(plan@.take(i + 1).drop_last() == plan@.take(i as int));
        proof {
            lemma_waits_grow(plan@, i + 1);
        }
        if let KeyEvent::Wait(duration) = plan[i] {
            assert(plan@[i as int] == KeyEvent::Wait(duration));
            total = total.plus(duration);
        }
    }
    assert(plan@.take(plan.len() as int) == plan@);
    total
}

/// Reading two runs of events is reading one after the other.
proof fn lemma_read_apart(start: Reading, first: Seq<KeyEvent>, second: Seq<KeyEvent>)
    ensures
        read_from(start, first + second) == read_from(read_from(start, first), second),
    decreases second.len(),
{
    if second.len() == 0 {
        assert(first + second == first);
    } else {
        lemma_read_apart(start, first, second.drop_last());
        assert((first + second).drop_last() == first + second.drop_last());
    }
}

/// The waits of a plan play no part in how it reads.
pub proof fn waits_are_elided(before: Seq<KeyEvent>, wait: Duration, after: Seq<KeyEvent>)
    ensures
        plan_text(before + seq![KeyEvent::Wait(wait)] + after) == plan_text(before + after),
{
    let pause = seq![KeyEvent::Wait(wait)];
    lemma_read_apart(unread(), before + pause, after);
    lemma_read_apart(unread(), before, pause);
    lemma_read_apart(unread(), before, after);
    assert(pause.drop_last() == Seq::<KeyEvent>::empty());
    assert(read_from(read_from(unread(), before), pause) == read_from(unread(), before)) by {
        assert(read_from(read_from(unread(), before), pause.drop_last()) == read_from(
            unread(),
            before,
        ));
    }
}

/// Pressing the keys of a chord, none of them twice, assembles it.
proof fn lemma_presses(start: Reading, keys: Seq<KeyCode>)
    requires
        start.chord.len() == 0,
        start.held =~= Set::<KeyCode>::empty(),
        keys.no_duplicates(),
    ensures
        read_from(start, keys.map_values(|key: KeyCode| KeyEvent::Down(key))) == (Reading {
            steps: start.steps,
            chord: keys,
            held: keys.to_set(),
        }),
    decreases keys.len(),
{
    let presses = keys.map_values(|key: KeyCode| KeyEvent::Down(key));
    if keys.len() == 0 {
        assert(keys =~= start.chord);
        assert(keys.to_set() =~= start.held);
    } else {
        let rest = keys.drop_last();
        assert(rest.no_duplicates());
        lemma_presses(start, rest);
        assert(presses.drop_last() == rest.map_values(|key: KeyCode| KeyEvent::Down(key)));
        assert(!rest.contains(keys.last())) by {
            if rest.contains(keys.last()) {
                let i = choose|i: int| 0 <= i < rest.len() && rest[i] == keys.last();
                assert(keys[i] == keys[keys.len() - 1]);
            }
        }
        assert(rest.push(keys.last()) =~= keys);
        assert(rest.to_set().insert(keys.last()) =~= keys.to_set()) by {
            assert forall|key: KeyCode| keys.contains(key) implies rest.contains(key) || key
                == keys.last() by {
                let i = choose|i: int| 0 <= i < keys.len() && keys[i] == key;
                if i < rest.len() {
                    assert(rest[i] == key);
                }
            }
            assert forall|key: KeyCode| rest.contains(key) implies keys.contains(key) by {
                let i = choose|i: int| 0 <= i < rest.len() && rest[i] == key;
                assert(keys[i] == key);
            }
        }
    }
}

/// Letting go of the first `n` of the keys held finishes the chord with the
/// last one.
proof fn lemma_releases(start: Reading, keys: Seq<KeyCode>, n: nat)
    requires
        keys.no_duplicates(),
        start.held =~= keys.to_set(),
        n <= keys.len(),
    ensures
        ({
            let end = read_from(
                start,
                keys.take(n as int).map_values(|key: KeyCode| KeyEvent::Up(key)),
            );
            if n == keys.len() && n > 0 {
                end == (Reading {
                    steps: start.steps.push(chord_text(start.chord)),
                    chord: Seq::empty(),
                    held: Set::empty(),
                })
            } else {
                end == (Reading { held: keys.skip(n as int).to_set(), ..start })
            }
        }),
    decreases n,
{
    let ups = keys.take(n as int).map_values(|key: KeyCode| KeyEvent::Up(key));
    if n == 0 {
        assert(keys.skip(0) =~= keys);
    } else {
        let m = (n - 1) as nat;
        lemma_releases(start, keys, m);
        assert(ups.drop_last() == keys.take(m as int).map_values(
            |key: KeyCode| KeyEvent::Up(key),
        ));
        let key = keys[m as int];
        let before = keys.skip(m as int);
        let after = keys.skip(n as int);
        assert(before[0] == key);
        assert(before.to_set().contains(key));
        assert(before.to_set().remove(key) =~= after.to_set()) by {
            assert forall|other: KeyCode| before.contains(other) && other != key implies
                after.contains(other) by {
                let i = choose|i: int| 0 <= i < before.len() && before[i] == other;
                assert(after[i - 1] == other);
            }
            assert forall|other: KeyCode| after.contains(other) implies before.contains(other)
                && other != key by {
                let i = choose|i: int| 0 <= i < after.len() && after[i] == other;
                assert(before[i + 1] == other);
                assert(keys[n + i] != keys[m as int]);
            }
        }
        if n < keys.len() {
            assert(after[0] == keys[n as int]);
            assert(after.to_set().contains(after[0]));
        } else {
            assert(after.to_set() =~= Set::<KeyCode>::empty());
        }
    }
}

/// A chord whose keys are each pressed once reads as one step.
proof fn lemma_chord_reads(start: Reading, keys: Seq<KeyCode>, duration: Duration)
    requires
        start.chord == Seq::<KeyCode>::empty(),
        start.held =~= Set::<KeyCode>::empty(),
        keys.len() > 0,
        keys.no_duplicates(),
    ensures
        read_from(start, chord_events(keys, duration)) == (Reading {
            steps: start.steps.push(chord_text(keys)),
            chord: Seq::empty(),
            held: Set::empty(),
        }),
{
    let downs = keys.map_values(|key: KeyCode| KeyEvent::Down(key));
    let pause = seq![KeyEvent::Wait(duration)];
    let back = keys.reverse();
    let ups = back.map_values(|key: KeyCode| KeyEvent::Up(key));
    lemma_read_apart(start, downs + pause, ups);
    lemma_read_apart(start, downs, pause);
    lemma_presses(start, keys);
    let pressed = read_from(start, downs);
    assert(pause.drop_last() == Seq::<KeyEvent>::empty());
    assert(read_from(pressed, pause.drop_last()) == pressed);
    assert(read_from(pressed, pause) == pressed);
    assert(back.to_set() =~= keys.to_set()) by {
        assert forall|key: KeyCode| back.contains(key) == keys.contains(key) by {
            if back.contains(key) {
                let i = choose|i: int| 0 <= i < back.len() && back[i] == key;
                assert(keys[keys.len() - 1 - i] == key);
            }
            if keys.contains(key) {
                let i = choose|i: int| 0 <= i < keys.len() && keys[i] == key;
                assert(back[keys.len() - 1 - i] == key);
            }
        }
    }
    lemma_releases(pressed, back, back.len());
    assert(back.take(back.len() as int) == back);
}

/// Reading keeps what holds of every reading, and never takes a step back.
proof fn lemma_read_from(start: Reading, events: Seq<KeyEvent>)
    requires
        start.wf(),
    ensures
        read_from(start, events).wf(),
        start.steps.is_prefix_of(read_from(start, events).steps),
    decreases events.len(),
{
    if events.len() > 0 {
        lemma_read_from(start, events.drop_last());
        lemma_read_on_wf(read_from(start, events.drop_last()), events.last());
    }
}

/// A key which is held down stays so while nothing lets go of it.
proof fn lemma_stays_held(start: Reading, events: Seq<KeyEvent>, key: KeyCode)
    requires
        start.wf(),
        start.held.contains(key),
        !events.contains(KeyEvent::Up(key)),
        !events.contains(KeyEvent::ReleaseAll),
    ensures
        read_from(start, events).held.contains(key),
    decreases events.len(),
{
    if events.len() > 0 {
        let earlier = events.drop_last();
        assert(events[events.len() - 1] == events.last());
        assert forall|event: KeyEvent| earlier.contains(event) implies events.contains(event) by {
            let i = choose|i: int| 0 <= i < earlier.len() && earlier[i] == event;
            assert(events[i] == event);
        }
        lemma_stays_held(start, earlier, key);
        let reading = read_from(start, earlier);
        match events.last() {
            KeyEvent::Up(other) => {
                if reading.held.contains(other) {
                    assert(reading.held.remove(other).contains(key));
                }
            },
            _ => {},
        }
    }
}

/// A key which is not held down stays so until it is pressed.
proof fn lemma_stays_up(start: Reading, events: Seq<KeyEvent>, key: KeyCode)
    requires
        !start.held.contains(key),
        !events.contains(KeyEvent::Down(key)),
    ensures
        !read_from(start, events).held.contains(key),
    decreases events.len(),
{
    if events.len() > 0 {
        let earlier = events.drop_last();
        assert(events[events.len() - 1] == events.last());
        assert forall|event: KeyEvent| earlier.contains(event) implies events.contains(event) by {
            let i = choose|i: int| 0 <= i < earlier.len() && earlier[i] == event;
            assert(events[i] == event);
        }
        lemma_stays_up(start, earlier, key);
    }
}

/// A key which is never released is called out: what is still held down when a
/// plan ends is its last step, marked as held.
pub proof fn a_key_never_released_is_called_out(
    before: Seq<KeyEvent>,
    key: KeyCode,
    after: Seq<KeyEvent>,
)
    requires
        !after.contains(KeyEvent::Up(key)),
        !after.contains(KeyEvent::ReleaseAll),
    ensures
        ({
            let plan = before + seq![KeyEvent::Down(key)] + after;
            let chord = read_from(unread(), plan).chord;
            &&& chord.contains(key)
            &&& plan_steps(plan).len() > 0
            &&& plan_steps(plan).last() == chord_text(chord) + " (held)"@
        }),
{
    let press = seq![KeyEvent::Down(key)];
    lemma_read_apart(unread(), before + press, after);
    lemma_read_apart(unread(), before, press);
    lemma_read_from(unread(), before);
    let reading = read_from(unread(), before);
    assert(press.drop_last() == Seq::<KeyEvent>::empty());
    assert(read_from(reading, press.drop_last()) == reading);
    let pressed = read_from(reading, press);
    lemma_read_on_wf(reading, KeyEvent::Down(key));
    lemma_read_from(pressed, after);
    lemma_stays_held(pressed, after, key);
    assert(read_from(pressed, after).chord.contains(key));
}

/// A release with no press before it is called out.
pub proof fn a_release_without_a_press_is_called_out(
    before: Seq<KeyEvent>,
    key: KeyCode,
    after: Seq<KeyEvent>,
)
    requires
        !before.contains(KeyEvent::Down(key)),
    ensures
        plan_steps(before + seq![KeyEvent::Up(key)] + after).contains(release_text(key)),
{
    let up = seq![KeyEvent::Up(key)];
    let plan = before + up + after;
    lemma_read_apart(unread(), before + up, after);
    lemma_read_apart(unread(), before, up);
    lemma_read_from(unread(), before);
    lemma_stays_up(unread(), before, key);
    let reading = read_from(unread(), before);
    assert(up.drop_last() == Seq::<KeyEvent>::empty());
    assert(read_from(reading, up.drop_last()) == reading);
    let called = read_from(reading, up);
    lemma_read_on_wf(reading, KeyEvent::Up(key));
    lemma_read_from(called, after);
    let at = reading.steps.len() as int;
    assert(called.steps[at] == release_text(key));
    assert(read_from(called, after).steps[at] == release_text(key));
    assert(plan_steps(plan)[at] == release_text(key));
}

/// The plan of some chords reads as those chords: each as its key names joined
/// by `+`, with a space between neighbours. Each chord has a key, and none of
/// its keys twice.
pub proof fn chords_read_as_they_are_written(
    chords: Seq<Seq<KeyCode>>,
    duration: Duration,
    interval: Duration,
)
    requires
        chords.len() > 0,
        forall|i: int|
            0 <= i < chords.len() ==> (#[trigger] chords[i]).len() > 0 && chords[i].no_duplicates(),
    ensures
        plan_text(chords_plan(chords, duration, interval)) == joined(
            chords.map_values(|chord: Seq<KeyCode>| chord_text(chord)),
            " "@,
        ),
{
    lemma_chords_read(chords, duration, interval);
}

/// Every chord of a plan is one finished step.
proof fn lemma_chords_read(chords: Seq<Seq<KeyCode>>, duration: Duration, interval: Duration)
    requires
        forall|i: int|
            0 <= i < chords.len() ==> (#[trigger] chords[i]).len() > 0 && chords[i].no_duplicates(),
    ensures
        read_from(unread(), chords_plan(chords, duration, interval)) == (Reading {
            steps: chords.map_values(|chord: Seq<KeyCode>| chord_text(chord)),
            chord: Seq::empty(),
            held: Set::empty(),
        }),
    decreases chords.len(),
{
    let texts = chords.map_values(|chord: Seq<KeyCode>| chord_text(chord));
    if chords.len() == 0 {
        assert(texts =~= Seq::<Seq<char>>::empty());
    } else if chords.len() == 1 {
        lemma_chord_reads(unread(), chords[0], duration);
        assert(unread().steps.push(chord_text(chords[0])) =~= texts);
    } else {
        let rest = chords.drop_last();
        assert forall|i: int| 0 <= i < rest.len() implies (#[trigger] rest[i]).len() > 0
            && rest[i].no_duplicates() by {
            assert(rest[i] == chords[i]);
        }
        lemma_chords_read(rest, duration, interval);
        let plan = chords_plan(rest, duration, interval);
        let pause = seq![KeyEvent::Wait(interval)];
        let read = read_from(unread(), plan);
        lemma_read_apart(unread(), plan + pause, chord_events(chords.last(), duration));
        lemma_read_apart(unread(), plan, pause);
        assert(pause.drop_last() == Seq::<KeyEvent>::empty());
        assert(read_from(read, pause.drop_last()) == read);
        assert(read_from(read, pause) == read);
        assert(chords.last() == chords[chords.len() - 1]);
        lemma_chord_reads(read, chords.last(), duration);
        assert(read.steps.push(chord_text(chords.last())) =~= texts);
    }
}

/// A plan lasts as long as its waits, one after the other.
pub proof fn a_plan_lasts_as_long_as_its_waits(events: Seq<KeyEvent>)
    ensures
        waits(events) == time_taken(events),
    decreases events.len(),
{
    if events.len() > 0 {
        a_plan_lasts_as_long_as_its_waits(events.drop_last());
    }
}

/// The plan of some chords lasts the time each is held, as often as there are
/// chords, and the gap between two, once less.
pub proof fn chords_last_as_long_as_they_are_paced(
    chords: Seq<Seq<KeyCode>>,
    duration: Duration,
    interval: Duration,
)
    requires
        chords.len() > 0,
    ensures
        waits(chords_plan(chords, duration, interval)) == chords.len() * duration.total_nanos() + (
        chords.len() - 1) * interval.total_nanos(),
{
    a_plan_lasts_as_long_as_its_waits(chords_plan(chords, duration, interval));
    chords_keep_their_pace(chords, duration, interval);
}

/// Releasing everything is called out, and finishes the chord which was being
/// assembled: whatever follows reads as it would on its own.
pub proof fn releasing_everything_starts_over(before: Seq<KeyEvent>, after: Seq<KeyEvent>)
    ensures
        ({
            let so_far = read_from(unread(), before);
            let done = if so_far.chord.len() > 0 {
                so_far.steps.push(chord_text(so_far.chord))
            } else {
                so_far.steps
            };
            plan_steps(before + seq![KeyEvent::ReleaseAll] + after) == done + seq![
                "(release everything)"@,
            ] + plan_steps(after)
        }),
{
    let all = seq![KeyEvent::ReleaseAll];
    let so_far = read_from(unread(), before);
    let done = if so_far.chord.len() > 0 {
        so_far.steps.push(chord_text(so_far.chord))
    } else {
        so_far.steps
    };
    lemma_read_apart(unread(), before + all, after);
    lemma_read_apart(unread(), before, all);
    lemma_read_from(unread(), before);
    assert(all.drop_last() == Seq::<KeyEvent>::empty());
    assert(read_from(so_far, all.drop_last()) == so_far);
    let released = read_from(so_far, all);
    let steps = done + seq!["(release everything)"@];
    assert(released.steps =~= steps);
    assert(released.chord =~= Seq::<KeyCode>::empty());
    assert(released.held =~= Set::<KeyCode>::empty());
    lemma_read_behind(released, unread(), after, steps);
    let last = read_from(unread(), after);
    if last.chord.len() > 0 {
        assert(steps + last.steps.push(chord_text(last.chord) + " (held)"@) =~= (steps
            + last.steps).push(chord_text(last.chord) + " (held)"@));
    }
    assert(plan_steps(before + all + after) =~= steps + plan_steps(after));
}

/// Steps which are done play no part in how further events read.
proof fn lemma_read_behind(
    start: Reading,
    other: Reading,
    events: Seq<KeyEvent>,
    done: Seq<Seq<char>>,
)
    requires
        start.steps == done + other.steps,
        start.chord == other.chord,
        start.held == other.held,
    ensures
        read_from(start, events).steps == done + read_from(other, events).steps,
        read_from(start, events).chord == read_from(other, events).chord,
        read_from(start, events).held == read_from(other, events).held,
    decreases events.len(),
{
    if events.len() > 0 {
        lemma_read_behind(start, other, events.drop_last(), done);
        let a = read_from(start, events.drop_last());
        let b = read_from(other, events.drop_last());
        let released = "(release everything)"@;
        assert forall|step: Seq<char>| #[trigger] (done + b.steps).push(step) == done
            + b.steps.push(step) by {
            assert((done + b.steps).push(step) =~= done + b.steps.push(step));
        }
        assert((done + b.steps).push(chord_text(b.chord)).push(released) =~= done + b.steps.push(
            chord_text(b.chord),
        ).push(released));
    }
}

} // verus!
