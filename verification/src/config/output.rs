//! Key-name resolution, the two output forms of a command, and the shared
//! `defaults:` pacing block.

use crate::errors::{user_error, Error, ErrorView};
use crate::output::keys::{
    self, is_entry, is_key_name, is_suggestion, key_name, name_of, nothing_to_suggest, KEYS,
};
use crate::output::{KeyCode, KeyEvent};
use crate::text::{fields, fields_of, joined, joined_texts_split_up_again, views};
use crate::time::Duration;
use vstd::prelude::*;

verus! {

/// A key referred to by its friendly name, resolved at load time.
#[derive(Debug, Clone, Copy, PartialEq, Eq, PartialOrd, Ord, Hash, Structural)]
pub struct KeyName(pub KeyCode);

impl KeyName {
    /// The code this name resolved to.
    pub fn code(self) -> (code: KeyCode)
        ensures
            code == self.0,
    {
        self.0
    }

    /// The friendly name.
    pub fn name(self) -> (name: String)
        ensures
            name@ == name_of(self.0),
    {
        key_name(self.0)
    }
}

/// The hint at the end of what is said of an unknown key name.
pub open spec fn is_hint(name: Seq<char>, hint: Seq<char>) -> bool {
    if nothing_to_suggest(name) {
        hint.len() == 0
    } else {
        exists|i: int|
            #[trigger] is_suggestion(name, i) && hint == " Did you mean '"@ + KEYS@[i].0@ + "'?"@
    }
}

/// What is said of an unknown key name, given the hint at the end.
pub open spec fn unknown_key(name: Seq<char>, hint: Seq<char>) -> ErrorView {
    user_error(
        "We don't recognize '"@ + name + "' as a key name."@ + hint,
        seq![
            "Key names are the lowercase evdev key names with their 'KEY_' prefix removed, e.g. 'a', '4', 'f5', 'space', 'enter', 'leftctrl' or 'kp1'."@,
            "The key reference page in the documentation lists every name we accept."@,
        ],
    )
}

/// Resolves a friendly key name, with a "did you mean" hint where it is
/// misspelt.
pub fn resolve(name: &str) -> (key: Result<KeyCode, Error>)
    ensures
        match key {
            Ok(key) => exists|i: int| #[trigger] is_entry(name@, i) && KEYS@[i].1 == key.code,
            Err(error) => {
                &&& !is_key_name(name@)
                &&& exists|hint: Seq<char>|
                    #[trigger] is_hint(name@, hint) && error@ == unknown_key(name@, hint)
            },
        },
{
    if let Some(key) = keys::from_name(name) {
        return Ok(key);
    }
    let hint = match keys::suggest(name) {
        Some(suggestion) => {
            let mut hint = " Did you mean '".to_owned();
            hint.append(suggestion);
            hint.append("'?");
            hint
        },
        None => String::new(),
    };
    assert(is_hint(name@, hint@)) by {
        if !nothing_to_suggest(name@) {
            let i = choose|i: int|
                #[trigger] is_suggestion(name@, i) && hint@ == " Did you mean '"@ + KEYS@[i].0@
                    + "'?"@;
            assert(is_suggestion(name@, i));
        }
    }
    let mut description = "We don't recognize '".to_owned();
    description.append(name);
    description.append("' as a key name.");
    description.append(hint.as_str());
    Err(
        Error::user(
            description,
            vec![
                "Key names are the lowercase evdev key names with their 'KEY_' prefix removed, e.g. 'a', '4', 'f5', 'space', 'enter', 'leftctrl' or 'kp1'.",
                "The key reference page in the documentation lists every name we accept.",
            ],
        ),
    )
}

/// The pacing applied to every compiled key plan: how long a press is held,
/// and the gap between consecutive presses.
#[derive(Debug, Clone, Copy, PartialEq, Eq, Structural)]
pub struct OutputDefaults {
    /// How long each chord is held down.
    pub duration: Duration,
    /// The gap left between one chord and the next.
    pub interval: Duration,
}

impl Default for OutputDefaults {
    fn default() -> (defaults: Self)
        ensures
            defaults.duration.wf(),
            defaults.duration.total_nanos() == 30_000_000,
            defaults.interval.wf(),
            defaults.interval.total_nanos() == 25_000_000,
    {
        OutputDefaults {
            duration: super::defaults::key_duration(),
            interval: super::defaults::key_interval(),
        }
    }
}

/// Keys which are pressed together, in the order they go down.
#[derive(Debug, Clone, PartialEq, Eq)]
pub struct Chord {
    pub keys: Vec<KeyName>,
}

impl View for Chord {
    type V = Seq<KeyCode>;

    open spec fn view(&self) -> Seq<KeyCode> {
        self.keys@.map_values(|key: KeyName| key.0)
    }
}

/// Whether a name is a key's.
pub open spec fn is_named(name: Seq<char>, key: KeyCode) -> bool {
    exists|i: int| #[trigger] is_entry(name, i) && KEYS@[i].1 == key.code
}

/// Whether each of some names is the key's in its place.
pub open spec fn are_named(names: Seq<Seq<char>>, keys: Seq<KeyCode>) -> bool {
    &&& names.len() == keys.len()
    &&& forall|n: int| 0 <= n < names.len() ==> #[trigger] is_named(names[n], keys[n])
}

/// Whether a name is the first of some which is no key's.
pub open spec fn is_first_unknown(names: Seq<Seq<char>>, n: int) -> bool {
    &&& 0 <= n < names.len()
    &&& !is_key_name(names[n])
    &&& forall|m: int| 0 <= m < n ==> is_key_name(#[trigger] names[m])
}

impl Chord {
    /// Parses a chord the way a profile writes it: a key's name, or several
    /// joined by `+`.
    pub fn parse(text: &str) -> (chord: Result<Chord, Error>)
        ensures
            match chord {
                Ok(chord) => are_named(fields(text@, '+'), chord@),
                Err(error) => exists|n: int, hint: Seq<char>|
                    {
                        &&& #[trigger] is_first_unknown(fields(text@, '+'), n)
                        &&& #[trigger] is_hint(fields(text@, '+')[n], hint)
                        &&& error@ == unknown_key(fields(text@, '+')[n], hint)
                    },
            },
    {
        let names = fields_of(text, '+');
        let ghost all = fields(text@, '+');
        let mut keys: Vec<KeyName> = Vec::new();
        for i in 0..names.len()
            invariant
                all == fields(text@, '+'),
                views(names@) == all,
                keys@.len() == i,
                forall|n: int| 0 <= n < i ==> #[trigger] is_named(all[n], keys@[n].0),
        {
            assert(all[i as int] == names@[i as int]@);
            match resolve(names[i].as_str()) {
                Ok(key) => {
                    assert(is_named(all[i as int], key));
                    keys.push(KeyName(key));
                },
                Err(error) => {
                    assert forall|m: int| 0 <= m < i implies is_key_name(#[trigger] all[m]) by {
                        assert(is_named(all[m], keys@[m].0));
                    }
                    assert(is_first_unknown(all, i as int));
                    return Err(error);
                },
            }
        }
        let chord = Chord { keys };
        assert forall|n: int| 0 <= n < all.len() implies #[trigger] is_named(all[n], chord@[n]) by {
            assert(chord@[n] == keys@[n].0);
        }
        Ok(chord)
    }
}

/// One step of the explicit output form.
#[derive(Debug, Clone, Copy, PartialEq, Eq, Structural)]
pub enum RawEvent {
    /// A key goes down.
    Down(KeyName),
    /// A key comes back up.
    Up(KeyName),
    /// Nothing happens for a while.
    Wait(Duration),
}

/// The keys of each of some chords.
pub open spec fn chord_views(chords: Seq<Chord>) -> Seq<Seq<KeyCode>> {
    chords.map_values(|chord: Chord| chord@)
}

/// The events of one chord: its keys go down in order, are held, and come back
/// up in reverse.
pub open spec fn chord_events(chord: Seq<KeyCode>, duration: Duration) -> Seq<KeyEvent> {
    chord.map_values(|key: KeyCode| KeyEvent::Down(key)) + seq![KeyEvent::Wait(duration)]
        + chord.reverse().map_values(|key: KeyCode| KeyEvent::Up(key))
}

/// The plan of some chords: one after the other, with a gap between
/// neighbours.
pub open spec fn chords_plan(
    chords: Seq<Seq<KeyCode>>,
    duration: Duration,
    interval: Duration,
) -> Seq<KeyEvent>
    decreases chords.len(),
{
    if chords.len() == 0 {
        Seq::empty()
    } else if chords.len() == 1 {
        chord_events(chords[0], duration)
    } else {
        chords_plan(chords.drop_last(), duration, interval) + seq![KeyEvent::Wait(interval)]
            + chord_events(chords.last(), duration)
    }
}

/// Compiles the shorthand output form into a plan.
pub fn compile_chords(chords: &[Chord], duration: Duration, interval: Duration) -> (plan: Vec<
    KeyEvent,
>)
    ensures
        plan@ == chords_plan(chord_views(chords@), duration, interval),
{
    let mut plan: Vec<KeyEvent> = Vec::new();
    let ghost all = chord_views(chords@);
    assert(all.take(0) == Seq::<Seq<KeyCode>>::empty());
    for i in 0..chords.len()
        invariant
            all == chord_views(chords@),
            plan@ == chords_plan(all.take(i as int), duration, interval),
    {
        let ghost earlier = plan@;
        if i > 0 {
            plan.push(KeyEvent::Wait(interval));
        }
        compile_chord(&chords[i], duration, &mut plan);
        proof {
            let now = all.take(i + 1);
            assert(now.drop_last() == all.take(i as int));
            assert(now.last() == chords@[i as int]@);
            if i == 0 {
                assert(earlier == Seq::<KeyEvent>::empty());
                assert(plan@ == chord_events(now[0], duration));
            } else {
                assert(earlier.push(KeyEvent::Wait(interval)) == earlier + seq![
                    KeyEvent::Wait(interval),
                ]);
            }
        }
    }
    assert(all.take(chords.len() as int) == all);
    plan
}

/// Appends the events of one chord to a plan.
fn compile_chord(chord: &Chord, duration: Duration, plan: &mut Vec<KeyEvent>)
    ensures
        final(plan)@ == old(plan)@ + chord_events(chord@, duration),
{
    let ghost before = plan@;
    let ghost downs = chord@.map_values(|key: KeyCode| KeyEvent::Down(key));
    let ghost ups = chord@.reverse().map_values(|key: KeyCode| KeyEvent::Up(key));
    for i in 0..chord.keys.len()
        invariant
            downs == chord@.map_values(|key: KeyCode| KeyEvent::Down(key)),
            plan@ == before + downs.take(i as int),
    {
        plan.push(KeyEvent::Down(chord.keys[i].code()));
        assert(downs.take(i + 1) == downs.take(i as int).push(downs[i as int]));
    }
    plan.push(KeyEvent::Wait(duration));
    let ghost held = plan@;
    assert(held == before + downs + seq![KeyEvent::Wait(duration)]);
    for i in 0..chord.keys.len()
        invariant
            ups == chord@.reverse().map_values(|key: KeyCode| KeyEvent::Up(key)),
            plan@ == held + ups.take(i as int),
    {
        plan.push(KeyEvent::Up(chord.keys[chord.keys.len() - 1 - i].code()));
        assert(ups.take(i + 1) == ups.take(i as int).push(ups[i as int]));
    }
    assert(plan@ == before + chord_events(chord@, duration));
}

/// The event a step of the explicit output form stands for.
pub open spec fn event_of(step: RawEvent) -> KeyEvent {
    match step {
        RawEvent::Down(key) => KeyEvent::Down(key.0),
        RawEvent::Up(key) => KeyEvent::Up(key.0),
        RawEvent::Wait(duration) => KeyEvent::Wait(duration),
    }
}

/// Compiles the explicit output form into a plan, one event per step.
pub fn compile_events(steps: &[RawEvent]) -> (plan: Vec<KeyEvent>)
    ensures
        plan@ == steps@.map_values(|step: RawEvent| event_of(step)),
{
    let mut plan: Vec<KeyEvent> = Vec::new();
    for i in 0..steps.len()
        invariant
            plan@ == steps@.take(i as int).map_values(|step: RawEvent| event_of(step)),
    {
        plan.push(
            match steps[i] {
                RawEvent::Down(key) => KeyEvent::Down(key.code()),
                RawEvent::Up(key) => KeyEvent::Up(key.code()),
                RawEvent::Wait(duration) => KeyEvent::Wait(duration),
            },
        );
        assert(steps@.take(i + 1) == steps@.take(i as int).push(steps@[i as int]));
    }
    assert(steps@.take(steps.len() as int) == steps@);
    plan
}

/// How long a plan takes to play: the sum of its waits, in nanoseconds.
pub open spec fn time_taken(plan: Seq<KeyEvent>) -> nat
    decreases plan.len(),
{
    if plan.len() == 0 {
        0
    } else {
        time_taken(plan.drop_last()) + match plan.last() {
            KeyEvent::Wait(wait) => wait.total_nanos(),
            _ => 0,
        }
    }
}

/// Two plans one after the other take as long as both.
pub proof fn plans_take_their_time(first: Seq<KeyEvent>, second: Seq<KeyEvent>)
    ensures
        time_taken(first + second) == time_taken(first) + time_taken(second),
    decreases second.len(),
{
    if second.len() == 0 {
        assert(first + second == first);
    } else {
        plans_take_their_time(first, second.drop_last());
        assert((first + second).drop_last() == first + second.drop_last());
    }
}

/// Pressing and releasing takes no time.
proof fn lemma_no_waits(plan: Seq<KeyEvent>)
    requires
        forall|i: int| 0 <= i < plan.len() ==> !((#[trigger] plan[i]) is Wait),
    ensures
        time_taken(plan) == 0,
    decreases plan.len(),
{
    if plan.len() > 0 {
        let less = plan.drop_last();
        assert forall|i: int| 0 <= i < less.len() implies !((#[trigger] less[i]) is Wait) by {
            assert(less[i] == plan[i]);
        }
        lemma_no_waits(less);
    }
}

/// A single wait takes as long as it says.
proof fn lemma_one_wait(wait: Duration)
    ensures
        time_taken(seq![KeyEvent::Wait(wait)]) == wait.total_nanos(),
{
    let one = seq![KeyEvent::Wait(wait)];
    assert(one.drop_last() == Seq::<KeyEvent>::empty());
    assert(time_taken(one.drop_last()) == 0);
}

/// A chord takes as long as it is held.
proof fn lemma_chord_time(chord: Seq<KeyCode>, duration: Duration)
    ensures
        time_taken(chord_events(chord, duration)) == duration.total_nanos(),
{
    let downs = chord.map_values(|key: KeyCode| KeyEvent::Down(key));
    let ups = chord.reverse().map_values(|key: KeyCode| KeyEvent::Up(key));
    let hold = seq![KeyEvent::Wait(duration)];
    lemma_no_waits(downs);
    lemma_no_waits(ups);
    lemma_one_wait(duration);
    plans_take_their_time(downs, hold);
    plans_take_their_time(downs + hold, ups);
}

/// Chords keep their pace: each is held for the duration, and the interval
/// passes between every two neighbours, so some chords take the duration as
/// often as there are chords, and the interval once less.
pub proof fn chords_keep_their_pace(
    chords: Seq<Seq<KeyCode>>,
    duration: Duration,
    interval: Duration,
)
    requires
        chords.len() > 0,
    ensures
        time_taken(chords_plan(chords, duration, interval)) == chords.len()
            * duration.total_nanos() + (chords.len() - 1) * interval.total_nanos(),
    decreases chords.len(),
{
    let d = duration.total_nanos() as int;
    let p = interval.total_nanos() as int;
    let n = chords.len() as int;
    lemma_chord_time(chords.last(), duration);
    if n > 1 {
        let fewer = chords.drop_last();
        let plan = chords_plan(fewer, duration, interval);
        let pause = seq![KeyEvent::Wait(interval)];
        chords_keep_their_pace(fewer, duration, interval);
        lemma_one_wait(interval);
        plans_take_their_time(plan, pause);
        plans_take_their_time(plan + pause, chord_events(chords.last(), duration));
        assert(n * d == (n - 1) * d + d) by (nonlinear_arith);
        assert((n - 1) * p == (n - 2) * p + p) by (nonlinear_arith);
    } else {
        assert(1 * d == d);
        assert(0 * p == 0);
    }
}

/// Where the events of chord `i` start in a plan: each chord before it takes two
/// events for each of its keys, one for being held, and one for the gap behind
/// it.
pub open spec fn chord_start(chords: Seq<Seq<KeyCode>>, i: int) -> int
    decreases i,
{
    if i <= 0 {
        0
    } else {
        chord_start(chords, i - 1) + 2 * chords[i - 1].len() + 2
    }
}

/// Where a chord starts depends on those before it alone.
proof fn lemma_chord_start(chords: Seq<Seq<KeyCode>>, fewer: Seq<Seq<KeyCode>>, i: int)
    requires
        0 <= i <= fewer.len() <= chords.len(),
        fewer == chords.take(fewer.len() as int),
    ensures
        chord_start(chords, i) == chord_start(fewer, i),
        chord_start(chords, i) >= 0,
    decreases i,
{
    if i > 0 {
        lemma_chord_start(chords, fewer, i - 1);
        assert(fewer[i - 1] == chords[i - 1]);
    }
}

/// A plan is as long as its chords and the gaps between them.
proof fn lemma_plan_len(chords: Seq<Seq<KeyCode>>, duration: Duration, interval: Duration)
    ensures
        chords.len() > 0 ==> chords_plan(chords, duration, interval).len() == chord_start(
            chords,
            chords.len() as int,
        ) - 1,
    decreases chords.len(),
{
    let n = chords.len() as int;
    if n > 1 {
        let fewer = chords.drop_last();
        lemma_plan_len(fewer, duration, interval);
        assert(fewer == chords.take(n - 1));
        lemma_chord_start(chords, fewer, n - 1);
    } else if n == 1 {
        assert(chord_start(chords, 0) == 0);
    }
}

/// Each chord is pressed in its turn: its keys go down in the order they are
/// written, are held together for the duration, and come up in reverse, and the
/// interval passes before it, unless it is the first.
pub proof fn each_chord_is_pressed_in_its_turn(
    chords: Seq<Seq<KeyCode>>,
    duration: Duration,
    interval: Duration,
    i: int,
)
    requires
        0 <= i < chords.len(),
    ensures
        ({
            let plan = chords_plan(chords, duration, interval);
            let start = chord_start(chords, i);
            let width = chords[i].len() as int;
            &&& 0 <= start
            &&& start + 2 * width + 1 <= plan.len()
            &&& i == 0 ==> start == 0
            &&& i > 0 ==> start > 0 && plan[start - 1] == KeyEvent::Wait(interval)
            &&& i == chords.len() - 1 ==> plan.len() == start + 2 * width + 1
            &&& forall|k: int|
                0 <= k < width ==> #[trigger] plan[start + k] == KeyEvent::Down(chords[i][k])
            &&& plan[start + width] == KeyEvent::Wait(duration)
            &&& forall|k: int|
                0 <= k < width ==> #[trigger] plan[start + width + 1 + k] == KeyEvent::Up(
                    chords[i][width - 1 - k],
                )
        }),
    decreases chords.len(),
{
    let n = chords.len() as int;
    let plan = chords_plan(chords, duration, interval);
    let start = chord_start(chords, i);
    let width = chords[i].len() as int;
    let own = chord_events(chords[i], duration);
    lemma_plan_len(chords, duration, interval);
    lemma_chord_start(chords, chords.take(n), i);
    lemma_chord_start(chords, chords.take(n), n);
    if n > 1 {
        let fewer = chords.drop_last();
        let earlier = chords_plan(fewer, duration, interval);
        assert(fewer == chords.take(n - 1));
        lemma_plan_len(fewer, duration, interval);
        lemma_chord_start(chords, fewer, n - 1);
        if i < n - 1 {
            each_chord_is_pressed_in_its_turn(fewer, duration, interval, i);
            lemma_chord_start(chords, fewer, i);
            assert(fewer[i] == chords[i]);
            assert forall|k: int| 0 <= k < earlier.len() implies #[trigger] plan[k]
                == earlier[k] by {}
            assert forall|k: int| 0 <= k < width implies #[trigger] plan[start + k]
                == KeyEvent::Down(chords[i][k]) by {
                assert(plan[start + k] == earlier[start + k]);
            }
            assert forall|k: int| 0 <= k < width implies #[trigger] plan[start + width + 1 + k]
                == KeyEvent::Up(chords[i][width - 1 - k]) by {
                assert(plan[start + width + 1 + k] == earlier[start + width + 1 + k]);
            }
        } else {
            assert(start == earlier.len() + 1);
            assert forall|k: int| 0 <= k < own.len() implies #[trigger] plan[start + k]
                == own[k] by {}
            assert forall|k: int| 0 <= k < width implies #[trigger] plan[start + width + 1 + k]
                == KeyEvent::Up(chords[i][width - 1 - k]) by {
                assert(plan[start + (width + 1 + k)] == own[width + 1 + k]);
            }
        }
    } else {
        assert(plan == own);
    }
}

/// Each step of the explicit form is taken over as it is, in its place.
pub proof fn steps_are_taken_one_for_one(steps: Seq<RawEvent>, i: int)
    requires
        0 <= i < steps.len(),
    ensures
        ({
            let plan = steps.map_values(|step: RawEvent| event_of(step));
            &&& plan.len() == steps.len()
            &&& steps[i] matches RawEvent::Down(key) ==> plan[i] == KeyEvent::Down(key.0)
            &&& steps[i] matches RawEvent::Up(key) ==> plan[i] == KeyEvent::Up(key.0)
            &&& steps[i] matches RawEvent::Wait(wait) ==> plan[i] == KeyEvent::Wait(wait)
        }),
{
}

/// No unknown name is passed over: where there is one, the first is found, no
/// later than it.
pub proof fn the_first_unknown_key_is_found(names: Seq<Seq<char>>, m: int)
    requires
        0 <= m < names.len(),
        !is_key_name(names[m]),
    ensures
        exists|n: int| n <= m && #[trigger] is_first_unknown(names, n),
    decreases m,
{
    if forall|k: int| 0 <= k < m ==> is_key_name(#[trigger] names[k]) {
        assert(is_first_unknown(names, m));
    } else {
        let k = choose|k: int| 0 <= k < m && !is_key_name(#[trigger] names[k]);
        the_first_unknown_key_is_found(names, k);
    }
}

/// A chord which joins the names of some keys stands for just those keys, in the
/// order they are named.
pub proof fn a_chord_stands_for_the_keys_it_names(
    names: Seq<Seq<char>>,
    keys: Seq<KeyCode>,
    chord: Seq<KeyCode>,
)
    requires
        names.len() > 0,
        forall|i: int| 0 <= i < names.len() ==> !(#[trigger] names[i]).contains('+'),
        are_named(names, keys),
        are_named(fields(joined(names, seq!['+']), '+'), chord),
    ensures
        chord == keys,
{
    joined_texts_split_up_again(names, '+');
    assert forall|n: int| 0 <= n < names.len() implies chord[n] == keys[n] by {
        assert(is_named(names[n], keys[n]));
        assert(is_named(names[n], chord[n]));
        let i = choose|i: int| #[trigger] is_entry(names[n], i) && KEYS@[i].1 == keys[n].code;
        let j = choose|j: int| #[trigger] is_entry(names[n], j) && KEYS@[j].1 == chord[n].code;
        if i < j {
            assert(KEYS@[i].0@ != names[n]);
        } else if j < i {
            assert(KEYS@[j].0@ != names[n]);
        }
    }
    assert(chord =~= keys);
}

} // verus!
