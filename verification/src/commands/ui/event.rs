//! The single stream of things a session has to say, and the bounded log the
//! terminal UI draws them from.
//!
//! Everything a session reports (an utterance it heard, a command it matched,
//! a hotkey mute, a line the wrapped application printed, a failure) becomes
//! one [`UiEvent`]. Plain mode prints each as a line; the terminal UI keeps
//! them in an [`EventLog`].
//!
//! The log is not a transcript of the stream: a recognition is **one** entry
//! which upgrades in place, so an utterance and the command it resolved to
//! share a line. See [`EventLog::push_at`].

use crate::text::{
    a_part_occurs, a_part_still_occurs, debug_form, debug_of, every_joined_text_occurs, join,
    joined, occurs_in, padded, padded_of, signed_decimal, signed_decimal_of, views,
};
use std::collections::VecDeque;
use vstd::arithmetic::div_mod::lemma_mod_mod;
use vstd::prelude::*;

verus! {

/// How many entries the terminal UI keeps in its scrollback.
///
/// A session can be left running for an entire game, so the log has to be
/// bounded: the oldest entry is dropped once this many are held.
pub const SCROLLBACK: usize = 1000;

/// The dot which leads every line in the terminal UI's log.
pub const DOT: &'static str = "●";

/// The colors a log line is drawn in.
#[derive(Debug, Clone, Copy, PartialEq, Eq, Structural)]
pub enum Color {
    Red,
    Green,
    Yellow,
    Blue,
    Cyan,
    Gray,
    DarkGray,
    White,
}

/// Everything a session reports, from whichever part of the pipeline saw it.
#[derive(Debug, Clone, PartialEq, Eq)]
pub enum UiEvent {
    /// A finalized utterance, as the matcher receives it.
    Heard(String),
    /// A partial result on its way to becoming an utterance.
    Hearing(String),
    /// The recognizer was reset because the hotkey muted us.
    Muted,
    /// A command matched: in `run` it is being played, in `test` it is what
    /// would have been played.
    Matched { name: String, plan: String },
    /// A command in flight was cut short because listening stopped.
    Interrupted(String),
    /// A command the matcher had already queued was thrown away unplayed.
    Discarded(String),
    /// The hotkey changed the listening state.
    Listening(bool),
    /// A line the wrapped application wrote.
    Child { program: String, line: String },
    /// The wrapped application exited.
    ChildExited { program: String, code: i32 },
    /// Something went wrong which does not stop the session.
    Warning(String),
    /// Something in the pipeline failed in a way the user should see.
    Error(String),
}

/// One line of the log: when it happened, a dot in the entry's color, and its
/// text in the color it is drawn in, where it has one of its own.
#[derive(Debug, Clone, PartialEq, Eq)]
pub struct LogLine {
    /// Seconds since the Unix epoch.
    pub at: u64,
    pub dot: Color,
    pub text: String,
    pub style: Option<Color>,
}

/// A [`LogLine`] in mathematical terms.
#[verifier::ext_equal]
pub struct LogLineView {
    pub at: u64,
    pub dot: Color,
    pub text: Seq<char>,
    pub style: Option<Color>,
}

impl View for LogLine {
    type V = LogLineView;

    open spec fn view(&self) -> LogLineView {
        LogLineView { at: self.at, dot: self.dot, text: self.text@, style: self.style }
    }
}

impl LogLine {
    /// The whole line as text, behind the time of day it shows.
    pub fn render(&self, clock: &str) -> (text: String)
        ensures
            text@ == clock@ + " "@ + "●"@ + " "@ + self@.text,
    {
        let mut text = clock.to_owned();
        text.append(" ");
        text.append(DOT);
        text.append(" ");
        text.append(self.text.as_str());
        text
    }
}

impl UiEvent {
    /// The line this event prints in plain mode.
    pub open spec fn spec_plain_line(&self) -> Seq<char> {
        match self {
            UiEvent::Heard(text) => "heard: "@ + debug_form(text@),
            UiEvent::Hearing(text) => "hearing: "@ + debug_form(text@),
            UiEvent::Muted => "hearing: (muted)"@,
            UiEvent::Matched { name, plan } => "matched: "@ + debug_form(name@) + " → "@ + plan@,
            UiEvent::Interrupted(name) => "interrupted: "@ + debug_form(name@),
            UiEvent::Discarded(name) => "discarded: "@ + debug_form(name@),
            UiEvent::Listening(on) => if *on { "listening: on"@ } else { "listening: off"@ },
            UiEvent::Child { program, line } => program@ + ": "@ + line@,
            UiEvent::ChildExited { program, code } => program@ + " exited with code "@
                + signed_decimal(*code as int),
            UiEvent::Warning(message) => "warning: "@ + message@,
            UiEvent::Error(message) => "error: "@ + message@,
        }
    }

    /// The color of the dot this event leads its log line with.
    pub open spec fn spec_color(&self) -> Color {
        match self {
            UiEvent::Matched { .. } => Color::Green,
            UiEvent::Heard(_) => Color::Gray,
            UiEvent::Hearing(_) | UiEvent::Muted => Color::DarkGray,
            UiEvent::Interrupted(_) | UiEvent::Discarded(_) | UiEvent::Warning(_) => Color::Yellow,
            UiEvent::Error(_) => Color::Red,
            UiEvent::Child { .. } => Color::White,
            UiEvent::Listening(_) | UiEvent::ChildExited { .. } => Color::Blue,
        }
    }

    /// The color the event's text is drawn in, where it has one of its own.
    pub open spec fn spec_text_style(&self) -> Option<Color> {
        match self {
            UiEvent::Hearing(_) | UiEvent::Muted => Some(Color::DarkGray),
            UiEvent::Child { .. } | UiEvent::ChildExited { .. } => Some(Color::Gray),
            UiEvent::Warning(_) => Some(Color::Yellow),
            UiEvent::Error(_) => Some(Color::Red),
            _ => None,
        }
    }

    /// The event as one log line.
    pub open spec fn spec_line(&self, at: u64) -> LogLineView {
        LogLineView {
            at,
            dot: self.spec_color(),
            text: self.spec_plain_line(),
            style: self.spec_text_style(),
        }
    }

    /// The line this event prints in plain mode.
    ///
    /// These strings are load-bearing: scripts parse them, so they must not
    /// drift.
    pub fn plain_line(&self) -> (line: String)
        ensures
            line@ == self.spec_plain_line(),
    {
        match self {
            UiEvent::Heard(text) => labelled("heard: ", text.as_str()),
            UiEvent::Hearing(text) => labelled("hearing: ", text.as_str()),
            UiEvent::Muted => "hearing: (muted)".to_owned(),
            UiEvent::Matched { name, plan } => {
                let mut line = labelled("matched: ", name.as_str());
                line.append(" → ");
                line.append(plan.as_str());
                line
            },
            UiEvent::Interrupted(name) => labelled("interrupted: ", name.as_str()),
            UiEvent::Discarded(name) => labelled("discarded: ", name.as_str()),
            UiEvent::Listening(on) => if *on {
                "listening: on".to_owned()
            } else {
                "listening: off".to_owned()
            },
            UiEvent::Child { program, line } => {
                let mut text = program.clone();
                text.append(": ");
                text.append(line.as_str());
                text
            },
            UiEvent::ChildExited { program, code } => {
                let mut text = program.clone();
                text.append(" exited with code ");
                text.append(signed_decimal_of(*code).as_str());
                text
            },
            UiEvent::Warning(message) => {
                let mut text = "warning: ".to_owned();
                text.append(message.as_str());
                text
            },
            UiEvent::Error(message) => {
                let mut text = "error: ".to_owned();
                text.append(message.as_str());
                text
            },
        }
    }

    /// The color of the dot this event leads its log line with.
    pub fn color(&self) -> (color: Color)
        ensures
            color == self.spec_color(),
    {
        match self {
            UiEvent::Matched { .. } => Color::Green,
            UiEvent::Heard(_) => Color::Gray,
            UiEvent::Hearing(_) | UiEvent::Muted => Color::DarkGray,
            UiEvent::Interrupted(_) | UiEvent::Discarded(_) | UiEvent::Warning(_) => Color::Yellow,
            UiEvent::Error(_) => Color::Red,
            UiEvent::Child { .. } => Color::White,
            UiEvent::Listening(_) | UiEvent::ChildExited { .. } => Color::Blue,
        }
    }

    /// The color the event's text is drawn in; the dot carries the severity,
    /// so only the quietest and loudest events restyle their text.
    pub fn text_style(&self) -> (style: Option<Color>)
        ensures
            style == self.spec_text_style(),
    {
        match self {
            UiEvent::Hearing(_) | UiEvent::Muted => Some(Color::DarkGray),
            UiEvent::Child { .. } | UiEvent::ChildExited { .. } => Some(Color::Gray),
            UiEvent::Warning(_) => Some(Color::Yellow),
            UiEvent::Error(_) => Some(Color::Red),
            _ => None,
        }
    }

    /// This event as one log line. The text is the same as the plain report's,
    /// so the two modes never disagree about what happened.
    pub fn line(&self, at: u64) -> (line: LogLine)
        ensures
            line@ == self.spec_line(at),
    {
        LogLine { at, dot: self.color(), text: self.plain_line(), style: self.text_style() }
    }
}

/// A label, and a quoted text behind it.
pub(crate) fn labelled(label: &str, text: &str) -> (line: String)
    ensures
        line@ == label@ + debug_form(text@),
{
    let mut line = label.to_owned();
    line.append(debug_of(text).as_str());
    line
}

/// One command a recognition resolved to.
#[derive(Debug, Clone, PartialEq, Eq)]
pub struct Resolved {
    pub name: String,
    pub plan: String,
}

/// One line of the log.
#[derive(Debug, Clone, PartialEq, Eq)]
pub enum Entry {
    /// A recognition: what was heard, and every command it resolved to. Starts
    /// empty (grey) and upgrades in place (green) as the matcher resolves it.
    Recognition { text: String, matches: Vec<Resolved> },
    /// Anything else, exactly as it was reported.
    Other(UiEvent),
}

/// A command a recognition resolved to, in mathematical terms.
#[verifier::ext_equal]
pub struct ResolvedView {
    pub name: Seq<char>,
    pub plan: Seq<char>,
}

impl View for Resolved {
    type V = ResolvedView;

    open spec fn view(&self) -> ResolvedView {
        ResolvedView { name: self.name@, plan: self.plan@ }
    }
}

/// An [`Entry`] in mathematical terms.
#[verifier::ext_equal]
pub enum EntryView {
    Recognition { text: Seq<char>, matches: Seq<ResolvedView> },
    Other(UiEvent),
}

impl View for Entry {
    type V = EntryView;

    open spec fn view(&self) -> EntryView {
        match self {
            Entry::Recognition { text, matches } => EntryView::Recognition {
                text: text@,
                matches: matches@.map_values(|resolved: Resolved| resolved@),
            },
            Entry::Other(event) => EntryView::Other(*event),
        }
    }
}

impl EntryView {
    /// Whether this is a recognition nothing has matched yet.
    pub open spec fn unresolved(self) -> bool {
        self matches EntryView::Recognition { text, matches } && matches.len() == 0
    }

    /// The entry as one log line. A recognition says what was heard, and the
    /// commands it resolved to once there are any.
    pub open spec fn line(self, at: u64) -> LogLineView {
        match self {
            EntryView::Other(event) => event.spec_line(at),
            EntryView::Recognition { text, matches } => if matches.len() == 0 {
                LogLineView { at, dot: Color::Gray, text: debug_form(text), style: None }
            } else {
                LogLineView {
                    at,
                    dot: Color::Green,
                    text: debug_form(text) + " → "@ + joined(
                        matches.map_values(
                            |resolved: ResolvedView|
                                resolved.name + " ("@ + resolved.plan + ")"@,
                        ),
                        ", "@,
                    ),
                    style: None,
                }
            },
        }
    }
}

impl Entry {
    /// Whether this is a recognition nothing has matched yet.
    pub fn is_unresolved(&self) -> (is: bool)
        ensures
            is == self@.unresolved(),
    {
        match self {
            Entry::Recognition { matches, .. } => matches.len() == 0,
            Entry::Other(_) => false,
        }
    }

    /// The entry as one log line.
    pub fn line(&self, at: u64) -> (line: LogLine)
        ensures
            line@ == self@.line(at),
    {
        match self {
            Entry::Other(event) => event.line(at),
            Entry::Recognition { text, matches } => {
                let quoted = debug_of(text.as_str());
                if matches.len() == 0 {
                    return LogLine { at, dot: Color::Gray, text: quoted, style: None };
                }
                let mut parts: Vec<String> = Vec::new();
                let ghost wording = |resolved: ResolvedView|
                    resolved.name + " ("@ + resolved.plan + ")"@;
                let ghost all = matches@.map_values(|resolved: Resolved| resolved@);
                assert(views(parts@) == all.take(0).map_values(wording));
                for i in 0..matches.len()
                    invariant
                        all == matches@.map_values(|resolved: Resolved| resolved@),
                        wording == (|resolved: ResolvedView|
                            resolved.name + " ("@ + resolved.plan + ")"@),
                        views(parts@) == all.take(i as int).map_values(wording),
                {
                    let mut part = matches[i].name.clone();
                    part.append(" (");
                    part.append(matches[i].plan.as_str());
                    part.append(")");
                    let ghost was = parts@;
                    parts.push(part);
                    assert(views(parts@) == views(was).push(part@));
                    assert(all.take(i + 1) == all.take(i as int).push(all[i as int]));
                    assert(all.take(i + 1).map_values(wording) == all.take(i as int).map_values(
                        wording,
                    ).push(wording(all[i as int])));
                }
                assert(all.take(matches.len() as int) == all);
                let mut wording_text = quoted;
                wording_text.append(" → ");
                wording_text.append(join(&parts, ", ").as_str());
                LogLine { at, dot: Color::Green, text: wording_text, style: None }
            },
        }
    }
}

/// The first entry nothing has matched yet, or as many as there are where there
/// is none.
pub open spec fn first_unresolved(entries: Seq<(u64, EntryView)>) -> nat
    decreases entries.len(),
{
    if entries.len() == 0 || entries[0].1.unresolved() {
        0
    } else {
        1 + first_unresolved(entries.drop_first())
    }
}

/// One more than the index of the newest recognition, or nothing where there is
/// none.
pub open spec fn after_last_recognition(entries: Seq<(u64, EntryView)>) -> nat
    decreases entries.len(),
{
    if entries.len() == 0 || entries.last().1 is Recognition {
        entries.len()
    } else {
        after_last_recognition(entries.drop_last())
    }
}

/// The entry the next match should join: the oldest recognition nothing has
/// matched yet, or failing that the newest recognition of all.
pub open spec fn next_to_match(entries: Seq<(u64, EntryView)>) -> Option<int> {
    if first_unresolved(entries) < entries.len() {
        Some(first_unresolved(entries) as int)
    } else if after_last_recognition(entries) > 0 {
        Some(after_last_recognition(entries) - 1)
    } else {
        None
    }
}

/// An entry with one more command it resolved to.
pub open spec fn with_match(entry: EntryView, resolved: ResolvedView) -> EntryView {
    match entry {
        EntryView::Recognition { text, matches } => EntryView::Recognition {
            text,
            matches: matches.push(resolved),
        },
        other => other,
    }
}

/// Some entries once an event has been recorded, however many they are.
pub open spec fn recorded(entries: Seq<(u64, EntryView)>, at: u64, event: UiEvent) -> Seq<
    (u64, EntryView),
> {
    match event {
        UiEvent::Heard(text) => entries.push(
            (at, EntryView::Recognition { text: text@, matches: Seq::empty() }),
        ),
        UiEvent::Matched { name, plan } => match next_to_match(entries) {
            Some(i) => entries.update(
                i,
                (
                    entries[i].0,
                    with_match(entries[i].1, ResolvedView { name: name@, plan: plan@ }),
                ),
            ),
            None => entries.push((at, EntryView::Other(event))),
        },
        _ => entries.push((at, EntryView::Other(event))),
    }
}

/// The last of some entries, as many as there is room for.
pub open spec fn newest<T>(entries: Seq<T>, room: nat) -> Seq<T> {
    if entries.len() <= room {
        entries
    } else {
        entries.skip(entries.len() - room)
    }
}

/// The terminal UI's bounded scrollback: the last entries, each with the time
/// it started, in seconds since the Unix epoch.
pub struct EventLog {
    entries: VecDeque<(u64, Entry)>,
    capacity: usize,
}

impl View for EventLog {
    type V = Seq<(u64, EntryView)>;

    closed spec fn view(&self) -> Seq<(u64, EntryView)> {
        entry_views(self.entries@)
    }
}

/// Each of some entries in mathematical terms.
pub open spec fn entry_views(entries: Seq<(u64, Entry)>) -> Seq<(u64, EntryView)> {
    entries.map_values(|entry: (u64, Entry)| (entry.0, entry.1@))
}

impl EventLog {
    /// The most entries the log holds.
    pub closed spec fn capacity(&self) -> nat {
        self.capacity as nat
    }

    /// The log never holds more than it has room for, and has room for one.
    pub open spec fn wf(&self) -> bool {
        &&& self.capacity() > 0
        &&& self@.len() <= self.capacity()
    }

    /// A log which holds at most `capacity` entries, and at least one.
    pub fn new(capacity: usize) -> (log: Self)
        ensures
            log.wf(),
            log.capacity() == if capacity == 0 { 1 } else { capacity as nat },
            log@ == Seq::<(u64, EntryView)>::empty(),
    {
        let log = EventLog {
            entries: VecDeque::new(),
            capacity: if capacity == 0 { 1 } else { capacity },
        };
        assert(log@ =~= Seq::<(u64, EntryView)>::empty());
        log
    }

    /// Records an event at a given time, dropping the oldest entry if that
    /// takes the log past its capacity.
    ///
    /// A recognition is **one** entry rather than two lines: the utterance
    /// arrives first, and the match which resolves it upgrades that same entry
    /// rather than appending under it. A match belongs to the **oldest**
    /// recognition nothing has matched yet; when every recognition has been
    /// matched, it is a second result for the newest one; and with no
    /// recognition at all to attach to, it is logged on its own.
    pub fn push_at(&mut self, at: u64, event: UiEvent)
        requires
            old(self).wf(),
        ensures
            final(self).wf(),
            final(self).capacity() == old(self).capacity(),
            final(self)@ == newest(recorded(old(self)@, at, event), old(self).capacity()),
    {
        let ghost before = self@;
        let ghost expected = recorded(before, at, event);
        match event {
            UiEvent::Heard(text) => {
                let entry = Entry::Recognition { text, matches: Vec::new() };
                assert(entry@ =~= (EntryView::Recognition { text: text@, matches: Seq::empty() }));
                self.entries.push_back((at, entry));
                assert(self@ =~= expected);
            },
            UiEvent::Matched { name, plan } => {
                let resolved = Resolved { name, plan };
                match self.recognition_for_next_match() {
                    Some(index) => {
                        self.resolve_entry(index, resolved);
                        assert(self@ =~= expected);
                    },
                    None => {
                        self.entries.push_back(
                            (
                                at,
                                Entry::Other(
                                    UiEvent::Matched { name: resolved.name, plan: resolved.plan },
                                ),
                            ),
                        );
                        assert(self@ =~= expected);
                    },
                }
            },
            other => {
                self.entries.push_back((at, Entry::Other(other)));
                assert(self@ =~= expected);
            },
        }
        while self.entries.len() > self.capacity
            invariant
                self.capacity > 0,
                self.capacity == old(self).capacity(),
                self@ == expected.skip(expected.len() - self@.len()),
                self@.len() <= expected.len(),
                expected.len() <= self.capacity ==> self@.len() == expected.len(),
                expected.len() > self.capacity ==> self@.len() >= self.capacity,
            decreases self.entries.len(),
        {
            let ghost held = self.entries@;
            self.entries.pop_front();
            assert(self@ =~= entry_views(held).drop_first());
        }
        assert(expected.skip(0) == expected);
    }

    /// Adds a command to what a recognition resolved to.
    fn resolve_entry(&mut self, index: usize, resolved: Resolved)
        requires
            index < old(self)@.len(),
            old(self)@[index as int].1 is Recognition,
        ensures
            final(self).capacity() == old(self).capacity(),
            final(self)@ == old(self)@.update(
                index as int,
                (
                    old(self)@[index as int].0,
                    with_match(old(self)@[index as int].1, resolved@),
                ),
            ),
    {
        let ghost held = self.entries@;
        if let Some((at, entry)) = self.entries.remove(index) {
            let entry = match entry {
                Entry::Recognition { text, matches } => {
                    let ghost was = matches@;
                    let mut matches = matches;
                    matches.push(resolved);
                    assert(matches@.map_values(|resolved: Resolved| resolved@) == was.map_values(
                        |resolved: Resolved| resolved@,
                    ).push(resolved@));
                    Entry::Recognition { text, matches }
                },
                other => other,
            };
            self.entries.insert(index, (at, entry));
            assert(self@ =~= entry_views(held).update(
                index as int,
                (held[index as int].0, with_match(held[index as int].1@, resolved@)),
            ));
        }
    }

    /// The entry the next match should join: the oldest recognition nothing
    /// has matched yet, or failing that the newest recognition of all.
    fn recognition_for_next_match(&self) -> (index: Option<usize>)
        ensures
            match index {
                Some(index) => next_to_match(self@) == Some(index as int) && index < self@.len()
                    && self@[index as int].1 is Recognition,
                None => next_to_match(self@) is None,
            },
    {
        let ghost all = self@;
        assert(all.skip(0) == all);
        for i in 0..self.entries.len()
            invariant
                all == self@,
                self.entries@.len() == all.len(),
                first_unresolved(all) == i + first_unresolved(all.skip(i as int)),
        {
            assert(all.skip(i as int)[0] == all[i as int]);
            assert(all[i as int] == (self.entries@[i as int].0, self.entries@[i as int].1@));
            if self.entries[i].1.is_unresolved() {
                return Some(i);
            }
            assert(all.skip(i as int).drop_first() == all.skip(i + 1));
        }
        let mut end: usize = self.entries.len();
        assert(all.take(end as int) == all);
        while end > 0
            invariant
                all == self@,
                end <= all.len(),
                self.entries@.len() == all.len(),
                first_unresolved(all) == all.len(),
                after_last_recognition(all) == after_last_recognition(all.take(end as int)),
            decreases end,
        {
            assert(all.take(end as int).last() == all[end - 1]);
            assert(all[end - 1] == (self.entries@[end - 1].0, self.entries@[end - 1].1@));
            if let Entry::Recognition { .. } = &self.entries[end - 1].1 {
                return Some(end - 1);
            }
            assert(all.take(end as int).drop_last() == all.take(end - 1));
            end = end - 1;
        }
        None
    }

    /// How many entries are held.
    pub fn len(&self) -> (len: usize)
        ensures
            len == self@.len(),
    {
        self.entries.len()
    }

    /// Whether nothing has been reported yet.
    pub fn is_empty(&self) -> (empty: bool)
        ensures
            empty == (self@.len() == 0),
    {
        self.entries.len() == 0
    }

    /// The last `rows` entries as lines, oldest first: the newest entry is
    /// therefore the bottom line of the body.
    pub fn tail(&self, rows: usize) -> (lines: Vec<LogLine>)
        ensures
            lines@.map_values(|line: LogLine| line@) == newest(self@, rows as nat).map_values(
                |entry: (u64, EntryView)| entry.1.line(entry.0),
            ),
    {
        let total: usize = self.entries.len();
        let skip: usize = if total > rows { total - rows } else { 0 };
        let mut lines: Vec<LogLine> = Vec::new();
        let ghost drawn = |entry: (u64, EntryView)| entry.1.line(entry.0);
        let ghost shown = newest(self@, rows as nat);
        assert(shown == self@.skip(skip as int));
        for i in skip..total
            invariant
                total == self.entries@.len(),
                total == self@.len(),
                skip <= total,
                shown == self@.skip(skip as int),
                drawn == (|entry: (u64, EntryView)| entry.1.line(entry.0)),
                lines@.map_values(|line: LogLine| line@) == shown.take(i - skip).map_values(drawn),
        {
            let ghost was = lines@;
            let line = self.entries[i].1.line(self.entries[i].0);
            lines.push(line);
            assert(self@[i as int] == (self.entries@[i as int].0, self.entries@[i as int].1@));
            assert(shown[i - skip] == self@[i as int]);
            assert(lines@.map_values(|line: LogLine| line@) == was.map_values(
                |line: LogLine| line@,
            ).push(line@));
            assert(shown.take(i + 1 - skip) == shown.take(i - skip).push(shown[i - skip]));
            assert(shown.take(i + 1 - skip).map_values(drawn) == shown.take(i - skip).map_values(
                drawn,
            ).push(drawn(shown[i - skip])));
        }
        assert(shown.take(total - skip) == shown);
        lines
    }
}

/// A time of day on a clock.
#[derive(Debug, Clone, Copy, PartialEq, Eq, Structural)]
pub struct LocalTime {
    pub hour: u8,
    pub minute: u8,
    pub second: u8,
}

/// A time of day as `HH:MM:SS`.
pub open spec fn clock_text(hour: nat, minute: nat, second: nat) -> Seq<char> {
    padded(hour) + ":"@ + padded(minute) + ":"@ + padded(second)
}

/// A time of day as `HH:MM:SS`.
fn clock_text_of(hour: u64, minute: u64, second: u64) -> (text: String)
    ensures
        text@ == clock_text(hour as nat, minute as nat, second as nat),
{
    let mut text = padded_of(hour);
    text.append(":");
    text.append(padded_of(minute).as_str());
    text.append(":");
    text.append(padded_of(second).as_str());
    text
}

/// What a line's time stamp says: the machine's local time where it is known,
/// and otherwise the time of day in UTC.
pub open spec fn spec_clock_time(seconds: u64, local: Option<LocalTime>) -> Seq<char> {
    match local {
        Some(time) => clock_text(time.hour as nat, time.minute as nat, time.second as nat),
        None => clock_text(
            (seconds % 86_400 / 3600) as nat,
            (seconds % 3600 / 60) as nat,
            (seconds % 60) as nat,
        ),
    }
}

/// A wall-clock `HH:MM:SS` for a Unix timestamp, in the machine's local
/// timezone where it is known: `local` is the timestamp broken down in it.
///
/// A clock which cannot be localized falls back to UTC arithmetic rather than
/// lose the timestamp.
pub fn clock_time(seconds: u64, local: Option<LocalTime>) -> (text: String)
    ensures
        text@ == spec_clock_time(seconds, local),
{
    if let Some(text) = local_clock(local) {
        return text;
    }
    let day: u64 = seconds % 86_400;
    proof {
        lemma_mod_mod(seconds as int, 3600, 24);
        lemma_mod_mod(seconds as int, 60, 1440);
    }
    clock_text_of(day / 3600, (day % 3600) / 60, day % 60)
}

/// The local `HH:MM:SS`, where a timestamp could be broken down.
pub fn local_clock(local: Option<LocalTime>) -> (text: Option<String>)
    ensures
        match (local, text) {
            (Some(time), Some(text)) => text@ == clock_text(
                time.hour as nat,
                time.minute as nat,
                time.second as nat,
            ),
            (None, None) => true,
            _ => false,
        },
{
    match local {
        Some(time) => Some(
            clock_text_of(time.hour as u64, time.minute as u64, time.second as u64),
        ),
        None => None,
    }
}

/// A match never moves past a recognition which is still waiting for one: where
/// one is, the oldest of them takes it.
pub proof fn the_oldest_waiting_recognition_takes_the_match(entries: Seq<(u64, EntryView)>, i: int)
    requires
        0 <= i < entries.len(),
        entries[i].1.unresolved(),
    ensures
        next_to_match(entries) matches Some(j) && j <= i && entries[j].1.unresolved() && forall|
            k: int,
        |
            0 <= k < j ==> !(#[trigger] entries[k]).1.unresolved(),
    decreases entries.len(),
{
    lemma_first_unresolved(entries);
    if first_unresolved(entries) > i {
        assert(!entries[i].1.unresolved());
    }
}

/// What comes before the first unresolved entry is resolved, or no recognition.
proof fn lemma_first_unresolved(entries: Seq<(u64, EntryView)>)
    ensures
        first_unresolved(entries) <= entries.len(),
        first_unresolved(entries) < entries.len() ==> entries[first_unresolved(
            entries,
        ) as int].1.unresolved(),
        forall|k: int|
            0 <= k < first_unresolved(entries) ==> !(#[trigger] entries[k]).1.unresolved(),
    decreases entries.len(),
{
    if entries.len() > 0 && !entries[0].1.unresolved() {
        let rest = entries.drop_first();
        lemma_first_unresolved(rest);
        assert forall|k: int| 0 <= k < first_unresolved(entries) implies !(
        #[trigger] entries[k]).1.unresolved() by {
            if k > 0 {
                assert(rest[k - 1] == entries[k]);
            }
        }
    }
}

/// Recording an utterance and then the match which resolves it, where nothing
/// else waits for a match, leaves one line which says both.
pub proof fn an_utterance_and_its_match_share_a_line(
    entries: Seq<(u64, EntryView)>,
    heard_at: u64,
    matched_at: u64,
    utterance: String,
    name: String,
    plan: String,
)
    requires
        first_unresolved(entries) == entries.len(),
    ensures
        recorded(
            recorded(entries, heard_at, UiEvent::Heard(utterance)),
            matched_at,
            UiEvent::Matched { name, plan },
        ) == entries.push(
            (
                heard_at,
                EntryView::Recognition {
                    text: utterance@,
                    matches: seq![ResolvedView { name: name@, plan: plan@ }],
                },
            ),
        ),
{
    let heard = recorded(entries, heard_at, UiEvent::Heard(utterance));
    lemma_first_unresolved(entries);
    lemma_first_unresolved(heard);
    let n = entries.len() as int;
    assert(heard[n].1.unresolved());
    if first_unresolved(heard) < n {
        let k = first_unresolved(heard) as int;
        assert(heard[k] == entries[k]);
        assert(!entries[k].1.unresolved());
    }
    assert(Seq::<ResolvedView>::empty().push(ResolvedView { name: name@, plan: plan@ }) =~= seq![
        ResolvedView { name: name@, plan: plan@ },
    ]);
    assert(recorded(heard, matched_at, UiEvent::Matched { name, plan }) =~= entries.push(
        (
            heard_at,
            EntryView::Recognition {
                text: utterance@,
                matches: seq![ResolvedView { name: name@, plan: plan@ }],
            },
        ),
    ));
}

/// Where the newest recognition stands.
proof fn lemma_after_last_recognition(entries: Seq<(u64, EntryView)>)
    ensures
        after_last_recognition(entries) <= entries.len(),
        after_last_recognition(entries) > 0 ==> entries[after_last_recognition(entries) - 1].1
            is Recognition,
        forall|k: int|
            after_last_recognition(entries) <= k < entries.len() ==> !((#[trigger] entries[k]).1
                is Recognition),
    decreases entries.len(),
{
    if entries.len() > 0 && !(entries.last().1 is Recognition) {
        let rest = entries.drop_last();
        lemma_after_last_recognition(rest);
        assert forall|k: int| after_last_recognition(entries) <= k < entries.len() implies !((
        #[trigger] entries[k]).1 is Recognition) by {
            if k < rest.len() {
                assert(rest[k] == entries[k]);
            }
        }
    }
}

/// Once every recognition has been matched, one more match is a second result
/// for the newest: the recognition behind which no other stands takes it.
pub proof fn a_further_match_joins_the_newest_recognition(entries: Seq<(u64, EntryView)>, i: int)
    requires
        0 <= i < entries.len(),
        entries[i].1 is Recognition,
        forall|k: int| 0 <= k < entries.len() ==> !(#[trigger] entries[k]).1.unresolved(),
    ensures
        next_to_match(entries) matches Some(j) && i <= j < entries.len() && entries[j].1
            is Recognition && forall|k: int|
            j < k < entries.len() ==> !((#[trigger] entries[k]).1 is Recognition),
{
    lemma_first_unresolved(entries);
    lemma_after_last_recognition(entries);
    if first_unresolved(entries) < entries.len() {
        assert(!entries[first_unresolved(entries) as int].1.unresolved());
    }
    if after_last_recognition(entries) <= i {
        assert(!(entries[i].1 is Recognition));
    }
}

/// A match is logged on its own exactly where there is no recognition at all.
pub proof fn a_match_without_a_recognition_stands_alone(entries: Seq<(u64, EntryView)>)
    ensures
        next_to_match(entries) is None <==> forall|k: int|
            0 <= k < entries.len() ==> !((#[trigger] entries[k]).1 is Recognition),
        next_to_match(entries) matches Some(j) ==> 0 <= j < entries.len() && entries[j].1
            is Recognition,
{
    lemma_first_unresolved(entries);
    lemma_after_last_recognition(entries);
    if next_to_match(entries) is None {
    } else {
        let j = next_to_match(entries)->0;
        assert(entries[j].1 is Recognition);
    }
}

/// Recording a match changes the recognition it joins, and nothing else: that
/// one keeps its text and its time, and has one more result, the last of all.
pub proof fn a_match_upgrades_its_recognition_in_place(
    entries: Seq<(u64, EntryView)>,
    at: u64,
    name: String,
    plan: String,
    i: int,
)
    requires
        next_to_match(entries) is Some,
        0 <= i < entries.len(),
    ensures
        ({
            let after = recorded(entries, at, UiEvent::Matched { name, plan });
            let j = next_to_match(entries)->0;
            &&& after.len() == entries.len()
            &&& i != j ==> after[i] == entries[i]
            &&& entries[j].1 matches EntryView::Recognition { text, matches }
            &&& after[j].0 == entries[j].0
            &&& after[j].1 matches EntryView::Recognition { text: kept, matches: more }
            &&& kept == text
            &&& more == matches + seq![ResolvedView { name: name@, plan: plan@ }]
        }),
{
    a_match_without_a_recognition_stands_alone(entries);
    let j = next_to_match(entries)->0;
    let resolved = ResolvedView { name: name@, plan: plan@ };
    match entries[j].1 {
        EntryView::Recognition { text, matches } => {
            assert(matches.push(resolved) =~= matches + seq![resolved]);
        },
        _ => {},
    }
}

/// Whatever is no match gets an entry of its own, behind all others, which are
/// left alone: an utterance as a recognition nothing has matched yet, and
/// anything else as it was reported.
pub proof fn anything_else_is_logged_behind(entries: Seq<(u64, EntryView)>, at: u64, event: UiEvent)
    requires
        !(event is Matched),
    ensures
        ({
            let after = recorded(entries, at, event);
            &&& after.len() == entries.len() + 1
            &&& entries.is_prefix_of(after)
            &&& after.last().0 == at
            &&& event matches UiEvent::Heard(text) ==> after.last().1 == (EntryView::Recognition {
                text: text@,
                matches: Seq::empty(),
            })
            &&& !(event is Heard) ==> after.last().1 == EntryView::Other(event)
        }),
{
}

/// A log which has run full keeps the newest entries, in their order, and as
/// many as it has room for.
pub proof fn the_newest_are_kept<T>(entries: Seq<T>, room: nat, i: int)
    requires
        0 <= i < newest(entries, room).len(),
    ensures
        newest(entries, room).len() == if entries.len() <= room {
            entries.len()
        } else {
            room
        },
        newest(entries, room)[newest(entries, room).len() - 1 - i] == entries[entries.len() - 1
            - i],
{
}

/// The time of day adds up: its hours, minutes and seconds are those which have
/// passed since midnight, UTC.
pub proof fn the_time_of_day_adds_up(seconds: u64)
    ensures
        exists|hour: nat, minute: nat, second: nat|
            {
                &&& spec_clock_time(seconds, None) == #[trigger] clock_text(hour, minute, second)
                &&& hour < 24 && minute < 60 && second < 60
                &&& (seconds - (hour * 3600 + minute * 60 + second)) % 86_400 == 0
            },
{
    let hour = (seconds % 86_400 / 3600) as nat;
    let minute = (seconds % 3600 / 60) as nat;
    let second = (seconds % 60) as nat;
    lemma_mod_mod(seconds as int, 3600, 24);
    lemma_mod_mod(seconds as int, 60, 60);
    assert(spec_clock_time(seconds, None) == clock_text(hour, minute, second));
}

/// The line of a recognition says what was heard and every command it came to,
/// with what each of them played, and is green just where there is one.
pub proof fn a_recognition_names_every_match(
    heard: Seq<char>,
    matches: Seq<ResolvedView>,
    at: u64,
    i: int,
)
    ensures
        ({
            let line = (EntryView::Recognition { text: heard, matches }).line(at);
            &&& line.at == at
            &&& occurs_in(debug_form(heard), line.text)
            &&& (line.dot == Color::Green) == (matches.len() > 0)
            &&& 0 <= i < matches.len() ==> occurs_in(
                matches[i].name + " ("@ + matches[i].plan + ")"@,
                line.text,
            )
        }),
{
    let nothing = Seq::<char>::empty();
    let line = (EntryView::Recognition { text: heard, matches }).line(at);
    let form = debug_form(heard);
    if matches.len() == 0 {
        a_part_occurs(nothing, form, nothing);
        assert(nothing + form + nothing =~= line.text);
    } else {
        let texts = matches.map_values(
            |resolved: ResolvedView| resolved.name + " ("@ + resolved.plan + ")"@,
        );
        let listed = joined(texts, ", "@);
        a_part_occurs(nothing, form, " → "@ + listed);
        assert(nothing + form + (" → "@ + listed) =~= line.text);
        if 0 <= i < matches.len() {
            every_joined_text_occurs(texts, ", "@, i);
            a_part_still_occurs(texts[i], form + " → "@, listed, nothing);
            assert(form + " → "@ + listed + nothing =~= line.text);
        }
    }
}

/// A line says what it is about: what was heard, what was matched and with which
/// plan, which program wrote what and how it left, and what went wrong.
pub proof fn a_line_says_what_it_is_about(event: UiEvent)
    ensures
        ({
            let line = event.spec_plain_line();
            match event {
                UiEvent::Heard(text) | UiEvent::Hearing(text) => occurs_in(
                    debug_form(text@),
                    line,
                ),
                UiEvent::Matched { name, plan } => occurs_in(debug_form(name@), line) && occurs_in(
                    plan@,
                    line,
                ),
                UiEvent::Interrupted(name) | UiEvent::Discarded(name) => occurs_in(
                    debug_form(name@),
                    line,
                ),
                UiEvent::Child { program, line: written } => occurs_in(program@, line)
                    && occurs_in(written@, line),
                UiEvent::ChildExited { program, code } => occurs_in(program@, line) && occurs_in(
                    signed_decimal(code as int),
                    line,
                ),
                UiEvent::Warning(message) | UiEvent::Error(message) => occurs_in(message@, line),
                UiEvent::Muted | UiEvent::Listening(_) => true,
            }
        }),
{
    let line = event.spec_plain_line();
    let nothing = Seq::<char>::empty();
    assert(line + nothing =~= line);
    match event {
        UiEvent::Heard(text) => {
            a_part_occurs("heard: "@, debug_form(text@), nothing);
        },
        UiEvent::Hearing(text) => {
            a_part_occurs("hearing: "@, debug_form(text@), nothing);
        },
        UiEvent::Matched { name, plan } => {
            a_part_occurs("matched: "@, debug_form(name@), " → "@ + plan@);
            assert("matched: "@ + debug_form(name@) + (" → "@ + plan@) =~= line);
            a_part_occurs("matched: "@ + debug_form(name@) + " → "@, plan@, nothing);
        },
        UiEvent::Interrupted(name) => {
            a_part_occurs("interrupted: "@, debug_form(name@), nothing);
        },
        UiEvent::Discarded(name) => {
            a_part_occurs("discarded: "@, debug_form(name@), nothing);
        },
        UiEvent::Child { program, line: written } => {
            a_part_occurs(nothing, program@, ": "@ + written@);
            assert(nothing + program@ + (": "@ + written@) =~= line);
            a_part_occurs(program@ + ": "@, written@, nothing);
        },
        UiEvent::ChildExited { program, code } => {
            let number = signed_decimal(code as int);
            a_part_occurs(nothing, program@, " exited with code "@ + number);
            assert(nothing + program@ + (" exited with code "@ + number) =~= line);
            a_part_occurs(program@ + " exited with code "@, number, nothing);
        },
        UiEvent::Warning(message) => {
            a_part_occurs("warning: "@, message@, nothing);
        },
        UiEvent::Error(message) => {
            a_part_occurs("error: "@, message@, nothing);
        },
        UiEvent::Muted => {},
        UiEvent::Listening(_) => {},
    }
}

} // verus!
