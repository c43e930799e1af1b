//! The single stream of things a rehearsal has to say, and the bounded log of
//! it.

use crate::commands::ui::event::{labelled, newest, Color, LogLine, LogLineView, UiEvent};
use crate::text::debug_form;
use std::collections::VecDeque;
use vstd::prelude::*;

verus! {

/// Everything a rehearsal reports, from whichever part of the pipeline saw it.
#[derive(Debug, Clone, PartialEq, Eq)]
pub enum TestEvent {
    /// A finalized utterance, as the matcher receives it.
    Heard(String),
    /// A partial result on its way to becoming an utterance.
    Hearing(String),
    /// The recognizer was reset because the hotkey muted us.
    Muted,
    /// A command matched, with the key plan `run` would have played.
    Matched { name: String, plan: String },
    /// A command in flight was cut short because listening stopped.
    Interrupted(String),
    /// A command the matcher had already queued was thrown away unplayed.
    Discarded(String),
    /// The hotkey changed the listening state.
    Listening(bool),
    /// Something in the pipeline failed in a way the user should see.
    Error(String),
}

impl TestEvent {
    /// The line this event prints in plain mode.
    pub open spec fn spec_plain_line(&self) -> Seq<char> {
        match self {
            TestEvent::Heard(text) => "heard: "@ + debug_form(text@),
            TestEvent::Hearing(text) => "hearing: "@ + debug_form(text@),
            TestEvent::Muted => "hearing: (muted)"@,
            TestEvent::Matched { name, plan } => "matched: "@ + debug_form(name@) + " → "@ + plan@,
            TestEvent::Interrupted(name) => "interrupted: "@ + debug_form(name@),
            TestEvent::Discarded(name) => "discarded: "@ + debug_form(name@),
            TestEvent::Listening(on) => if *on { "listening: on"@ } else { "listening: off"@ },
            TestEvent::Error(message) => "error: "@ + message@,
        }
    }

    /// The color of the dot this event leads its log line with.
    pub open spec fn spec_color(&self) -> Color {
        match self {
            TestEvent::Matched { .. } => Color::Green,
            TestEvent::Heard(_) => Color::Gray,
            TestEvent::Hearing(_) | TestEvent::Muted => Color::DarkGray,
            TestEvent::Interrupted(_) | TestEvent::Discarded(_) => Color::Yellow,
            TestEvent::Error(_) => Color::Red,
            TestEvent::Listening(_) => Color::Blue,
        }
    }

    /// The color the event's text is drawn in, where it has one of its own.
    pub open spec fn spec_text_style(&self) -> Option<Color> {
        match self {
            TestEvent::Hearing(_) | TestEvent::Muted => Some(Color::DarkGray),
            TestEvent::Error(_) => Some(Color::Red),
            _ => None,
        }
    }

    /// The event as one log line.
    pub open spec fn spec_line(&self, at: u64) -> LogLineView {
        LogLineView {
            at,
            dot: self.spec_color(),
            text: self.spec_plain_line(),
            style: self.spec_text_style(),
        }
    }

    /// The line this event prints in plain mode.
    ///
    /// These strings are load-bearing: scripts parse them, so they must not
    /// drift.
    pub fn plain_line(&self) -> (line: String)
        ensures
            line@ == self.spec_plain_line(),
    {
        match self {
            TestEvent::Heard(text) => labelled("heard: ", text.as_str()),
            TestEvent::Hearing(text) => labelled("hearing: ", text.as_str()),
            TestEvent::Muted => "hearing: (muted)".to_owned(),
            TestEvent::Matched { name, plan } => {
                let mut line = labelled("matched: ", name.as_str());
                line.append(" → ");
                line.append(plan.as_str());
                line
            },
            TestEvent::Interrupted(name) => labelled("interrupted: ", name.as_str()),
            TestEvent::Discarded(name) => labelled("discarded: ", name.as_str()),
            TestEvent::Listening(on) => if *on {
                "listening: on".to_owned()
            } else {
                "listening: off".to_owned()
            },
            TestEvent::Error(message) => {
                let mut text = "error: ".to_owned();
                text.append(message.as_str());
                text
            },
        }
    }

    /// The color of the dot this event leads its log line with.
    ///
    /// A heard utterance is grey because at the moment it is reported nothing
    /// has matched it yet.
    pub fn color(&self) -> (color: Color)
        ensures
            color == self.spec_color(),
    {
        match self {
            TestEvent::Matched { .. } => Color::Green,
            TestEvent::Heard(_) => Color::Gray,
            TestEvent::Hearing(_) | TestEvent::Muted => Color::DarkGray,
            TestEvent::Interrupted(_) | TestEvent::Discarded(_) => Color::Yellow,
            TestEvent::Error(_) => Color::Red,
            TestEvent::Listening(_) => Color::Blue,
        }
    }

    /// The color the event's text is drawn in; only the quietest and loudest
    /// events restyle their text.
    pub fn text_style(&self) -> (style: Option<Color>)
        ensures
            style == self.spec_text_style(),
    {
        match self {
            TestEvent::Hearing(_) | TestEvent::Muted => Some(Color::DarkGray),
            TestEvent::Error(_) => Some(Color::Red),
            _ => None,
        }
    }

    /// This event as one log line. The text is the same as the plain report's,
    /// so the two modes never disagree about what happened.
    pub fn line(&self, at: u64) -> (line: LogLine)
        ensures
            line@ == self.spec_line(at),
    {
        LogLine { at, dot: self.color(), text: self.plain_line(), style: self.text_style() }
    }
}

/// `SystemTime::elapsed`, of the Unix epoch and in seconds: what time it is, or
/// zero on a machine whose clock stands before it. The time is up to the
/// machine, so nothing is said of it.
#[verifier::external_body]
pub(crate) fn now() -> (seconds: u64) {
    match std::time::SystemTime::UNIX_EPOCH.elapsed() {
        Ok(elapsed) => elapsed.as_secs(),
        Err(_) => 0,
    }
}

/// The rehearsal's bounded scrollback: the last events, each with the time it
/// was reported, in seconds since the Unix epoch.
pub struct EventLog {
    entries: VecDeque<(u64, TestEvent)>,
    capacity: usize,
}

impl View for EventLog {
    type V = Seq<(u64, TestEvent)>;

    closed spec fn view(&self) -> Seq<(u64, TestEvent)> {
        self.entries@
    }
}

impl EventLog {
    /// The most events the log holds.
    pub closed spec fn capacity(&self) -> nat {
        self.capacity as nat
    }

    /// The log never holds more than it has room for, and has room for one.
    pub open spec fn wf(&self) -> bool {
        &&& self.capacity() > 0
        &&& self@.len() <= self.capacity()
    }

    /// A log which holds at most `capacity` events, and at least one.
    pub fn new(capacity: usize) -> (log: Self)
        ensures
            log.wf(),
            log.capacity() == if capacity == 0 { 1 } else { capacity as nat },
            log@ == Seq::<(u64, TestEvent)>::empty(),
    {
        EventLog {
            entries: VecDeque::new(),
            capacity: if capacity == 0 { 1 } else { capacity },
        }
    }

    /// Records an event as having happened now.
    pub fn push(&mut self, event: TestEvent)
        requires
            old(self).wf(),
        ensures
            final(self).wf(),
            final(self).capacity() == old(self).capacity(),
            exists|at: u64|
                final(self)@ == #[trigger] newest(
                    old(self)@.push((at, event)),
                    old(self).capacity(),
                ),
    {
        let at: u64 = now();
        self.push_at(at, event);
    }

    /// Records an event at a given time, dropping the oldest one if that takes
    /// the log past its capacity.
    pub fn push_at(&mut self, at: u64, event: TestEvent)
        requires
            old(self).wf(),
        ensures
            final(self).wf(),
            final(self).capacity() == old(self).capacity(),
            final(self)@ == newest(old(self)@.push((at, event)), old(self).capacity()),
    {
        self.entries.push_back((at, event));
        let ghost expected = self.entries@;
        while self.entries.len() > self.capacity
            invariant
                self.capacity > 0,
                self.capacity == old(self).capacity(),
                self@ == expected.skip(expected.len() - self@.len()),
                self@.len() <= expected.len(),
                expected.len() <= self.capacity ==> self@.len() == expected.len(),
                expected.len() > self.capacity ==> self@.len() >= self.capacity,
            decreases self.entries.len(),
        {
            let ghost held = self.entries@;
            self.entries.pop_front();
            assert(self@ =~= held.drop_first());
        }
        assert(expected.skip(0) == expected);
    }

    /// How many events are held.
    pub fn len(&self) -> (len: usize)
        ensures
            len == self@.len(),
    {
        self.entries.len()
    }

    /// Whether nothing has been reported yet.
    pub fn is_empty(&self) -> (empty: bool)
        ensures
            empty == (self@.len() == 0),
    {
        self.entries.len() == 0
    }

    /// The last `rows` events as lines, oldest first: the newest event is
    /// therefore the bottom line of the body.
    pub fn tail(&self, rows: usize) -> (lines: Vec<LogLine>)
        ensures
            lines@.map_values(|line: LogLine| line@) == newest(self@, rows as nat).map_values(
                |entry: (u64, TestEvent)| entry.1.spec_line(entry.0),
            ),
    {
        let total: usize = self.entries.len();
        let skip: usize = if total > rows { total - rows } else { 0 };
        let mut lines: Vec<LogLine> = Vec::new();
        let ghost drawn = |entry: (u64, TestEvent)| entry.1.spec_line(entry.0);
        let ghost shown = newest(self@, rows as nat);
        assert(shown == self@.skip(skip as int));
        for i in skip..total
            invariant
                total == self.entries@.len(),
                skip <= total,
                shown == self@.skip(skip as int),
                drawn == (|entry: (u64, TestEvent)| entry.1.spec_line(entry.0)),
                lines@.map_values(|line: LogLine| line@) == shown.take(i - skip).map_values(drawn),
        {
            let ghost was = lines@;
            let line = self.entries[i].1.line(self.entries[i].0);
            lines.push(line);
            assert(shown[i - skip] == self@[i as int]);
            assert(lines@.map_values(|line: LogLine| line@) == was.map_values(
                |line: LogLine| line@,
            ).push(line@));
            assert(shown.take(i + 1 - skip) == shown.take(i - skip).push(shown[i - skip]));
            assert(shown.take(i + 1 - skip).map_values(drawn) == shown.take(i - skip).map_values(
                drawn,
            ).push(drawn(shown[i - skip])));
        }
        assert(shown.take(total - skip) == shown);
        lines
    }
}

/// What a rehearsal reports, as a session would report it.
pub open spec fn as_in_a_session(event: TestEvent) -> UiEvent {
    match event {
        TestEvent::Heard(text) => UiEvent::Heard(text),
        TestEvent::Hearing(text) => UiEvent::Hearing(text),
        TestEvent::Muted => UiEvent::Muted,
        TestEvent::Matched { name, plan } => UiEvent::Matched { name, plan },
        TestEvent::Interrupted(name) => UiEvent::Interrupted(name),
        TestEvent::Discarded(name) => UiEvent::Discarded(name),
        TestEvent::Listening(on) => UiEvent::Listening(on),
        TestEvent::Error(message) => UiEvent::Error(message),
    }
}

/// A rehearsal reads like the session it stands for: the same report has the
/// same line, in the same colors.
pub proof fn a_rehearsal_reads_like_a_session(event: TestEvent, at: u64)
    ensures
        event.spec_line(at) == as_in_a_session(event).spec_line(at),
        event.spec_plain_line() == as_in_a_session(event).spec_plain_line(),
{
}

} // verus!
