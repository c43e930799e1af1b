//! The full-screen rehearsal UI. It is the session's screen with a log of its
//! own, in which a change of the listening state is an event like any other.

use super::event::{now, EventLog, TestEvent};
use crate::commands::ui::event::{newest, Color, LogLine, SCROLLBACK};
use crate::commands::ui::tui::{
    colored, footer_of, footer_spans, header_of, header_view, invitation, is_quit, quits, Body,
    Header, KeyPress, Next, Overview, Span,
};
use vstd::prelude::*;

verus! {

/// The UI's whole state: what it was told at startup, and everything reported
/// since.
pub struct App {
    pub overview: Overview,
    pub log: EventLog,
    pub listening: bool,
}

/// The listening state after one more event.
pub open spec fn listening_with(listening: bool, event: TestEvent) -> bool {
    match event {
        TestEvent::Listening(now) => now,
        _ => listening,
    }
}

/// The listening state after some events.
pub open spec fn listening_after(listening: bool, events: Seq<TestEvent>) -> bool
    decreases events.len(),
{
    if events.len() == 0 {
        listening
    } else {
        listening_with(listening_after(listening, events.drop_last()), events.last())
    }
}

/// What a log comes to with some events, one after the other.
pub open spec fn logged_all(
    entries: Seq<(u64, TestEvent)>,
    capacity: nat,
    at: u64,
    events: Seq<TestEvent>,
) -> Seq<(u64, TestEvent)>
    decreases events.len(),
{
    if events.len() == 0 {
        entries
    } else {
        newest(logged_all(entries, capacity, at, events.drop_last()).push((at, events.last())), capacity)
    }
}

/// Something the UI's loop waited for.
#[derive(Debug, Clone)]
pub enum Happening {
    /// Somebody stopped the rehearsal.
    Cancelled,
    /// The rehearsal reported something, and whatever arrived alongside it.
    Reported(Vec<TestEvent>),
    /// A key was pressed.
    Pressed(KeyPress),
    /// The keyboard can no longer be read, for this reason.
    KeyboardLost(String),
    /// Nothing happened for a while.
    Tick,
}

impl App {
    /// The log is well formed.
    pub open spec fn wf(&self) -> bool {
        self.log.wf()
    }

    /// A rehearsal which has just started, with nothing reported.
    pub fn new(overview: Overview) -> (app: Self)
        ensures
            app.wf(),
            app.overview == overview,
            app.listening == overview.listening,
            app.log@ == Seq::<(u64, TestEvent)>::empty(),
            app.log.capacity() == SCROLLBACK,
    {
        App { listening: overview.listening, overview, log: EventLog::new(SCROLLBACK) }
    }

    /// Folds one reported event into the state.
    pub fn record(&mut self, event: TestEvent)
        requires
            old(self).wf(),
        ensures
            final(self).wf(),
            final(self).overview == old(self).overview,
            final(self).log.capacity() == old(self).log.capacity(),
            final(self).listening == listening_with(old(self).listening, event),
            exists|at: u64|
                final(self).log@ == #[trigger] newest(
                    old(self).log@.push((at, event)),
                    old(self).log.capacity(),
                ),
    {
        let at: u64 = now();
        self.record_at(at, event);
    }

    /// Records an event at a given time. A listening change moves the footer
    /// as well.
    pub fn record_at(&mut self, at: u64, event: TestEvent)
        requires
            old(self).wf(),
        ensures
            final(self).wf(),
            final(self).overview == old(self).overview,
            final(self).log.capacity() == old(self).log.capacity(),
            final(self).listening == listening_with(old(self).listening, event),
            final(self).log@ == newest(
                old(self).log@.push((at, event)),
                old(self).log.capacity(),
            ),
    {
        if let TestEvent::Listening(now) = &event {
            self.listening = *now;
        }
        self.log.push_at(at, event);
    }

    /// Folds in whatever the loop waited for, and says what it does next.
    pub fn happen(&mut self, at: u64, happening: Happening) -> (next: Next)
        requires
            old(self).wf(),
        ensures
            final(self).wf(),
            final(self).overview == old(self).overview,
            final(self).log.capacity() == old(self).log.capacity(),
            match happening {
                Happening::Cancelled => next == Next::Leave && *final(self) == *old(self),
                Happening::Reported(events) => {
                    &&& next == Next::Draw
                    &&& final(self).listening == listening_after(old(self).listening, events@)
                    &&& final(self).log@ == logged_all(
                        old(self).log@,
                        old(self).log.capacity(),
                        at,
                        events@,
                    )
                },
                Happening::Pressed(press) => {
                    &&& next == if quits(press) { Next::Quit } else { Next::Draw }
                    &&& *final(self) == *old(self)
                },
                Happening::KeyboardLost(reason) => {
                    &&& next == Next::Draw
                    &&& final(self).listening == old(self).listening
                    &&& final(self).log@ == newest(
                        old(self).log@.push((at, TestEvent::Error(reason))),
                        old(self).log.capacity(),
                    )
                },
                Happening::Tick => next == Next::Draw && *final(self) == *old(self),
            },
    {
        match happening {
            Happening::Cancelled => Next::Leave,
            Happening::Reported(events) => {
                let mut left = events;
                let ghost all = left@;
                let ghost mut done: int = 0;
                assert(all.take(0) == Seq::<TestEvent>::empty());
                assert(all.skip(0) == all);
                while left.len() > 0
                    invariant
                        self.wf(),
                        self.overview == old(self).overview,
                        self.log.capacity() == old(self).log.capacity(),
                        0 <= done <= all.len(),
                        left@ == all.skip(done),
                        self.listening == listening_after(old(self).listening, all.take(done)),
                        self.log@ == logged_all(
                            old(self).log@,
                            old(self).log.capacity(),
                            at,
                            all.take(done),
                        ),
                    decreases left.len(),
                {
                    let event = left.remove(0);
                    assert(event == all[done]);
                    assert(all.take(done + 1).drop_last() == all.take(done));
                    self.record_at(at, event);
                    proof {
                        done = done + 1;
                    }
                    assert(left@ == all.skip(done));
                }
                assert(all.take(done) == all);
                Next::Draw
            },
            Happening::Pressed(press) => if is_quit(&press) {
                Next::Quit
            } else {
                Next::Draw
            },
            Happening::KeyboardLost(reason) => {
                self.record_at(at, TestEvent::Error(reason));
                Next::Draw
            },
            Happening::Tick => Next::Draw,
        }
    }

    /// The header.
    pub fn header(&self) -> (header: Header)
        ensures
            header@ == header_view(self.overview@),
    {
        header_of(&self.overview)
    }

    /// The event log, newest at the bottom, as far as there are rows for it.
    pub fn body(&self, rows: usize) -> (body: Body)
        ensures
            match body {
                Body::Invitation(invitation) => {
                    &&& self.log@.len() == 0
                    &&& invitation@ == colored(
                        "Speak a command; press q to stop."@,
                        Some(Color::DarkGray),
                    )
                },
                Body::Lines(lines) => {
                    &&& self.log@.len() > 0
                    &&& lines@.map_values(|line: LogLine| line@) == newest(
                        self.log@,
                        rows as nat,
                    ).map_values(|entry: (u64, TestEvent)| entry.1.spec_line(entry.0))
                },
            },
    {
        if self.log.is_empty() {
            Body::Invitation(invitation())
        } else {
            Body::Lines(self.log.tail(rows))
        }
    }

    /// The footer: the live listening state on the left. The model is on the
    /// right; see [`Overview::model`].
    pub fn footer(&self) -> (footer: Vec<Span>)
        ensures
            footer@.map_values(|span: Span| span@) == footer_spans(
                self.overview.has_hotkey,
                self.listening,
                None,
            ),
    {
        footer_of(self.overview.has_hotkey, self.listening, None)
    }
}

/// The footer shows the last change of the listening state which was reported,
/// and where none was, it is left as it is.
pub proof fn the_last_change_of_listening_shows(listening: bool, events: Seq<TestEvent>, i: int)
    requires
        -1 <= i < events.len(),
        forall|j: int| i < j < events.len() ==> !((#[trigger] events[j]) is Listening),
        i >= 0 ==> events[i] is Listening,
    ensures
        i == -1 ==> listening_after(listening, events) == listening,
        i >= 0 ==> events[i] == TestEvent::Listening(listening_after(listening, events)),
    decreases events.len(),
{
    if events.len() > 0 {
        let end = events.len() - 1;
        if i < end {
            assert(!(events[end] is Listening));
            let fewer = events.drop_last();
            assert forall|j: int| i < j < fewer.len() implies !((#[trigger] fewer[j])
                is Listening) by {
                assert(fewer[j] == events[j]);
            }
            if i >= 0 {
                assert(fewer[i] == events[i]);
            }
            the_last_change_of_listening_shows(listening, fewer, i);
        }
    }
}

/// It makes no difference how reports are gathered: what arrives together is
/// logged as if it had arrived one after the other.
pub proof fn reports_are_logged_in_order(
    entries: Seq<(u64, TestEvent)>,
    capacity: nat,
    at: u64,
    first: Seq<TestEvent>,
    second: Seq<TestEvent>,
)
    ensures
        logged_all(entries, capacity, at, first + second) == logged_all(
            logged_all(entries, capacity, at, first),
            capacity,
            at,
            second,
        ),
    decreases second.len(),
{
    if second.len() == 0 {
        assert(first + second =~= first);
    } else {
        reports_are_logged_in_order(entries, capacity, at, first, second.drop_last());
        assert((first + second).drop_last() =~= first + second.drop_last());
        assert((first + second).last() == second.last());
    }
}

/// Where there is room, every report is kept, behind what was there and in the
/// order it came.
pub proof fn every_report_is_kept_where_there_is_room(
    entries: Seq<(u64, TestEvent)>,
    capacity: nat,
    at: u64,
    events: Seq<TestEvent>,
)
    requires
        entries.len() + events.len() <= capacity,
    ensures
        logged_all(entries, capacity, at, events) == entries + events.map_values(
            |event: TestEvent| (at, event),
        ),
    decreases events.len(),
{
    let kept = events.map_values(|event: TestEvent| (at, event));
    if events.len() == 0 {
        assert(entries + kept =~= entries);
    } else {
        every_report_is_kept_where_there_is_room(entries, capacity, at, events.drop_last());
        let fewer = events.drop_last().map_values(|event: TestEvent| (at, event));
        assert(kept =~= fewer.push((at, events.last())));
        assert(entries + kept =~= (entries + fewer).push((at, events.last())));
    }
}

} // verus!
