//! The full-screen session UI, shared by `test` and `run`: everything the
//! screen shows, and how what happens moves it.
//!
//! Three regions: a header which says what the session is, a body which logs
//! what it reports, and a footer with the live listening state. The listening
//! state is not logged at all: the footer shows it live, which is both fewer
//! lines and more current.

use super::event::{newest, recorded, Color, EntryView, EventLog, LogLine, UiEvent, DOT, SCROLLBACK};
use crate::commands::run::PipelineSummary;
use crate::commands::test::event::now;
use crate::config::system::ResolvedSettings;
use crate::config::Profile;
use crate::errors::{optional, wrapped_system_error, wrapped_user_error, Error};
use crate::hotkey::ListenMode;
use crate::output::keys::name_of;
use crate::path::{file_name, last_component};
use crate::text::{a_part_occurs, decimal, decimal_of, occurs_in};
use vstd::prelude::*;

verus! {

/// How many milliseconds the UI waits for something to happen before redrawing
/// anyway.
pub const TICK_MILLIS: u64 = 250;

/// How many milliseconds the key reader blocks before checking whether it
/// should stop.
pub const KEY_POLL_MILLIS: u64 = 100;

/// The glyph which leads the footer's "a newer release is available" note.
pub const UPDATE_MARK: &'static str = "⬆";

/// What the header and footer say about the session: the parts which do not
/// change while it runs.
#[derive(Debug, Clone, PartialEq, Eq)]
pub struct Overview {
    /// The profile's display name.
    pub profile: String,
    /// Where the profile came from: the resolved path, or the URL.
    pub source: String,
    pub commands: usize,
    pub phrases: usize,
    /// The hotkey arrangement, as the header says it.
    pub hotkey: String,
    /// The speech model's name.
    pub model: String,
    /// Whether there is a hotkey at all: a profile without one is always
    /// listening, which the footer says instead of an on/off state.
    pub has_hotkey: bool,
    /// The listening state the pipeline started in.
    pub listening: bool,
    /// The wrapped application `run` started, if any: its name and pid, as the
    /// header says it.
    pub wrapping: Option<String>,
}

/// An [`Overview`] in mathematical terms.
#[verifier::ext_equal]
pub struct OverviewView {
    pub profile: Seq<char>,
    pub source: Seq<char>,
    pub commands: usize,
    pub phrases: usize,
    pub hotkey: Seq<char>,
    pub model: Seq<char>,
    pub has_hotkey: bool,
    pub listening: bool,
    pub wrapping: Option<Seq<char>>,
}

impl View for Overview {
    type V = OverviewView;

    open spec fn view(&self) -> OverviewView {
        OverviewView {
            profile: self.profile@,
            source: self.source@,
            commands: self.commands,
            phrases: self.phrases,
            hotkey: self.hotkey@,
            model: self.model@,
            has_hotkey: self.has_hotkey,
            listening: self.listening,
            wrapping: optional(self.wrapping),
        }
    }
}

/// How the hotkey reads in the header: which key, in which mode, or the fact
/// that there is nothing to press.
pub open spec fn hotkey_text(settings: ResolvedSettings, mode: Option<ListenMode>) -> Seq<char> {
    match (mode, settings.hotkey) {
        (Some(mode), Some(hotkey)) => name_of(hotkey.key.0) + " ("@ + mode.spec_name() + ")"@,
        _ => "always listening"@,
    }
}

/// How the hotkey reads in the header.
pub fn hotkey_summary(settings: &ResolvedSettings, mode: Option<ListenMode>) -> (text: String)
    ensures
        text@ == hotkey_text(*settings, mode),
{
    match (mode, &settings.hotkey) {
        (Some(mode), Some(hotkey)) => {
            let mut text = hotkey.key.name();
            text.append(" (");
            text.append(mode.name());
            text.append(")");
            text
        },
        _ => "always listening".to_owned(),
    }
}

/// What the footer calls a speech model: its directory's name, not its path.
pub open spec fn model_name(model: Seq<char>, windows: bool) -> Seq<char> {
    match last_component(windows, model) {
        Some(name) => name,
        None => model,
    }
}

impl Overview {
    /// What the pipeline just assembled, as the header will describe it.
    pub fn describe(
        profile: &Profile,
        settings: &ResolvedSettings,
        source: &str,
        summary: &PipelineSummary,
        windows: bool,
    ) -> (overview: Self)
        ensures
            overview@ == (OverviewView {
                profile: profile.spec_display_name(),
                source: source@,
                commands: summary.commands,
                phrases: summary.phrases,
                hotkey: hotkey_text(*settings, summary.mode),
                model: model_name(summary.model@, windows),
                has_hotkey: summary.mode is Some,
                listening: summary.listening,
                wrapping: None,
            }),
    {
        let overview = Overview {
            profile: profile.display_name().to_owned(),
            source: source.to_owned(),
            commands: summary.commands,
            phrases: summary.phrases,
            hotkey: hotkey_summary(settings, summary.mode),
            model: match file_name(windows, summary.model.as_str()) {
                Some(name) => name,
                None => summary.model.clone(),
            },
            has_hotkey: summary.mode.is_some(),
            listening: summary.listening,
            wrapping: None,
        };
        overview
    }

    /// Notes the application `run` is wrapping, for the header.
    pub fn wrapping(self, program: &str, pid: Option<u32>) -> (overview: Self)
        ensures
            overview@ == (OverviewView {
                wrapping: Some(
                    match pid {
                        Some(pid) => "wrapping: "@ + program@ + " (pid "@ + decimal(pid as nat)
                            + ")"@,
                        None => "wrapping: "@ + program@,
                    },
                ),
                ..self@
            }),
    {
        let mut text = "wrapping: ".to_owned();
        text.append(program);
        if let Some(pid) = pid {
            text.append(" (pid ");
            text.append(decimal_of(pid as u64).as_str());
            text.append(")");
        }
        let mut overview = self;
        overview.wrapping = Some(text);
        assert(overview@ =~= (OverviewView { wrapping: Some(text@), ..self@ }));
        overview
    }

    /// The right-hand side of the header: what this profile adds up to.
    pub fn stats(&self) -> (text: String)
        ensures
            text@ == stats_text(self@),
    {
        let mut text = decimal_of(self.commands as u64);
        text.append(" command(s) · ");
        text.append(decimal_of(self.phrases as u64).as_str());
        text.append(" phrase(s) · ");
        text.append(self.hotkey.as_str());
        text
    }
}

/// A run of text drawn in one style.
#[derive(Debug, Clone, PartialEq, Eq)]
pub struct Span {
    pub text: String,
    pub color: Option<Color>,
    pub bold: bool,
    pub dim: bool,
}

/// A [`Span`] in mathematical terms.
#[verifier::ext_equal]
pub struct SpanView {
    pub text: Seq<char>,
    pub color: Option<Color>,
    pub bold: bool,
    pub dim: bool,
}

impl View for Span {
    type V = SpanView;

    open spec fn view(&self) -> SpanView {
        SpanView { text: self.text@, color: self.color, bold: self.bold, dim: self.dim }
    }
}

/// Text in a color, and nothing more.
pub open spec fn colored(text: Seq<char>, color: Option<Color>) -> SpanView {
    SpanView { text, color, bold: false, dim: false }
}

/// Text in a color, and nothing more.
fn span(text: &str, color: Option<Color>) -> (span: Span)
    ensures
        span@ == colored(text@, color),
{
    Span { text: text.to_owned(), color, bold: false, dim: false }
}

/// How many columns the right-hand text of a row needs, so that it is never
/// pushed off the end by a long left-hand one.
pub fn columns_for(right: &str) -> (columns: u16)
    ensures
        columns == if right@.len() <= u16::MAX { right@.len() as int } else { u16::MAX as int },
{
    let count: usize = right.unicode_len();
    if count <= u16::MAX as usize {
        count as u16
    } else {
        u16::MAX
    }
}

/// The header: the profile's name and stats on the first line, where it came
/// from and the wrapped application on the second.
#[derive(Debug, Clone)]
pub struct Header {
    pub title: Span,
    pub stats: Span,
    pub source: Span,
    pub wrapping: Span,
}

/// A [`Header`] in mathematical terms.
#[verifier::ext_equal]
pub struct HeaderView {
    pub title: SpanView,
    pub stats: SpanView,
    pub source: SpanView,
    pub wrapping: SpanView,
}

impl View for Header {
    type V = HeaderView;

    open spec fn view(&self) -> HeaderView {
        HeaderView {
            title: self.title@,
            stats: self.stats@,
            source: self.source@,
            wrapping: self.wrapping@,
        }
    }
}

/// The right-hand side of the header: what a profile adds up to.
pub open spec fn stats_text(overview: OverviewView) -> Seq<char> {
    decimal(overview.commands as nat) + " command(s) · "@ + decimal(overview.phrases as nat)
        + " phrase(s) · "@ + overview.hotkey
}

/// The header of a session.
pub open spec fn header_view(overview: OverviewView) -> HeaderView {
    HeaderView {
        title: SpanView { text: overview.profile, color: None, bold: true, dim: false },
        stats: colored(stats_text(overview), Some(Color::Gray)),
        source: colored(overview.source, Some(Color::DarkGray)),
        wrapping: colored(
            match overview.wrapping {
                Some(wrapping) => wrapping,
                None => ""@,
            },
            Some(Color::DarkGray),
        ),
    }
}

/// The header of a session.
pub fn header_of(overview: &Overview) -> (header: Header)
    ensures
        header@ == header_view(overview@),
{
    Header {
        title: Span { text: overview.profile.clone(), color: None, bold: true, dim: false },
        stats: span(overview.stats().as_str(), Some(Color::Gray)),
        source: span(overview.source.as_str(), Some(Color::DarkGray)),
        wrapping: match &overview.wrapping {
            Some(wrapping) => span(wrapping.as_str(), Some(Color::DarkGray)),
            None => span("", Some(Color::DarkGray)),
        },
    }
}

/// What the body shows.
#[derive(Debug, Clone)]
pub enum Body {
    /// Nothing has been reported yet, so the user is invited to speak.
    Invitation(Span),
    /// The newest entries there is room for, oldest first.
    Lines(Vec<LogLine>),
}

/// The UI's whole state: what it was told at startup, and everything reported
/// since.
pub struct App {
    pub overview: Overview,
    pub log: EventLog,
    pub listening: bool,
    /// The newest release the background update check found, once it has found
    /// one.
    pub update: Option<String>,
}

/// The footer's listening state, and its color.
pub open spec fn listening_state(has_hotkey: bool, listening: bool) -> (Seq<char>, Color) {
    if !has_hotkey {
        ("always listening"@, Color::Green)
    } else if listening {
        ("listening: on"@, Color::Green)
    } else {
        ("listening: off"@, Color::Gray)
    }
}

/// The footer's left-hand side: the listening state, how to leave, and a newer
/// release, where one is known. The note comes last, so that it is the first
/// thing a narrow terminal truncates away.
pub open spec fn footer_spans(has_hotkey: bool, listening: bool, update: Option<Seq<char>>) -> Seq<
    SpanView,
> {
    let (state, color) = listening_state(has_hotkey, listening);
    let always = seq![
        colored(DOT@, Some(color)),
        colored(" "@, None),
        colored(state, Some(color)),
        colored("  —  q to quit"@, Some(Color::DarkGray)),
    ];
    match update {
        Some(version) => always.push(
            SpanView {
                text: "  "@ + UPDATE_MARK@ + " v"@ + version + " — voice-orders update"@,
                color: Some(Color::Cyan),
                bold: false,
                dim: true,
            },
        ),
        None => always,
    }
}

/// The footer's left-hand side.
pub fn footer_of(has_hotkey: bool, listening: bool, update: Option<&str>) -> (footer: Vec<Span>)
    ensures
        footer@.map_values(|span: Span| span@) == footer_spans(
            has_hotkey,
            listening,
            match update {
                Some(version) => Some(version@),
                None => None,
            },
        ),
{
    let (state, color) = match (has_hotkey, listening) {
        (false, _) => ("always listening", Color::Green),
        (true, true) => ("listening: on", Color::Green),
        (true, false) => ("listening: off", Color::Gray),
    };
    let mut footer: Vec<Span> = vec![
        span(DOT, Some(color)),
        span(" ", None),
        span(state, Some(color)),
        span("  —  q to quit", Some(Color::DarkGray)),
    ];
    if let Some(version) = update {
        let mut text = "  ".to_owned();
        text.append(UPDATE_MARK);
        text.append(" v");
        text.append(version);
        text.append(" — voice-orders update");
        footer.push(Span { text, color: Some(Color::Cyan), bold: false, dim: true });
    }
    assert(footer@.map_values(|span: Span| span@) =~= footer_spans(
        has_hotkey,
        listening,
        match update {
            Some(version) => Some(version@),
            None => None,
        },
    ));
    footer
}

/// The body of a session which has reported nothing yet.
pub fn invitation() -> (invitation: Span)
    ensures
        invitation@ == colored("Speak a command; press q to stop."@, Some(Color::DarkGray)),
{
    span("Speak a command; press q to stop.", Some(Color::DarkGray))
}

/// What the entries of a log become with one more event: a listening change
/// moves the footer instead.
pub open spec fn logged(
    entries: Seq<(u64, EntryView)>,
    capacity: nat,
    at: u64,
    event: UiEvent,
) -> Seq<(u64, EntryView)> {
    if event is Listening {
        entries
    } else {
        newest(recorded(entries, at, event), capacity)
    }
}

/// What a log comes to with some events, one after the other.
pub open spec fn logged_all(
    entries: Seq<(u64, EntryView)>,
    capacity: nat,
    at: u64,
    events: Seq<UiEvent>,
) -> Seq<(u64, EntryView)>
    decreases events.len(),
{
    if events.len() == 0 {
        entries
    } else {
        logged(logged_all(entries, capacity, at, events.drop_last()), capacity, at, events.last())
    }
}

/// The listening state after some events.
pub open spec fn listening_after(listening: bool, events: Seq<UiEvent>) -> bool
    decreases events.len(),
{
    if events.len() == 0 {
        listening
    } else {
        match events.last() {
            UiEvent::Listening(now) => now,
            _ => listening_after(listening, events.drop_last()),
        }
    }
}

/// Which key was pressed.
#[derive(Debug, Clone, Copy, PartialEq, Eq, Structural)]
pub enum Key {
    Char(char),
    Other,
}

/// What happened to a key.
#[derive(Debug, Clone, Copy, PartialEq, Eq, Structural)]
pub enum KeyKind {
    Press,
    Repeat,
    Release,
}

/// A key event of the terminal.
#[derive(Debug, Clone, Copy, PartialEq, Eq, Structural)]
pub struct KeyPress {
    pub key: Key,
    pub control: bool,
    pub kind: KeyKind,
}

/// Whether a key press means "stop": `q`, or Ctrl-C, which raw mode does not
/// turn into a signal for us. Letting go of a key means nothing.
pub open spec fn quits(press: KeyPress) -> bool {
    press.kind != KeyKind::Release && match press.key {
        Key::Char(c) => c == 'q' || c == 'Q' || ((c == 'c' || c == 'C') && press.control),
        Key::Other => false,
    }
}

/// Whether a key press means "stop".
pub fn is_quit(press: &KeyPress) -> (quit: bool)
    ensures
        quit == quits(*press),
{
    if press.kind == KeyKind::Release {
        return false;
    }
    match press.key {
        Key::Char(c) => c == 'q' || c == 'Q' || ((c == 'c' || c == 'C') && press.control),
        Key::Other => false,
    }
}

/// Something the UI's loop waited for.
#[derive(Debug, Clone)]
pub enum Happening {
    /// Somebody stopped the session.
    Cancelled,
    /// The session reported something, and whatever arrived alongside it.
    Reported(Vec<UiEvent>),
    /// A key was pressed.
    Pressed(KeyPress),
    /// The keyboard can no longer be read, for this reason.
    KeyboardLost(String),
    /// Nothing happened for a while.
    Tick,
}

/// What the UI's loop does next.
#[derive(Debug, Clone, Copy, PartialEq, Eq, Structural)]
pub enum Next {
    /// Draws, and waits again.
    Draw,
    /// Leaves, because somebody else stopped the session.
    Leave,
    /// Stops the session, and leaves.
    Quit,
}

impl App {
    /// The log is well formed.
    pub open spec fn wf(&self) -> bool {
        self.log.wf()
    }

    /// A session which has just started, with nothing reported.
    pub fn new(overview: Overview) -> (app: Self)
        ensures
            app.wf(),
            app.overview == overview,
            app.listening == overview.listening,
            app.log@ == Seq::<(u64, EntryView)>::empty(),
            app.log.capacity() == SCROLLBACK,
            app.update is None,
    {
        App { listening: overview.listening, overview, log: EventLog::new(SCROLLBACK), update: None }
    }

    /// The newer release to mention, if the check has finished and found one.
    pub fn available_update(&self) -> (version: Option<&str>)
        ensures
            match version {
                Some(version) => optional(self.update) == Some(version@),
                None => self.update is None,
            },
    {
        match &self.update {
            Some(version) => Some(version.as_str()),
            None => None,
        }
    }

    /// Folds one reported event into the state.
    pub fn record(&mut self, event: UiEvent)
        requires
            old(self).wf(),
        ensures
            final(self).wf(),
            final(self).overview == old(self).overview,
            final(self).update == old(self).update,
            final(self).log.capacity() == old(self).log.capacity(),
            final(self).listening == listening_after(old(self).listening, seq![event]),
            exists|at: u64|
                final(self).log@ == #[trigger] logged(
                    old(self).log@,
                    old(self).log.capacity(),
                    at,
                    event,
                ),
    {
        let at: u64 = now();
        self.record_at(at, event);
    }

    /// Records an event at a given time. A listening change moves the footer
    /// and is *not* logged.
    pub fn record_at(&mut self, at: u64, event: UiEvent)
        requires
            old(self).wf(),
        ensures
            final(self).wf(),
            final(self).overview == old(self).overview,
            final(self).update == old(self).update,
            final(self).log.capacity() == old(self).log.capacity(),
            final(self).listening == listening_after(old(self).listening, seq![event]),
            final(self).log@ == logged(old(self).log@, old(self).log.capacity(), at, event),
    {
        proof {
            reveal_with_fuel(listening_after, 2);
            assert(seq![event].drop_last() == Seq::<UiEvent>::empty());
        }
        match event {
            UiEvent::Listening(now) => {
                self.listening = now;
            },
            event => {
                self.log.push_at(at, event);
            },
        }
    }

    /// Folds in whatever the loop waited for, and says what it does next.
    ///
    /// A burst of events is one redraw, not one each. A keyboard which can no
    /// longer be read is reported in the log like any other failure.
    pub fn happen(&mut self, at: u64, happening: Happening) -> (next: Next)
        requires
            old(self).wf(),
        ensures
            final(self).wf(),
            final(self).overview == old(self).overview,
            final(self).update == old(self).update,
            final(self).log.capacity() == old(self).log.capacity(),
            match happening {
                Happening::Cancelled => next == Next::Leave && *final(self) == *old(self),
                Happening::Reported(events) => {
                    &&& next == Next::Draw
                    &&& final(self).listening == listening_after(old(self).listening, events@)
                    &&& final(self).log@ == logged_all(
                        old(self).log@,
                        old(self).log.capacity(),
                        at,
                        events@,
                    )
                },
                Happening::Pressed(press) => {
                    &&& next == if quits(press) { Next::Quit } else { Next::Draw }
                    &&& *final(self) == *old(self)
                },
                Happening::KeyboardLost(reason) => {
                    &&& next == Next::Draw
                    &&& final(self).listening == old(self).listening
                    &&& final(self).log@ == logged(
                        old(self).log@,
                        old(self).log.capacity(),
                        at,
                        UiEvent::Error(reason),
                    )
                },
                Happening::Tick => next == Next::Draw && *final(self) == *old(self),
            },
    {
        match happening {
            Happening::Cancelled => Next::Leave,
            Happening::Reported(events) => {
                let mut left = events;
                let ghost all = left@;
                let ghost mut done: int = 0;
                assert(all.take(0) == Seq::<UiEvent>::empty());
                assert(all.skip(0) == all);
                while left.len() > 0
                    invariant
                        self.wf(),
                        self.overview == old(self).overview,
                        self.update == old(self).update,
                        self.log.capacity() == old(self).log.capacity(),
                        0 <= done <= all.len(),
                        left@ == all.skip(done),
                        self.listening == listening_after(old(self).listening, all.take(done)),
                        self.log@ == logged_all(
                            old(self).log@,
                            old(self).log.capacity(),
                            at,
                            all.take(done),
                        ),
                    decreases left.len(),
                {
                    let event = left.remove(0);
                    assert(event == all[done]);
                    assert(all.take(done + 1).drop_last() == all.take(done));
                    self.record_at(at, event);
                    proof {
                        reveal_with_fuel(listening_after, 2);
                        assert(seq![event].drop_last() == Seq::<UiEvent>::empty());
                        done = done + 1;
                    }
                    assert(left@ == all.skip(done));
                }
                assert(all.take(done) == all);
                Next::Draw
            },
            Happening::Pressed(press) => if is_quit(&press) {
                Next::Quit
            } else {
                Next::Draw
            },
            Happening::KeyboardLost(reason) => {
                let event = UiEvent::Error(reason);
                proof {
                    reveal_with_fuel(listening_after, 2);
                    assert(seq![event].drop_last() == Seq::<UiEvent>::empty());
                }
                self.record_at(at, event);
                Next::Draw
            },
            Happening::Tick => Next::Draw,
        }
    }

    /// The header.
    pub fn header(&self) -> (header: Header)
        ensures
            header@ == header_view(self.overview@),
    {
        header_of(&self.overview)
    }

    /// The event log, newest at the bottom, as far as there are rows for it.
    pub fn body(&self, rows: usize) -> (body: Body)
        ensures
            match body {
                Body::Invitation(invitation) => {
                    &&& self.log@.len() == 0
                    &&& invitation@ == colored(
                        "Speak a command; press q to stop."@,
                        Some(Color::DarkGray),
                    )
                },
                Body::Lines(lines) => {
                    &&& self.log@.len() > 0
                    &&& lines@.map_values(|line: LogLine| line@) == newest(
                        self.log@,
                        rows as nat,
                    ).map_values(|entry: (u64, EntryView)| entry.1.line(entry.0))
                },
            },
    {
        if self.log.is_empty() {
            Body::Invitation(invitation())
        } else {
            Body::Lines(self.log.tail(rows))
        }
    }

    /// The footer: the live listening state and a newer release on the left.
    /// The model is on the right; see [`Overview::model`].
    pub fn footer(&self) -> (footer: Vec<Span>)
        ensures
            footer@.map_values(|span: Span| span@) == footer_spans(
                self.overview.has_hotkey,
                self.listening,
                optional(self.update),
            ),
    {
        footer_of(self.overview.has_hotkey, self.listening, self.available_update())
    }
}

/// What is said of a keyboard which can no longer be read.
pub fn keyboard_lost(reason: &str) -> (message: String)
    ensures
        message@ == "We stopped watching the keyboard ("@ + reason@ + ")."@,
{
    let mut message = "We stopped watching the keyboard (".to_owned();
    message.append(reason);
    message.append(").");
    message
}

/// What is said of a terminal we could not take over.
pub fn takeover_error(reason: String) -> (error: Error)
    ensures
        error@ == wrapped_user_error(
            reason@,
            "We could not take over the terminal to show the rehearsal."@,
            seq![
                "Run `voice-orders test` in an interactive terminal, or pipe its output (`voice-orders test profile.yaml | cat`) to get the plain line-by-line report instead."@,
            ],
        ),
{
    Error::wrap_user(
        reason,
        "We could not take over the terminal to show the rehearsal.".to_owned(),
        vec![
            "Run `voice-orders test` in an interactive terminal, or pipe its output (`voice-orders test profile.yaml | cat`) to get the plain line-by-line report instead.",
        ],
    )
}

/// What is said of a terminal we could not draw on.
pub fn draw_error(reason: String) -> (error: Error)
    ensures
        error@ == wrapped_system_error(
            reason@,
            "We could not draw the rehearsal on your terminal."@,
            seq!["Please report this issue on GitHub so that we can investigate."@],
        ),
{
    Error::wrap_system(
        reason,
        "We could not draw the rehearsal on your terminal.".to_owned(),
        vec!["Please report this issue on GitHub so that we can investigate."],
    )
}

/// However often the hotkey is pressed, nothing of it reaches the log, and the
/// footer ends up showing the last change.
pub proof fn listening_changes_are_not_logged(
    entries: Seq<(u64, EntryView)>,
    capacity: nat,
    at: u64,
    listening: bool,
    events: Seq<UiEvent>,
)
    requires
        forall|i: int| 0 <= i < events.len() ==> (#[trigger] events[i]) is Listening,
    ensures
        logged_all(entries, capacity, at, events) == entries,
        events.len() > 0 ==> events.last() == UiEvent::Listening(
            listening_after(listening, events),
        ),
    decreases events.len(),
{
    if events.len() > 0 {
        listening_changes_are_not_logged(entries, capacity, at, listening, events.drop_last());
    }
}

/// The footer shows the last change of the listening state which was reported,
/// and where none was, it is left as it is.
pub proof fn the_last_change_of_listening_shows(listening: bool, events: Seq<UiEvent>, i: int)
    requires
        -1 <= i < events.len(),
        forall|j: int| i < j < events.len() ==> !((#[trigger] events[j]) is Listening),
        i >= 0 ==> events[i] is Listening,
    ensures
        i == -1 ==> listening_after(listening, events) == listening,
        i >= 0 ==> events[i] == UiEvent::Listening(listening_after(listening, events)),
    decreases events.len(),
{
    if events.len() > 0 {
        let end = events.len() - 1;
        if i < end {
            assert(!(events[end] is Listening));
            let fewer = events.drop_last();
            assert forall|j: int| i < j < fewer.len() implies !((#[trigger] fewer[j])
                is Listening) by {
                assert(fewer[j] == events[j]);
            }
            if i >= 0 {
                assert(fewer[i] == events[i]);
            }
            the_last_change_of_listening_shows(listening, fewer, i);
        }
    }
}

/// It makes no difference how reports are gathered: what arrives together is
/// logged as if it had arrived one after the other.
pub proof fn reports_are_logged_in_order(
    entries: Seq<(u64, EntryView)>,
    capacity: nat,
    at: u64,
    first: Seq<UiEvent>,
    second: Seq<UiEvent>,
)
    ensures
        logged_all(entries, capacity, at, first + second) == logged_all(
            logged_all(entries, capacity, at, first),
            capacity,
            at,
            second,
        ),
    decreases second.len(),
{
    if second.len() == 0 {
        assert(first + second =~= first);
    } else {
        reports_are_logged_in_order(entries, capacity, at, first, second.drop_last());
        assert((first + second).drop_last() =~= first + second.drop_last());
        assert((first + second).last() == second.last());
    }
}

/// The footer says whether we listen: green just where what is said now would
/// be heard, and on and off never read the same. A newer release is mentioned
/// just where there is one, and last.
pub proof fn the_footer_shows_whether_we_listen(
    has_hotkey: bool,
    listening: bool,
    update: Option<Seq<char>>,
)
    ensures
        ({
            let spans = footer_spans(has_hotkey, listening, update);
            &&& spans[0].text == DOT@
            &&& (spans[0].color == Some(Color::Green)) == (!has_hotkey || listening)
            &&& spans[2].color == spans[0].color
            &&& has_hotkey ==> spans[2].text != footer_spans(has_hotkey, !listening, update)[2].text
            &&& !has_hotkey ==> spans == footer_spans(has_hotkey, !listening, update)
            &&& spans.len() == if update is Some { 5nat } else { 4 }
            &&& update matches Some(version) ==> occurs_in(version, spans.last().text)
        }),
{
    reveal_strlit("listening: on");
    reveal_strlit("listening: off");
    assert("listening: on"@.len() != "listening: off"@.len());
    if let Some(version) = update {
        a_part_occurs("  "@ + UPDATE_MARK@ + " v"@, version, " — voice-orders update"@);
    }
}

/// The header says what the profile is called and where it came from, how many
/// commands and phrases it has, which hotkey, and what is wrapped.
pub proof fn the_header_says_what_is_running(overview: OverviewView)
    ensures
        ({
            let header = header_view(overview);
            &&& header.title.text == overview.profile
            &&& header.source.text == overview.source
            &&& occurs_in(decimal(overview.commands as nat) + " command(s)"@, header.stats.text)
            &&& occurs_in(decimal(overview.phrases as nat) + " phrase(s)"@, header.stats.text)
            &&& occurs_in(overview.hotkey, header.stats.text)
            &&& overview.wrapping matches Some(wrapping) ==> header.wrapping.text == wrapping
        }),
{
    let stats = stats_text(overview);
    let nothing = Seq::<char>::empty();
    let commands = decimal(overview.commands as nat);
    let phrases = decimal(overview.phrases as nat);
    reveal_strlit(" command(s) · ");
    reveal_strlit(" command(s)");
    reveal_strlit(" phrase(s) · ");
    reveal_strlit(" phrase(s)");
    reveal_strlit(" · ");
    assert(" command(s) · "@ =~= " command(s)"@ + " · "@);
    assert(" phrase(s) · "@ =~= " phrase(s)"@ + " · "@);
    let first = commands + " command(s)"@;
    let second = phrases + " phrase(s)"@;
    assert(stats =~= first + " · "@ + second + " · "@ + overview.hotkey);
    a_part_occurs(nothing, first, " · "@ + second + " · "@ + overview.hotkey);
    assert(nothing + first + (" · "@ + second + " · "@ + overview.hotkey) =~= stats);
    a_part_occurs(first + " · "@, second, " · "@ + overview.hotkey);
    assert(first + " · "@ + second + (" · "@ + overview.hotkey) =~= stats);
    a_part_occurs(first + " · "@ + second + " · "@, overview.hotkey, nothing);
    assert(first + " · "@ + second + " · "@ + overview.hotkey + nothing =~= stats);
}

/// Letting go of a key never quits, a key held down does what it did when it was
/// pressed, and neither does the case of a letter matter.
pub proof fn quitting_takes_a_press(press: KeyPress, lower: char, upper: char)
    requires
        'a' <= lower <= 'z',
        lower as int == upper as int + 32,
    ensures
        press.kind == KeyKind::Release ==> !quits(press),
        press.kind == KeyKind::Press ==> quits(press) == quits(
            KeyPress { kind: KeyKind::Repeat, ..press },
        ),
        quits(KeyPress { key: Key::Char(lower), ..press }) == quits(
            KeyPress { key: Key::Char(upper), ..press },
        ),
        press.kind == KeyKind::Press && press.key == Key::Char('q') ==> quits(press),
        press.kind == KeyKind::Press && press.key == Key::Char('c') ==> quits(press)
            == press.control,
{
}

/// Everything but a change of the listening state is logged: an utterance as a
/// recognition nothing has matched yet, and whatever is neither that nor a match
/// as it was reported, behind everything before it.
pub proof fn everything_but_listening_is_logged(
    entries: Seq<(u64, EntryView)>,
    capacity: nat,
    at: u64,
    event: UiEvent,
)
    requires
        entries.len() < capacity,
    ensures
        ({
            let after = logged(entries, capacity, at, event);
            match event {
                UiEvent::Listening(_) => after == entries,
                UiEvent::Heard(text) => after == entries.push(
                    (at, EntryView::Recognition { text: text@, matches: Seq::empty() }),
                ),
                UiEvent::Matched { .. } => true,
                _ => after == entries.push((at, EntryView::Other(event))),
            }
        }),
{
}

} // verus!
