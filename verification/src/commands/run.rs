//! `voice-orders run <profile> [-- <app> <args...>]`: how a session is put
//! together, what it reports, how a wrapped application is supervised, and the
//! code to leave with.

use super::ui::event::UiEvent;
use super::ui::plan::{plan_text, render_plan};
use super::ui::ReportMode;
use super::validate::Grammar;
use crate::config::system::ResolvedSettings;
use crate::errors::{
    in_context, wrapped_system_error, wrapped_user_error, Error, ErrorView, Kind,
};
use crate::hotkey::ListenMode;
use crate::output::CompiledOutput;
use crate::path::{file_name, last_component};
use crate::recognition::{AudioMsg, RecognitionEvent};
use crate::text::{
    a_part_occurs, decimal, decimal_of, occurs_in, signed_decimal, signed_decimal_of,
};
use crate::time::Duration;
use vstd::prelude::*;

verus! {

/// What `run` was asked for.
#[derive(Debug, Clone, PartialEq, Eq)]
pub struct RunArgs {
    /// The profile to run: a local path or an https:// URL.
    pub profile: String,
    /// Application to launch; voice-orders exits when it exits.
    pub app: Vec<String>,
    /// The model to recognize with. Overrides the profile's `model:` field and
    /// `$VOSK_MODEL_PATH`.
    pub model: Option<String>,
    /// Print recognition events (partials/finals) for debugging.
    pub debug_recognition: bool,
}

/// The sample rate we ask the microphone for and hand to the recognizer.
pub const RECOGNIZER_SAMPLE_RATE: u32 = 16_000;

/// Capacity of the recognition-event channel.
pub const EVENTS_CHANNEL_CAPACITY: usize = 64;

/// Capacity of the command queue between the matcher and its consumer.
pub const COMMAND_QUEUE_CAPACITY: usize = 32;

/// How many seconds a child gets to wind itself up after we ask it to stop.
pub const SIGTERM_GRACE_SECONDS: u64 = 5;

/// How many seconds we wait for a child to disappear after a kill it cannot
/// refuse.
pub const KILL_GRACE_SECONDS: u64 = 2;

/// How long a child gets to wind itself up after we ask it to stop.
pub open spec fn sigterm_grace() -> Duration {
    Duration { seconds: SIGTERM_GRACE_SECONDS, nanos: 0 }
}

// --- What a session is made of --------------------------------------------
/// How much of what it hears a session says out loud.
#[derive(Debug, Clone, Copy, PartialEq, Eq, Structural)]
pub enum Narration {
    /// Say nothing.
    Silent,
    /// Report finalized utterances.
    Utterances,
    /// Report every event, partials included.
    Everything,
}

/// How much of what it hears a session says out loud.
///
/// Plain `run` stays silent unless asked: its stdout is the wrapped
/// application's. Under the UI there is a log to fill, so utterances are
/// reported.
pub fn narration_for(mode: ReportMode, debug_recognition: bool) -> (narration: Narration)
    ensures
        narration == if debug_recognition {
            Narration::Everything
        } else if mode == ReportMode::Tui {
            Narration::Utterances
        } else {
            Narration::Silent
        },
{
    match (mode, debug_recognition) {
        (_, true) => Narration::Everything,
        (ReportMode::Tui, false) => Narration::Utterances,
        (ReportMode::Plain, false) => Narration::Silent,
    }
}

/// What a session's way of reporting itself decides about it.
#[derive(Debug, Clone, Copy, PartialEq, Eq, Structural)]
pub struct Reporting {
    /// How much of what it hears it says out loud.
    pub narration: Narration,
    /// Whether changes of the listening state are reported, which the UI's
    /// footer shows.
    pub announce_listening: bool,
    /// Whether matched commands are reported on their way to the virtual
    /// keyboard.
    pub narrate_commands: bool,
}

/// What a session's way of reporting itself decides about it.
pub fn reporting_for(mode: ReportMode, debug_recognition: bool) -> (reporting: Reporting)
    ensures
        reporting.narration == if debug_recognition {
            Narration::Everything
        } else if mode == ReportMode::Tui {
            Narration::Utterances
        } else {
            Narration::Silent
        },
        reporting.announce_listening == (mode == ReportMode::Tui),
        reporting.narrate_commands == (mode == ReportMode::Tui),
{
    Reporting {
        narration: narration_for(mode, debug_recognition),
        announce_listening: mode == ReportMode::Tui,
        narrate_commands: mode == ReportMode::Tui,
    }
}

/// What the command-queue consumer does when listening stops.
#[derive(Debug, Clone, Copy, PartialEq, Eq, Structural)]
pub enum Interrupt {
    /// Nothing: a command in flight plays out in full.
    Never,
    /// It drops what it is doing, and what is queued behind it.
    WhenListeningStops,
}

/// Whether a hotkey which interrupts has been configured.
pub open spec fn interrupting(settings: ResolvedSettings) -> bool {
    settings.hotkey matches Some(hotkey) && hotkey.interrupt
}

/// What the command-queue consumer does when listening stops.
///
/// Without a hotkey the listening state never changes at all, so there is
/// nothing which could ever interrupt.
pub fn interrupt_for(settings: &ResolvedSettings) -> (interrupt: Interrupt)
    ensures
        interrupt == if interrupting(*settings) {
            Interrupt::WhenListeningStops
        } else {
            Interrupt::Never
        },
{
    match &settings.hotkey {
        Some(hotkey) => if hotkey.interrupt {
            Interrupt::WhenListeningStops
        } else {
            Interrupt::Never
        },
        None => Interrupt::Never,
    }
}

/// Which parts a session is made of, and the state it starts in.
#[derive(Debug, Clone, Copy, PartialEq, Eq, Structural)]
pub struct PipelinePlan {
    /// How the hotkey changes the listening state, where there is one.
    pub mode: Option<ListenMode>,
    /// The listening state the session starts in.
    pub listening: bool,
    /// Whether a narrator stands between the recognizer and the matcher.
    pub narrated: bool,
    /// Whether a hotkey is watched, and its state carried over to the audio
    /// path. Without one, nothing may keep a spare audio sender alive.
    pub bridged: bool,
    /// Whether changes of the listening state are reported.
    pub announced: bool,
    /// What the command-queue consumer does when listening stops.
    pub interrupt: Interrupt,
    /// The rate the microphone is asked for.
    pub sample_rate: u32,
}

/// The mode of the hotkey some settings come to.
pub open spec fn mode_of(settings: ResolvedSettings) -> Option<ListenMode> {
    match settings.hotkey {
        Some(hotkey) => Some(hotkey.mode),
        None => None,
    }
}

/// Decides which parts a session is made of.
///
/// With no hotkey configured we are always listening; with one, its mode
/// decides where we start, which `initial` says.
pub fn plan_pipeline(
    settings: &ResolvedSettings,
    narration: Narration,
    announce_listening: bool,
    initial: bool,
) -> (plan: PipelinePlan)
    ensures
        plan.mode == mode_of(*settings),
        plan.listening == (settings.hotkey is None || initial),
        plan.narrated == (narration != Narration::Silent),
        plan.bridged == (settings.hotkey is Some),
        plan.announced == (settings.hotkey is Some && announce_listening),
        plan.interrupt == if interrupting(*settings) {
            Interrupt::WhenListeningStops
        } else {
            Interrupt::Never
        },
        plan.sample_rate == 16_000,
{
    let mode = match &settings.hotkey {
        Some(hotkey) => Some(hotkey.mode),
        None => None,
    };
    PipelinePlan {
        mode,
        listening: mode.is_none() || initial,
        narrated: narration != Narration::Silent,
        bridged: mode.is_some(),
        announced: mode.is_some() && announce_listening,
        interrupt: interrupt_for(settings),
        sample_rate: RECOGNIZER_SAMPLE_RATE,
    }
}

/// What the pipeline ended up made of, for the startup report and the header.
#[derive(Debug, Clone, PartialEq, Eq)]
pub struct PipelineSummary {
    pub device: String,
    pub model: String,
    pub commands: usize,
    pub phrases: usize,
    pub mode: Option<ListenMode>,
    pub listening: bool,
}

impl PipelineSummary {
    /// What a pipeline is made of: the commands its grammar publishes, the
    /// phrases its recognizer is fed, and the plan it was put together by.
    pub fn new(
        device: String,
        model: String,
        grammar: &Grammar,
        phrases: usize,
        plan: &PipelinePlan,
    ) -> (summary: Self)
        ensures
            summary.device == device,
            summary.model == model,
            summary.commands == grammar.published@.len(),
            summary.phrases == phrases,
            summary.mode == plan.mode,
            summary.listening == plan.listening,
    {
        Self {
            device,
            model,
            commands: grammar.published.len(),
            phrases,
            mode: plan.mode,
            listening: plan.listening,
        }
    }

    /// How the listening arrangement reads in a report line.
    pub fn listening_summary(&self) -> (text: String)
        ensures
            text@ == match self.mode {
                Some(mode) => mode.spec_name() + " hotkey"@,
                None => "always listening"@,
            },
    {
        match self.mode {
            Some(mode) => {
                let mut text = mode.name().to_owned();
                text.append(" hotkey");
                text
            },
            None => "always listening".to_owned(),
        }
    }
}

/// What is said of a profile whose grammar does not compile.
pub fn grammar_error(diagnostics: Error, source: &str) -> (error: Error)
    ensures
        error@ == in_context(
            diagnostics@,
            Kind::User,
            "We could not compile the grammar of the profile at '"@ + source@
                + "' into something we can listen for."@,
            seq![
                "Each report above points at the exact place in the grammar it describes."@,
                "Run `voice-orders validate` on the profile to see every problem — and every warning — in one pass."@,
            ],
        ),
{
    let mut description = "We could not compile the grammar of the profile at '".to_owned();
    description.append(source);
    description.append("' into something we can listen for.");
    diagnostics.in_context(
        Kind::User,
        description,
        vec![
            "Each report above points at the exact place in the grammar it describes.",
            "Run `voice-orders validate` on the profile to see every problem — and every warning — in one pass.",
        ],
    )
}

// --- The listening state ---------------------------------------------------
/// What a change of the listening state brings about, in this order: the audio
/// callback's mirror is stored, the change is reported, and the recognizer is
/// told.
#[derive(Debug, Clone)]
pub struct ListeningChange {
    /// What the audio callback reads from now on.
    pub mirror: bool,
    /// What is reported.
    pub reported: Option<UiEvent>,
    /// What the recognizer is told.
    pub message: AudioMsg,
}

/// What a change of the listening state brings about.
///
/// Muting resets the recognizer; unmuting clears anything that may have raced
/// in around the transition, so listening always starts from a clean decoder.
pub fn listening_change(now: bool, announced: bool) -> (change: ListeningChange)
    ensures
        change.mirror == now,
        change.reported == if announced { Some(UiEvent::Listening(now)) } else { None },
        change.message == if now { AudioMsg::Clear } else { AudioMsg::Reset },
{
    ListeningChange {
        mirror: now,
        reported: if announced {
            Some(UiEvent::Listening(now))
        } else {
            None
        },
        message: if now {
            AudioMsg::Clear
        } else {
            AudioMsg::Reset
        },
    }
}

// --- Narration -------------------------------------------------------------
/// What is reported of recognition, with the utterance slot it belongs to.
#[derive(Debug, Clone, PartialEq, Eq)]
pub enum Narrated {
    /// A finalized utterance, which closed a slot.
    Heard { text: String, seq: u64 },
    /// A partial result, which belongs to the slot still open.
    Hearing { text: String, seq: u64 },
    /// A mute, which closed a slot.
    Muted { seq: u64 },
    /// The recognizer could not decode the audio.
    Warning(String),
}

/// What is reported of recognition, in mathematical terms.
#[verifier::ext_equal]
pub enum NarratedView {
    Heard { text: Seq<char>, seq: u64 },
    Hearing { text: Seq<char>, seq: u64 },
    Muted { seq: u64 },
    Warning(Seq<char>),
}

impl View for Narrated {
    type V = NarratedView;

    open spec fn view(&self) -> NarratedView {
        match self {
            Narrated::Heard { text, seq } => NarratedView::Heard { text: text@, seq: *seq },
            Narrated::Hearing { text, seq } => NarratedView::Hearing { text: text@, seq: *seq },
            Narrated::Muted { seq } => NarratedView::Muted { seq: *seq },
            Narrated::Warning(text) => NarratedView::Warning(text@),
        }
    }
}

impl Narrated {
    /// The event a session reports it as.
    pub fn into_event(self) -> (event: UiEvent)
        ensures
            event == match self {
                Narrated::Heard { text, seq } => UiEvent::Heard(text),
                Narrated::Hearing { text, seq } => UiEvent::Hearing(text),
                Narrated::Muted { seq } => UiEvent::Muted,
                Narrated::Warning(text) => UiEvent::Warning(text),
            },
    {
        match self {
            Narrated::Heard { text, .. } => UiEvent::Heard(text),
            Narrated::Hearing { text, .. } => UiEvent::Hearing(text),
            Narrated::Muted { .. } => UiEvent::Muted,
            Narrated::Warning(text) => UiEvent::Warning(text),
        }
    }
}

/// The report one recognition event deserves, or `None` when it is noise the
/// user has not asked to see. `closed` is how many utterance slots the stream
/// has closed *including this event*, and `live` says that the report is drawn
/// as live entries, which need every partial and mute.
pub open spec fn narrated(
    event: RecognitionEvent,
    narration: Narration,
    closed: u64,
    live: bool,
) -> Option<NarratedView> {
    if narration == Narration::Silent {
        None
    } else {
        match event {
            RecognitionEvent::Final(utterance) => Some(
                NarratedView::Heard { text: utterance.text@, seq: closed },
            ),
            RecognitionEvent::Failed => Some(
                NarratedView::Warning("the speech recognizer could not decode the audio"@),
            ),
            RecognitionEvent::Partial(text) => if live || narration == Narration::Everything {
                Some(NarratedView::Hearing { text: text@, seq: (closed + 1) as u64 })
            } else {
                None
            },
            RecognitionEvent::Muted => if live || narration == Narration::Everything {
                Some(NarratedView::Muted { seq: closed })
            } else {
                None
            },
        }
    }
}

/// The report one recognition event deserves, or `None` when it is noise the
/// user has not asked to see.
pub fn narration_event(
    event: &RecognitionEvent,
    narration: Narration,
    closed: u64,
    live: bool,
) -> (reported: Option<Narrated>)
    requires
        closed < u64::MAX,
    ensures
        match reported {
            Some(reported) => narrated(*event, narration, closed, live) == Some(reported@),
            None => narrated(*event, narration, closed, live) is None,
        },
{
    if narration == Narration::Silent {
        return None;
    }
    match event {
        // A finalized utterance is the whole point: it is what the matcher gets
        // to work with, so it is reported whenever anything is reported at all.
        RecognitionEvent::Final(utterance) => Some(
            Narrated::Heard { text: utterance.text.clone(), seq: closed },
        ),
        // A recognizer which cannot decode is reported as loudly as an
        // utterance: without it, a session where nothing works looks exactly
        // like one where nobody spoke.
        RecognitionEvent::Failed => Some(
            Narrated::Warning("the speech recognizer could not decode the audio".to_owned()),
        ),
        RecognitionEvent::Partial(text) => if live || narration == Narration::Everything {
            Some(Narrated::Hearing { text: text.clone(), seq: closed + 1 })
        } else {
            None
        },
        RecognitionEvent::Muted => if live || narration == Narration::Everything {
            Some(Narrated::Muted { seq: closed })
        } else {
            None
        },
    }
}

/// Whether a recognition event closes an utterance slot: every utterance does,
/// and every mute.
pub open spec fn closes_slot(event: RecognitionEvent) -> bool {
    event is Final || event is Muted
}

/// How many utterance slots some recognition events close.
pub open spec fn slots_closed(events: Seq<RecognitionEvent>) -> nat
    decreases events.len(),
{
    if events.len() == 0 {
        0
    } else {
        slots_closed(events.drop_last()) + if closes_slot(events.last()) { 1nat } else { 0 }
    }
}

/// Reports recognition events on their way to the matcher, counting utterance
/// slots exactly as the matcher counts them.
#[derive(Debug, Clone, Copy, PartialEq, Eq, Structural)]
pub struct Narrator {
    /// How much is reported.
    pub narration: Narration,
    /// Whether the report is drawn as live entries.
    pub live: bool,
    /// How many utterance slots have been closed.
    pub closed: u64,
}

impl Narrator {
    /// A narrator which has heard nothing.
    pub fn new(narration: Narration, live: bool) -> (narrator: Self)
        ensures
            narrator == (Narrator { narration, live, closed: 0 }),
    {
        Narrator { narration, live, closed: 0 }
    }

    /// What is reported of one more event.
    pub fn observe(&mut self, event: &RecognitionEvent) -> (reported: Option<Narrated>)
        requires
            old(self).closed < u64::MAX - 1,
        ensures
            *final(self) == (Narrator {
                closed: (old(self).closed + if closes_slot(*event) { 1int } else { 0 }) as u64,
                ..*old(self)
            }),
            match reported {
                Some(reported) => narrated(
                    *event,
                    old(self).narration,
                    final(self).closed,
                    old(self).live,
                ) == Some(reported@),
                None => narrated(
                    *event,
                    old(self).narration,
                    final(self).closed,
                    old(self).live,
                ) is None,
            },
    {
        match event {
            RecognitionEvent::Final(_) | RecognitionEvent::Muted => {
                self.closed = self.closed + 1;
            },
            _ => {},
        }
        narration_event(event, self.narration, self.closed, self.live)
    }
}

/// A session which narrates nothing reports nothing.
pub proof fn silence_is_silence(event: RecognitionEvent, closed: u64, live: bool)
    ensures
        narrated(event, Narration::Silent, closed, live) is None,
{
}

/// Whatever a session reports, it reports every utterance.
pub proof fn utterances_are_always_reported(
    event: RecognitionEvent,
    narration: Narration,
    closed: u64,
    live: bool,
)
    requires
        narration != Narration::Silent,
        event is Final,
    ensures
        narrated(event, narration, closed, live) is Some,
{
}

/// What is reported of the event at a place in a stream, by a narrator which
/// has observed the stream from its start.
pub open spec fn narrated_at(
    events: Seq<RecognitionEvent>,
    i: int,
    narration: Narration,
    live: bool,
) -> Option<NarratedView> {
    narrated(events[i], narration, slots_closed(events.take(i + 1)) as u64, live)
}

/// The utterance slot a report belongs to.
pub open spec fn slot_of(reported: NarratedView) -> Option<u64> {
    match reported {
        NarratedView::Heard { seq, .. } => Some(seq),
        NarratedView::Hearing { seq, .. } => Some(seq),
        NarratedView::Muted { seq } => Some(seq),
        NarratedView::Warning(_) => None,
    }
}

/// A stream closes no slot between two places unless an event there does, and
/// never more of them than it has events.
proof fn lemma_slots_between(events: Seq<RecognitionEvent>, i: int, j: int)
    requires
        0 <= i <= j <= events.len(),
    ensures
        slots_closed(events.take(i)) <= slots_closed(events.take(j)) <= j,
        (forall|k: int| i <= k < j ==> !closes_slot(#[trigger] events[k])) ==> slots_closed(
            events.take(i),
        ) == slots_closed(events.take(j)),
    decreases j,
{
    if i < j {
        assert(events.take(j).drop_last() == events.take(j - 1));
        lemma_slots_between(events, i, j - 1);
    } else if j > 0 {
        assert(events.take(j).drop_last() == events.take(j - 1));
        lemma_slots_between(events, j - 1, j - 1);
    }
}

/// What is heard on the way to an utterance, or to a mute, is reported under
/// the slot which that utterance or mute closes.
pub proof fn a_partial_shares_the_slot_it_ends_up_in(
    events: Seq<RecognitionEvent>,
    i: int,
    j: int,
    narration: Narration,
)
    requires
        0 <= i < j < events.len() < u64::MAX,
        narration != Narration::Silent,
        events[i] is Partial,
        closes_slot(events[j]),
        forall|k: int| i < k < j ==> !closes_slot(#[trigger] events[k]),
    ensures
        match (narrated_at(events, i, narration, true), narrated_at(events, j, narration, true)) {
            (Some(partial), Some(closing)) => slot_of(partial) is Some && slot_of(partial)
                == slot_of(closing),
            _ => false,
        },
{
    assert(events.take(j + 1).drop_last() == events.take(j));
    lemma_slots_between(events, i + 1, j);
}

/// No two utterances are reported under one slot, and a later one is reported
/// under a later slot.
pub proof fn every_utterance_has_its_own_slot(
    events: Seq<RecognitionEvent>,
    i: int,
    j: int,
    narration: Narration,
    live: bool,
)
    requires
        0 <= i < j < events.len() < u64::MAX,
        narration != Narration::Silent,
        events[i] is Final,
        events[j] is Final,
    ensures
        match (narrated_at(events, i, narration, live), narrated_at(events, j, narration, live)) {
            (Some(NarratedView::Heard { seq: earlier, .. }), Some(
                NarratedView::Heard { seq: later, .. },
            )) => earlier < later,
            _ => false,
        },
{
    assert(events.take(j + 1).drop_last() == events.take(j));
    lemma_slots_between(events, i + 1, j);
    lemma_slots_between(events, j, j + 1);
}

/// How a matched command is reported on its way to the virtual keyboard.
pub fn narrate_command(command: &str, output: &CompiledOutput) -> (event: UiEvent)
    ensures
        event matches UiEvent::Matched { name, plan } && name@ == command@ && plan@ == plan_text(
            output@,
        ),
{
    UiEvent::Matched { name: command.to_owned(), plan: render_plan(output) }
}

// --- The wrapped application ------------------------------------------------
/// How to start the wrapped application.
#[derive(Debug, Clone, PartialEq, Eq)]
pub struct ChildStart {
    pub executable: String,
    pub arguments: Vec<String>,
    /// Whether its output is read by us rather than inherited.
    pub piped: bool,
}

/// How to start the wrapped application, if we were given one.
///
/// In plain mode its output is **inherited**, exactly as though we were not in
/// the way at all. Under the terminal UI it is **piped** instead: an inherited
/// child would write straight over the screen.
pub fn child_to_start(app: &[String], mode: ReportMode) -> (start: Option<ChildStart>)
    ensures
        match start {
            Some(start) => {
                &&& app.len() > 0
                &&& start.executable == app@[0]
                &&& start.arguments@ == app@.skip(1)
                &&& start.piped == (mode == ReportMode::Tui)
            },
            None => app.len() == 0,
        },
{
    if app.len() == 0 {
        return None;
    }
    let mut arguments: Vec<String> = Vec::new();
    for i in 1..app.len()
        invariant
            app.len() > 0,
            arguments@ == app@.subrange(1, i as int),
    {
        arguments.push(app[i].clone());
        assert(app@.subrange(1, i + 1) == app@.subrange(1, i as int).push(app@[i as int]));
    }
    assert(app@.subrange(1, app.len() as int) == app@.skip(1));
    Some(
        ChildStart {
            executable: app[0].clone(),
            arguments,
            piped: mode == ReportMode::Tui,
        },
    )
}

/// What is said of an application which could not be started.
pub fn spawn_error(executable: &str, reason: String) -> (error: Error)
    ensures
        error@ == wrapped_user_error(
            reason@,
            "We could not start '"@ + executable@ + "'."@,
            seq![
                "Check that the program exists, is executable, and is spelled correctly — everything after the '--' is passed to it untouched."@,
                "Steam launch options should read `voice-orders run profile.yaml -- %command%`, with the '--' before %command%."@,
            ],
        ),
{
    let mut description = "We could not start '".to_owned();
    description.append(executable);
    description.append("'.");
    Error::wrap_user(
        reason,
        description,
        vec![
            "Check that the program exists, is executable, and is spelled correctly — everything after the '--' is passed to it untouched.",
            "Steam launch options should read `voice-orders run profile.yaml -- %command%`, with the '--' before %command%.",
        ],
    )
}

/// What is said of a shutdown handler which could not be installed, which is
/// never the user's fault.
pub fn signal_handler_error(reason: String, signal: &str) -> (error: Error)
    ensures
        error@ == wrapped_system_error(
            reason@,
            "We could not install a handler for the "@ + signal@ + " signal."@,
            seq!["Please report this issue on GitHub so that we can investigate."@],
        ),
{
    let mut description = "We could not install a handler for the ".to_owned();
    description.append(signal);
    description.append(" signal.");
    Error::wrap_system(
        reason,
        description,
        vec!["Please report this issue on GitHub so that we can investigate."],
    )
}

/// What to call the wrapped application in the UI: the executable's file name,
/// not the whole path a launch command runs to.
pub fn program_name(app: &[String], windows: bool) -> (name: Option<String>)
    ensures
        match name {
            Some(name) => app.len() > 0 && name@ == match last_component(windows, app@[0]@) {
                Some(component) => component,
                None => app@[0]@,
            },
            None => app.len() == 0,
        },
{
    if app.len() == 0 {
        return None;
    }
    match file_name(windows, app[0].as_str()) {
        Some(name) => Some(name),
        None => Some(app[0].clone()),
    }
}

/// How a session under the terminal UI was asked to stop.
#[derive(Debug, Clone, Copy, PartialEq, Eq, Structural)]
pub enum Stop {
    /// The user pressed `q` or Ctrl-C. Raw mode means both arrive as
    /// *keystrokes*, which nobody but us has seen.
    Keyboard,
    /// A signal reached the process the ordinary way.
    Signal,
}

/// What a shutdown owes the wrapped application.
#[derive(Debug, Clone, Copy, PartialEq, Eq, Structural)]
pub enum Shutdown {
    /// Nothing beyond ending the session: either there is no child, or a real
    /// signal has already reached it.
    Quiet,
    /// The child never saw the interrupt, so we have to send it one.
    ForwardSigint,
}

/// What stopping owes the wrapped application: a real signal was delivered to
/// our whole process group, the child included, and forwarding it would double
/// it.
pub fn shutdown_for(stop: Stop, has_child: bool) -> (shutdown: Shutdown)
    ensures
        shutdown == if stop == Stop::Keyboard && has_child {
            Shutdown::ForwardSigint
        } else {
            Shutdown::Quiet
        },
{
    match (stop, has_child) {
        (Stop::Keyboard, true) => Shutdown::ForwardSigint,
        (Stop::Signal, _) | (Stop::Keyboard, false) => Shutdown::Quiet,
    }
}

/// Why the session ended.
#[derive(Debug, Clone, Copy, PartialEq, Eq, Structural)]
pub enum Ending {
    /// The wrapped application exited with this code, which becomes ours.
    Child(i32),
    /// The session was interrupted.
    Interrupted,
    /// We were asked to terminate, and passed it on to the child, which either
    /// exited in time or did not.
    Terminated { child_exited: bool },
}

impl Ending {
    /// The exit code to leave with.
    pub open spec fn spec_exit_code(self) -> i32 {
        match self {
            Ending::Child(code) => code,
            _ => 0,
        }
    }

    /// The exit code to leave with. Only the child's own code is propagated: a
    /// signalled shutdown is a *successful* one from our point of view.
    pub fn exit_code(self) -> (code: i32)
        ensures
            code == self.spec_exit_code(),
    {
        match self {
            Ending::Child(code) => code,
            Ending::Interrupted | Ending::Terminated { .. } => 0,
        }
    }

    /// How the ending reads.
    pub fn text(self) -> (text: String)
        ensures
            text@ == match self {
                Ending::Child(code) => "The application exited with code "@ + signed_decimal(
                    code as int,
                ),
                Ending::Interrupted => "Interrupted"@,
                Ending::Terminated { child_exited } => if child_exited {
                    "Terminated; the application stopped"@
                } else {
                    "Terminated; the application did not stop in time"@
                },
            },
    {
        match self {
            Ending::Child(code) => {
                let mut text = "The application exited with code ".to_owned();
                text.append(signed_decimal_of(code).as_str());
                text
            },
            Ending::Interrupted => "Interrupted".to_owned(),
            Ending::Terminated { child_exited } => if child_exited {
                "Terminated; the application stopped".to_owned()
            } else {
                "Terminated; the application did not stop in time".to_owned()
            },
        }
    }
}

/// What ended the wait of a supervised session.
#[derive(Debug, Clone, Copy, PartialEq, Eq, Structural)]
pub enum Outcome {
    /// The application exited, with a code unless a signal ended it.
    Exited(Option<i32>),
    /// We can no longer tell how the application finished.
    Lost,
    /// The session was interrupted.
    Interrupt(Shutdown),
    /// We were asked to terminate.
    Terminate,
}

/// Which of the two "please stop" signals is passed on to the child.
#[derive(Debug, Clone, Copy, PartialEq, Eq, Structural)]
pub enum Signal {
    /// The interrupt a real Ctrl-C would have delivered.
    Interrupt,
    /// The termination a shutdown delivers.
    Terminate,
}

impl Signal {
    /// What this signal means, for the message a failure to send it produces.
    pub fn what(self) -> (what: &'static str)
        ensures
            what@ == match self {
                Signal::Interrupt => "interrupt"@,
                Signal::Terminate => "shutdown"@,
            },
    {
        match self {
            Signal::Interrupt => "interrupt",
            Signal::Terminate => "shutdown",
        }
    }
}

/// What a supervised session does once its wait has ended.
#[derive(Debug, Clone, Copy, PartialEq, Eq, Structural)]
pub enum Supervision {
    /// The session is over.
    End(Ending),
    /// The child is asked to stop first; see [`ending_after`].
    Forward(Signal),
}

/// What a supervised session does once its wait has ended.
///
/// An application which exited without a code, or which was lost track of, is
/// reported as a failure rather than a clean exit.
pub fn supervise(outcome: Outcome, has_child: bool) -> (supervision: Supervision)
    ensures
        supervision == match outcome {
            Outcome::Exited(Some(code)) => Supervision::End(Ending::Child(code)),
            Outcome::Exited(None) | Outcome::Lost => Supervision::End(Ending::Child(1)),
            Outcome::Interrupt(shutdown) => if shutdown == Shutdown::ForwardSigint && has_child {
                Supervision::Forward(Signal::Interrupt)
            } else {
                Supervision::End(Ending::Interrupted)
            },
            Outcome::Terminate => if has_child {
                Supervision::Forward(Signal::Terminate)
            } else {
                Supervision::End(Ending::Terminated { child_exited: true })
            },
        },
{
    match outcome {
        Outcome::Exited(Some(code)) => Supervision::End(Ending::Child(code)),
        Outcome::Exited(None) | Outcome::Lost => Supervision::End(Ending::Child(1)),
        Outcome::Interrupt(Shutdown::Quiet) => Supervision::End(Ending::Interrupted),
        Outcome::Interrupt(Shutdown::ForwardSigint) => if has_child {
            Supervision::Forward(Signal::Interrupt)
        } else {
            Supervision::End(Ending::Interrupted)
        },
        Outcome::Terminate => if has_child {
            Supervision::Forward(Signal::Terminate)
        } else {
            Supervision::End(Ending::Terminated { child_exited: true })
        },
    }
}

/// How the session ends once the child has been asked to stop.
pub fn ending_after(signal: Signal, child_exited: bool) -> (ending: Ending)
    ensures
        ending == match signal {
            Signal::Interrupt => Ending::Interrupted,
            Signal::Terminate => Ending::Terminated { child_exited },
        },
{
    match signal {
        Signal::Interrupt => Ending::Interrupted,
        Signal::Terminate => Ending::Terminated { child_exited },
    }
}

/// What the UI logs of the way a session ended: a session which ended because
/// the wrapped application exited says so.
pub fn ending_event(ending: Ending, program: Option<String>) -> (event: Option<UiEvent>)
    ensures
        event == match (ending, program) {
            (Ending::Child(code), Some(program)) => Some(UiEvent::ChildExited { program, code }),
            _ => None,
        },
{
    match (ending, program) {
        (Ending::Child(code), Some(program)) => Some(UiEvent::ChildExited { program, code }),
        _ => None,
    }
}

/// How a line the wrapped application printed is reported.
pub fn child_line(program: &str, line: String) -> (event: UiEvent)
    ensures
        event matches UiEvent::Child { program: named, line: printed } && named@ == program@
            && printed == line,
{
    UiEvent::Child { program: program.to_owned(), line }
}

/// What is said of a signal which could not be passed on.
pub fn signal_warning(signal: Signal, reason: &str) -> (warning: String)
    ensures
        warning@ == "We could not pass the "@ + match signal {
            Signal::Interrupt => "interrupt"@,
            Signal::Terminate => "shutdown"@,
        } + " signal on to the application ("@ + reason@ + ")."@,
{
    let mut warning = "We could not pass the ".to_owned();
    warning.append(signal.what());
    warning.append(" signal on to the application (");
    warning.append(reason);
    warning.append(").");
    warning
}

/// What a platform can do about a wrapped application which will not stop when
/// it is asked to.
#[derive(Debug, Clone, Copy, PartialEq, Eq, Structural)]
pub enum Containment {
    /// Signals, and nothing beyond them.
    Signals,
    /// A job object holding the child and everything it started.
    JobObject,
}

/// The containment of a platform: a job object is Windows' only guarantee, and
/// nothing else needs one.
pub fn containment_of(windows: bool) -> (containment: Containment)
    ensures
        containment == if windows { Containment::JobObject } else { Containment::Signals },
{
    if windows {
        Containment::JobObject
    } else {
        Containment::Signals
    }
}

/// A step of taking charge of a wrapped application which failed.
#[derive(Debug, Clone, Copy, PartialEq, Eq, Structural)]
pub enum ContainFailure {
    /// The job object could not be created.
    Create,
    /// It could not be told to stop the application when it is closed.
    Configure,
    /// The application could not be put into it.
    Assign,
}

/// What is said of an application we could not take charge of. It is a warning
/// rather than an error: refusing to run the session over it would be worse
/// than running it without the backstop.
pub fn containment_warning(failure: ContainFailure, reason: &str) -> (warning: String)
    ensures
        warning@ == match failure {
            ContainFailure::Create => "We could not create the job object which stops the application when voice-orders does ("@
                + reason@ + ")."@,
            ContainFailure::Configure => "We could not configure the job object which stops the application when voice-orders does ("@
                + reason@ + ")."@,
            ContainFailure::Assign => "We could not take charge of the application's process tree ("@
                + reason@ + "); if voice-orders is killed, the application may keep running."@,
        },
{
    let mut warning = match failure {
        ContainFailure::Create => "We could not create the job object which stops the application when voice-orders does (".to_owned(),
        ContainFailure::Configure => "We could not configure the job object which stops the application when voice-orders does (".to_owned(),
        ContainFailure::Assign => "We could not take charge of the application's process tree (".to_owned(),
    };
    warning.append(reason);
    match failure {
        ContainFailure::Assign => {
            warning.append("); if voice-orders is killed, the application may keep running.");
        },
        _ => {
            warning.append(").");
        },
    }
    warning
}

/// One step of stopping a wrapped application.
#[derive(Debug, Clone, Copy, PartialEq, Eq, Structural)]
pub enum StopStep {
    /// Ask it to stop.
    Ask(Signal),
    /// Give it this long to go on its own.
    Wait(Duration),
    /// Stop it ourselves, and everything it started with it.
    Kill,
}

/// The ordered steps for stopping a wrapped application.
#[derive(Debug, Clone, PartialEq, Eq)]
pub struct ChildStopPlan {
    steps: Vec<StopStep>,
}

/// The steps for stopping a child, in the order they are taken.
pub open spec fn stop_steps(signal: Signal, containment: Containment) -> Seq<StopStep> {
    let asked = seq![StopStep::Ask(signal), StopStep::Wait(sigterm_grace())];
    if containment == Containment::JobObject {
        asked.push(StopStep::Kill)
    } else {
        asked
    }
}

impl View for ChildStopPlan {
    type V = Seq<StopStep>;

    closed spec fn view(&self) -> Seq<StopStep> {
        self.steps@
    }
}

impl ChildStopPlan {
    /// How a platform stops a child it is forwarding `signal` to.
    pub fn new(signal: Signal, containment: Containment) -> (plan: Self)
        ensures
            plan@ == stop_steps(signal, containment),
    {
        let mut steps: Vec<StopStep> = vec![
            StopStep::Ask(signal),
            StopStep::Wait(Duration::from_secs(SIGTERM_GRACE_SECONDS)),
        ];
        if containment == Containment::JobObject {
            steps.push(StopStep::Kill);
        }
        assert(steps@ =~= stop_steps(signal, containment));
        ChildStopPlan { steps }
    }

    /// The steps, in the order they are taken.
    pub fn steps(&self) -> (steps: &[StopStep])
        ensures
            steps@ == self@,
    {
        self.steps.as_slice()
    }

    /// Whether the plan ends by stopping the application itself.
    pub fn kills(&self) -> (kills: bool)
        ensures
            kills == self@.contains(StopStep::Kill),
    {
        for i in 0..self.steps.len()
            invariant
                forall|j: int| 0 <= j < i ==> self@[j] != StopStep::Kill,
        {
            if self.steps[i] == StopStep::Kill {
                assert(self@[i as int] == StopStep::Kill);
                return true;
            }
        }
        false
    }
}

/// What came of waiting for a child to exit.
#[derive(Debug, Clone, Copy, PartialEq, Eq, Structural)]
pub enum Waited {
    /// It exited.
    Exited,
    /// We lost track of it.
    Lost,
    /// It was still there in the end.
    TimedOut,
}

/// What performing one step of a plan came to.
#[derive(Debug, Clone, Copy, PartialEq, Eq, Structural)]
pub enum Performed {
    /// The child was asked to stop.
    Asked,
    /// The child was waited for.
    Waited(Waited),
    /// The child could not be killed.
    NotKilled,
    /// The child was killed, and this is whether it was seen to go.
    Killed { exited: bool },
}

/// Stopping a child, step by step.
#[derive(Debug, Clone, PartialEq, Eq)]
pub struct Stopping {
    plan: ChildStopPlan,
    next: usize,
    exited: bool,
}

/// Where stopping a child has got to.
#[verifier::ext_equal]
pub struct StoppingView {
    /// The steps which are left.
    pub left: Seq<StopStep>,
    /// Whether the child has been seen to exit.
    pub exited: bool,
}

impl View for Stopping {
    type V = StoppingView;

    closed spec fn view(&self) -> StoppingView {
        StoppingView { left: self.plan@.skip(self.next as int), exited: self.exited }
    }
}

/// Where stopping a child gets to with one more step. A child which exits on
/// its own, or cannot be killed, leaves nothing to be done.
pub open spec fn stop_further(stopping: StoppingView, performed: Performed) -> StoppingView {
    match performed {
        Performed::Asked => StoppingView { left: stopping.left.drop_first(), ..stopping },
        Performed::Waited(waited) => StoppingView {
            left: if waited == Waited::Exited {
                Seq::empty()
            } else {
                stopping.left.drop_first()
            },
            exited: waited == Waited::Exited,
        },
        Performed::NotKilled => StoppingView { left: Seq::empty(), ..stopping },
        Performed::Killed { exited } => StoppingView {
            left: stopping.left.drop_first(),
            exited,
        },
    }
}

impl Stopping {
    /// The next step to perform is one of the plan's.
    pub closed spec fn wf(&self) -> bool {
        self.next <= self.plan@.len()
    }

    /// Stopping a child, from the start. A child which has been reaped already
    /// leaves nothing to be done.
    pub fn new(reaped: bool, signal: Signal, containment: Containment) -> (stopping: Self)
        ensures
            stopping.wf(),
            stopping@ == if reaped {
                (StoppingView { left: Seq::empty(), exited: true })
            } else {
                (StoppingView { left: stop_steps(signal, containment), exited: false })
            },
    {
        let plan = ChildStopPlan::new(signal, containment);
        let next: usize = if reaped {
            plan.steps().len()
        } else {
            0
        };
        let stopping = Stopping { plan, next, exited: reaped };
        assert(plan@.skip(0) == plan@);
        assert(plan@.skip(plan@.len() as int) == Seq::<StopStep>::empty());
        stopping
    }

    /// The step to perform next, or `None` once there is nothing left to do.
    pub fn next_step(&self) -> (step: Option<StopStep>)
        requires
            self.wf(),
        ensures
            match step {
                Some(step) => self@.left.len() > 0 && step == self@.left[0],
                None => self@.left.len() == 0,
            },
    {
        let steps = self.plan.steps();
        if self.next < steps.len() {
            Some(steps[self.next])
        } else {
            None
        }
    }

    /// Takes note of what performing the next step came to.
    pub fn perform(&mut self, performed: Performed)
        requires
            old(self).wf(),
            old(self)@.left.len() > 0,
        ensures
            final(self).wf(),
            final(self)@ == stop_further(old(self)@, performed),
    {
        let ghost before = self@;
        let all: usize = self.plan.steps().len();
        assert(self.plan@.skip(self.next as int).drop_first() == self.plan@.skip(self.next + 1));
        assert(self.plan@.skip(all as int) == Seq::<StopStep>::empty());
        match performed {
            Performed::Asked => {
                self.next = self.next + 1;
            },
            Performed::Waited(waited) => {
                self.exited = waited == Waited::Exited;
                self.next = if self.exited {
                    all
                } else {
                    self.next + 1
                };
            },
            Performed::NotKilled => {
                self.next = all;
            },
            Performed::Killed { exited } => {
                self.exited = exited;
                self.next = self.next + 1;
            },
        }
        assert(self@ =~= stop_further(before, performed));
    }

    /// Whether the child has been seen to exit.
    pub fn has_exited(&self) -> (exited: bool)
        ensures
            exited == self@.exited,
    {
        self.exited
    }
}

/// A child is asked before it is waited for, and waited for before it is
/// killed.
pub proof fn the_ask_comes_first_and_the_kill_last(signal: Signal, containment: Containment)
    ensures
        stop_steps(signal, containment)[0] == StopStep::Ask(signal),
        stop_steps(signal, containment)[1] is Wait,
        forall|i: int|
            0 <= i < stop_steps(signal, containment).len() && (#[trigger] stop_steps(
                signal,
                containment,
            )[i]) is Kill ==> i == 2,
        stop_steps(signal, containment).contains(StopStep::Kill) == (containment
            == Containment::JobObject),
{
    if containment == Containment::JobObject {
        assert(stop_steps(signal, containment)[2] == StopStep::Kill);
    }
}

/// A child which goes within the grace period is never killed, on any platform.
pub proof fn a_child_which_goes_in_time_is_left_alone(signal: Signal, containment: Containment)
    ensures
        ({
            let started = StoppingView { left: stop_steps(signal, containment), exited: false };
            let asked = stop_further(started, Performed::Asked);
            let waited = stop_further(asked, Performed::Waited(Waited::Exited));
            asked.left[0] == StopStep::Wait(sigterm_grace()) && waited.left.len() == 0
                && waited.exited
        }),
{
}

/// What is said of a child which did not exit on its own, if anything.
///
/// `escalating` says whether a kill follows, which is the only thing the
/// message may not lie about. `detail` is what waiting failed with, where it
/// did.
pub fn wait_warning(waited: Waited, grace: Duration, escalating: bool, detail: &str) -> (warning:
    Option<String>)
    ensures
        match (waited, warning) {
            (Waited::Exited, None) => true,
            (Waited::Lost, Some(warning)) => warning@
                == "We lost track of the application while it was shutting down ("@ + detail@
                + ")."@,
            (Waited::TimedOut, Some(warning)) => warning@ == "The application has not exited "@
                + decimal(grace.seconds as nat) + if escalating {
                "s after we asked it to; stopping it and everything it started."@
            } else {
                "s after we asked it to; shutting down anyway."@
            },
            _ => false,
        },
{
    match waited {
        Waited::Exited => None,
        Waited::Lost => {
            let mut warning =
                "We lost track of the application while it was shutting down (".to_owned();
            warning.append(detail);
            warning.append(").");
            Some(warning)
        },
        Waited::TimedOut => {
            let mut warning = "The application has not exited ".to_owned();
            warning.append(decimal_of(grace.seconds).as_str());
            if escalating {
                warning.append("s after we asked it to; stopping it and everything it started.");
            } else {
                warning.append("s after we asked it to; shutting down anyway.");
            }
            Some(warning)
        },
    }
}

// --- The way out -------------------------------------------------------------
/// How a task of the session came to its end.
#[derive(Debug, Clone)]
pub enum TaskEnd {
    /// As it should.
    Finished,
    /// With a failure of its own.
    Failed(Error),
    /// By panicking, or by being cut off.
    Stopped(String),
}

/// What a task which stopped unexpectedly is reported as.
pub open spec fn stopped_unexpectedly(what: Seq<char>, reason: Seq<char>) -> ErrorView {
    wrapped_system_error(
        reason,
        "The "@ + what + " stopped unexpectedly."@,
        seq!["Please report this issue on GitHub so that we can investigate."@],
    )
}

/// What the end of a task is reported as, if it is.
pub fn join_task(what: &str, end: TaskEnd) -> (failure: Option<Error>)
    ensures
        match (end, failure) {
            (TaskEnd::Finished, None) => true,
            (TaskEnd::Failed(error), Some(failure)) => failure == error,
            (TaskEnd::Stopped(reason), Some(failure)) => failure@ == stopped_unexpectedly(
                what@,
                reason@,
            ),
            _ => false,
        },
{
    match end {
        TaskEnd::Finished => None,
        TaskEnd::Failed(error) => Some(error),
        TaskEnd::Stopped(reason) => {
            let mut description = "The ".to_owned();
            description.append(what);
            description.append(" stopped unexpectedly.");
            Some(
                Error::wrap_system(
                    reason,
                    description,
                    vec!["Please report this issue on GitHub so that we can investigate."],
                ),
            )
        },
    }
}

/// What the end of the recognizer's thread is reported as, if it is.
pub fn join_recognizer(end: TaskEnd) -> (failure: Option<Error>)
    ensures
        match (end, failure) {
            (TaskEnd::Finished, None) => true,
            (TaskEnd::Failed(error), Some(failure)) => failure == error,
            (TaskEnd::Stopped(reason), Some(failure)) => failure@ == wrapped_system_error(
                reason@,
                "We lost track of the speech recognition thread while shutting down."@,
                seq!["Please report this issue on GitHub so that we can investigate."@],
            ),
            _ => false,
        },
{
    match end {
        TaskEnd::Finished => None,
        TaskEnd::Failed(error) => Some(error),
        TaskEnd::Stopped(reason) => Some(
            Error::wrap_system(
                reason,
                "We lost track of the speech recognition thread while shutting down.".to_owned(),
                vec!["Please report this issue on GitHub so that we can investigate."],
            ),
        ),
    }
}

/// The first of some failures, in the order they were collected.
pub open spec fn first_failure(failures: Seq<Option<Error>>) -> Option<Error>
    decreases failures.len(),
{
    if failures.len() == 0 {
        None
    } else {
        match failures[0] {
            Some(failure) => Some(failure),
            None => first_failure(failures.drop_first()),
        }
    }
}

/// What a shutdown failed with: the recognizer's failure, or else the first of
/// the tasks', or else the UI's, which is almost always a consequence.
pub fn shutdown_failure(
    recognizer: Option<Error>,
    tasks: Vec<Option<Error>>,
    ui: Option<Error>,
) -> (failure: Option<Error>)
    ensures
        failure == first_failure(seq![recognizer] + tasks@ + seq![ui]),
{
    let ghost all = seq![recognizer] + tasks@ + seq![ui];
    assert(all[0] == recognizer);
    if recognizer.is_some() {
        return recognizer;
    }
    let ghost rest = tasks@ + seq![ui];
    assert(all.drop_first() == rest);
    assert(rest.skip(0) == rest);
    let mut left = tasks;
    let ghost mut gone: int = 0;
    assert(tasks@.skip(0) == tasks@);
    while left.len() > 0
        invariant
            0 <= gone <= tasks@.len(),
            left@ == tasks@.skip(gone),
            rest == tasks@ + seq![ui],
            all == seq![recognizer] + tasks@ + seq![ui],
            first_failure(all) == first_failure(rest.skip(gone)),
        decreases left.len(),
    {
        assert(rest.skip(gone)[0] == left@[0]);
        assert(rest.skip(gone).drop_first() == rest.skip(gone + 1));
        let next = left.remove(0);
        if next.is_some() {
            return next;
        }
        proof {
            gone = gone + 1;
        }
        assert(left@ == tasks@.skip(gone));
    }
    assert(gone == tasks@.len());
    assert(rest.skip(gone) == seq![ui]);
    assert(seq![ui].drop_first() == Seq::<Option<Error>>::empty());
    assert(first_failure(seq![ui]) == ui) by {
        reveal_with_fuel(first_failure, 2);
    }
    ui
}

/// How the process leaves.
#[derive(Debug, Clone)]
pub enum Leaving {
    /// With a code, and nothing to say.
    Code(i32),
    /// With a code, having reported a failure.
    Warned(Error, i32),
    /// With a failure.
    Failed(Error),
}

/// How the process leaves: a failure on the way out is only allowed to change
/// the exit code when the child did not already have something to say.
pub open spec fn leaving_of(ending: Ending, failure: Option<Error>) -> Leaving {
    match failure {
        Some(error) => if ending.spec_exit_code() == 0 {
            Leaving::Failed(error)
        } else {
            Leaving::Warned(error, ending.spec_exit_code())
        },
        None => Leaving::Code(ending.spec_exit_code()),
    }
}

/// How the process leaves.
///
/// The wrapper contract is that we exit with the child's code, so a failure on
/// the way out is only allowed to change the exit code when the child did not
/// already have something to say.
pub fn leave(ending: Ending, failure: Option<Error>) -> (leaving: Leaving)
    ensures
        leaving == leaving_of(ending, failure),
{
    let code: i32 = ending.exit_code();
    match failure {
        Some(error) => if code == 0 {
            Leaving::Failed(error)
        } else {
            Leaving::Warned(error, code)
        },
        None => Leaving::Code(code),
    }
}

/// Whatever fails on the way out, a wrapped application's failing exit code is
/// the code we leave with.
pub proof fn the_childs_code_wins(code: i32, failure: Option<Error>)
    requires
        code != 0,
    ensures
        match leaving_of(Ending::Child(code), failure) {
            Leaving::Code(left) => left == code,
            Leaving::Warned(_, left) => left == code,
            Leaving::Failed(_) => false,
        },
{
}

/// What is reported of recognition is what was recognized: an utterance and a
/// partial in their own words, and partials and mutes only where they are asked
/// for.
pub proof fn narration_says_what_was_heard(
    event: RecognitionEvent,
    narration: Narration,
    closed: u64,
    live: bool,
)
    requires
        narration != Narration::Silent,
        closed < u64::MAX,
    ensures
        ({
            let reported = narrated(event, narration, closed, live);
            let everything = live || narration == Narration::Everything;
            &&& event matches RecognitionEvent::Final(utterance) ==> reported == Some(
                NarratedView::Heard { text: utterance.text@, seq: closed },
            )
            &&& event matches RecognitionEvent::Partial(text) ==> reported == if everything {
                Some(NarratedView::Hearing { text: text@, seq: (closed + 1) as u64 })
            } else {
                None
            }
            &&& event is Muted ==> reported == if everything {
                Some(NarratedView::Muted { seq: closed })
            } else {
                None
            }
            &&& event is Failed ==> reported is Some && reported->0 is Warning
        }),
{
}

/// Slots are counted without gaps: a stream closes one for each utterance and
/// for each mute, and for nothing else.
pub proof fn slots_are_counted_without_gaps(events: Seq<RecognitionEvent>)
    ensures
        slots_closed(events) == events.filter(
            |event: RecognitionEvent| event is Final || event is Muted,
        ).len(),
    decreases events.len(),
{
    reveal(Seq::filter);
    if events.len() > 0 {
        slots_are_counted_without_gaps(events.drop_last());
    }
}

/// The first thing which fails is what a shutdown reports: the failure before
/// which there is none, and nothing only where nothing failed.
pub proof fn the_first_failure_is_reported(failures: Seq<Option<Error>>, i: int)
    ensures
        0 <= i < failures.len() && failures[i] is Some && (forall|j: int|
            0 <= j < i ==> (#[trigger] failures[j]) is None) ==> first_failure(failures)
            == failures[i],
        first_failure(failures) is None <==> forall|j: int|
            0 <= j < failures.len() ==> (#[trigger] failures[j]) is None,
    decreases failures.len(),
{
    if failures.len() > 0 {
        let rest = failures.drop_first();
        the_first_failure_is_reported(rest, i - 1);
        if failures[0] is None {
            if 0 < i < failures.len() && failures[i] is Some && forall|j: int|
                0 <= j < i ==> (#[trigger] failures[j]) is None {
                assert(rest[i - 1] == failures[i]);
                assert forall|j: int| 0 <= j < i - 1 implies (#[trigger] rest[j]) is None by {
                    assert(rest[j] == failures[j + 1]);
                }
            }
            if first_failure(failures) is None {
                assert forall|j: int| 0 <= j < failures.len() implies (
                #[trigger] failures[j]) is None by {
                    if j > 0 {
                        assert(rest[j - 1] == failures[j]);
                    }
                }
            }
            if forall|j: int| 0 <= j < failures.len() ==> (#[trigger] failures[j]) is None {
                assert forall|j: int| 0 <= j < rest.len() implies (#[trigger] rest[j]) is None by {
                    assert(rest[j] == failures[j + 1]);
                }
            }
        }
    }
}

/// We leave with the wrapped application's code where nothing else fails, and
/// with success where the session was stopped; a failure on the way out is
/// always told, and is what we leave with where there is no other code.
pub proof fn no_failure_is_lost_on_the_way_out(ending: Ending, error: Error)
    ensures
        ending matches Ending::Child(code) ==> leaving_of(ending, None) == Leaving::Code(code),
        !(ending is Child) ==> leaving_of(ending, None) == Leaving::Code(0),
        !(ending is Child) ==> leaving_of(ending, Some(error)) == Leaving::Failed(error),
        ending matches Ending::Child(code) ==> leaving_of(ending, Some(error)) == if code == 0 {
            Leaving::Failed(error)
        } else {
            Leaving::Warned(error, code)
        },
{
}

/// A child which does not go within the grace period of five seconds is killed
/// where it can be, and else left to itself; a kill is the last thing done, and
/// the child counts as gone where it was seen to go.
pub proof fn a_child_which_stays_is_killed_where_it_can_be(
    signal: Signal,
    containment: Containment,
    waited: Waited,
    exited: bool,
)
    requires
        waited != Waited::Exited,
    ensures
        ({
            let started = StoppingView { left: stop_steps(signal, containment), exited: false };
            let asked = stop_further(started, Performed::Asked);
            let stayed = stop_further(asked, Performed::Waited(waited));
            let killed = stop_further(stayed, Performed::Killed { exited });
            let spared = stop_further(stayed, Performed::NotKilled);
            &&& started.left[0] == StopStep::Ask(signal)
            &&& asked.left[0] matches StopStep::Wait(grace) && grace.total_nanos() == 5_000_000_000
            &&& !stayed.exited
            &&& containment == Containment::Signals ==> stayed.left.len() == 0
            &&& containment == Containment::JobObject ==> {
                &&& stayed.left == seq![StopStep::Kill]
                &&& killed.left.len() == 0 && killed.exited == exited
                &&& spared.left.len() == 0 && !spared.exited
            }
        }),
{
    let started = StoppingView { left: stop_steps(signal, containment), exited: false };
    let asked = stop_further(started, Performed::Asked);
    let stayed = stop_further(asked, Performed::Waited(waited));
    if containment == Containment::JobObject {
        assert(stayed.left =~= seq![StopStep::Kill]);
    }
}

// --- What the decisions come to together --------------------------------------------------
/// An interrupt reaches a wrapped application once: one from the keyboard is
/// passed on, since nobody but us has seen it, and a signal, which has reached
/// the application already, is not.
pub proof fn an_interrupt_reaches_the_application_once(
    stop: Stop,
    has_child: bool,
    shutdown: Shutdown,
    supervision: Supervision,
)
    requires
        call_ensures(shutdown_for, (stop, has_child), shutdown),
        call_ensures(supervise, (Outcome::Interrupt(shutdown), has_child), supervision),
    ensures
        (supervision == Supervision::Forward(Signal::Interrupt)) == (stop == Stop::Keyboard
            && has_child),
        !(supervision is Forward) ==> supervision == Supervision::End(Ending::Interrupted),
{
}

/// Nothing is passed on to an application which is not there, and a termination
/// is passed on to one which is.
pub proof fn only_an_application_is_asked_to_stop(
    outcome: Outcome,
    has_child: bool,
    supervision: Supervision,
)
    requires
        call_ensures(supervise, (outcome, has_child), supervision),
    ensures
        supervision is Forward ==> has_child,
        has_child && outcome == Outcome::Terminate ==> supervision == Supervision::Forward(
            Signal::Terminate,
        ),
        outcome is Exited || outcome is Lost ==> supervision is End,
{
}

/// The wrapper contract: a session which ends because its application did leaves
/// with the application's code, and where there is none to be had, with a
/// failing one.
pub proof fn a_session_leaves_with_its_applications_code(
    outcome: Outcome,
    has_child: bool,
    supervision: Supervision,
)
    requires
        call_ensures(supervise, (outcome, has_child), supervision),
        outcome is Exited || outcome is Lost,
    ensures
        supervision matches Supervision::End(ending) && leaving_of(ending, None) matches Leaving::Code(
            left,
        ) && match outcome {
            Outcome::Exited(Some(code)) => left == code,
            _ => left != 0,
        },
{
}

/// A session which was asked to stop has not failed, and whether its application
/// went in time is told where it was asked to terminate.
pub proof fn being_asked_to_stop_is_no_failure(signal: Signal, child_exited: bool, ending: Ending)
    requires
        call_ensures(ending_after, (signal, child_exited), ending),
    ensures
        leaving_of(ending, None) == Leaving::Code(0),
        signal == Signal::Terminate ==> ending == (Ending::Terminated { child_exited }),
        signal == Signal::Interrupt ==> ending == Ending::Interrupted,
{
}

/// Without a hotkey we always listen and nothing can interrupt; with one, its
/// mode says where we start, and its changes are reported just where they are
/// to be.
pub proof fn only_a_hotkey_stops_the_listening(
    settings: &ResolvedSettings,
    narration: Narration,
    announce_listening: bool,
    initial: bool,
    plan: PipelinePlan,
)
    requires
        call_ensures(plan_pipeline, (settings, narration, announce_listening, initial), plan),
    ensures
        settings.hotkey is None ==> plan.listening && !plan.bridged && !plan.announced && plan.mode
            is None && plan.interrupt == Interrupt::Never,
        settings.hotkey matches Some(hotkey) ==> {
            &&& plan.bridged
            &&& plan.mode == Some(hotkey.mode)
            &&& plan.listening == initial
            &&& plan.announced == announce_listening
            &&& (plan.interrupt == Interrupt::WhenListeningStops) == hotkey.interrupt
        },
        plan.narrated == (narration != Narration::Silent),
        plan.sample_rate == 16_000,
{
}

/// A change of the listening state reaches everybody with the same news, and
/// whichever way it goes the recognizer starts afresh.
pub proof fn a_change_of_listening_reaches_everybody(
    now: bool,
    announced: bool,
    change: ListeningChange,
    back: ListeningChange,
)
    requires
        call_ensures(listening_change, (now, announced), change),
        call_ensures(listening_change, (!now, announced), back),
    ensures
        change.mirror == now,
        change.reported is Some == announced,
        change.reported matches Some(event) ==> event == UiEvent::Listening(change.mirror),
        change.message != back.message,
        change.message == AudioMsg::Clear || change.message == AudioMsg::Reset,
        now ==> change.message == AudioMsg::Clear,
{
}

/// An application is started just as it was given, and its output is only taken
/// from it where there is a screen it would write over.
pub proof fn an_application_is_started_as_it_was_given(
    app: &[String],
    mode: ReportMode,
    start: Option<ChildStart>,
)
    requires
        call_ensures(child_to_start, (app, mode), start),
    ensures
        start is Some == (app@.len() > 0),
        start matches Some(start) ==> seq![start.executable] + start.arguments@ == app@,
        start matches Some(start) ==> start.piped == (mode == ReportMode::Tui),
{
    if let Some(start) = start {
        assert(seq![start.executable] + start.arguments@ =~= app@);
    }
}

/// A plain session says nothing of what it hears unless it is asked to, one with
/// a screen always says what was understood, and debugging says everything.
pub proof fn a_plain_session_keeps_to_itself(
    mode: ReportMode,
    debug_recognition: bool,
    narration: Narration,
    reporting: Reporting,
)
    requires
        call_ensures(narration_for, (mode, debug_recognition), narration),
        call_ensures(reporting_for, (mode, debug_recognition), reporting),
    ensures
        reporting.narration == narration,
        (narration == Narration::Silent) == (mode == ReportMode::Plain && !debug_recognition),
        (narration == Narration::Everything) == debug_recognition,
        reporting.announce_listening == reporting.narrate_commands,
        reporting.announce_listening == (mode == ReportMode::Tui),
{
}

/// No way for a task to end but the proper one goes unreported, and a failure of
/// its own is reported as it is.
pub proof fn every_task_which_fails_is_reported(
    what: &str,
    end: TaskEnd,
    failure: Option<Error>,
    recognizer: Option<Error>,
)
    requires
        call_ensures(join_task, (what, end), failure),
        call_ensures(join_recognizer, (end,), recognizer),
    ensures
        failure is None == end is Finished,
        recognizer is None == end is Finished,
        end matches TaskEnd::Failed(error) ==> failure == Some(error) && recognizer == Some(error),
        end matches TaskEnd::Stopped(reason) ==> {
            &&& failure->0@.kind == Kind::System && recognizer->0@.kind == Kind::System
            &&& failure->0@.causes[0].text == reason@
            &&& recognizer->0@.causes[0].text == reason@
            &&& occurs_in(what@, failure->0@.description)
        },
{
    a_part_occurs("The "@, what@, " stopped unexpectedly."@);
}

/// An application which goes in time is not remarked on, and any other is.
pub proof fn an_application_which_stays_is_remarked_on(
    waited: Waited,
    grace: Duration,
    escalating: bool,
    detail: &str,
    warning: Option<String>,
)
    requires
        call_ensures(wait_warning, (waited, grace, escalating, detail), warning),
    ensures
        warning is None == waited is Exited,
        waited is Lost ==> occurs_in(detail@, warning->0@),
        waited is TimedOut ==> occurs_in(decimal(grace.seconds as nat), warning->0@),
{
    if waited is Lost {
        a_part_occurs(
            "We lost track of the application while it was shutting down ("@,
            detail@,
            ")."@,
        );
    }
    if waited is TimedOut {
        a_part_occurs(
            "The application has not exited "@,
            decimal(grace.seconds as nat),
            if escalating {
                "s after we asked it to; stopping it and everything it started."@
            } else {
                "s after we asked it to; shutting down anyway."@
            },
        );
    }
}

} // verus!
