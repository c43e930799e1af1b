//! A single `commands:` entry: the phrase to listen for and the output to emit
//! when it is heard.

use super::output::{
    chord_views, chords_keep_their_pace, chords_plan, compile_chords, compile_events, event_of,
    time_taken, Chord, OutputDefaults, RawEvent,
};
use crate::errors::{user_error, Error, ErrorView};
use crate::output::{CompiledOutput, KeyEvent};
use crate::text::{blank, is_blank, trimmed};
use crate::time::Duration;
use vstd::prelude::*;

verus! {

/// A phrase of the profile's phrase language.
#[derive(Debug, Clone, PartialEq, Eq)]
pub struct CommandPhrase {
    /// The phrase exactly as it was written.
    pub source: String,
    /// How many concrete phrases it expands into.
    pub expansions: u64,
}

/// One voice command: what to listen for, and what to press.
#[derive(Debug, Clone)]
pub struct CommandConfig {
    /// A friendly name for logs and reports. Defaults to the phrase source.
    pub name: Option<String>,
    /// The phrase to listen for.
    pub phrase: CommandPhrase,
    /// The shorthand output form: a list of single keys or chords.
    pub keys: Option<Vec<Chord>>,
    /// The explicit output form: `down` / `up` / `wait` steps, one for one
    /// with the compiled plan.
    pub events: Option<Vec<RawEvent>>,
    /// Overrides `defaults.duration` for this command's `keys:` list.
    pub duration: Option<Duration>,
    /// Overrides `defaults.interval` for this command's `keys:` list.
    pub interval: Option<Duration>,
}

/// What is said of a command with both output forms.
pub open spec fn both_forms(name: Seq<char>) -> ErrorView {
    user_error(
        "The command '"@ + name
            + "' has both a 'keys:' list and an 'events:' list, but a command may only use one output form."@,
        seq![
            "Keep 'keys:' for simple key presses and chords, or 'events:' when you need explicit 'down'/'up'/'wait' control — then remove the other one."@,
        ],
    )
}

/// What is said of a command with neither output form.
pub open spec fn neither_form(name: Seq<char>) -> ErrorView {
    user_error(
        "The command '"@ + name + "' does not say which keys to press."@,
        seq![
            "Add a 'keys:' list for simple presses, e.g. keys: [\"leftctrl+leftalt+t\"], or an 'events:' list for explicit 'down'/'up'/'wait' control."@,
        ],
    )
}

/// What is said of a command with an empty `keys:` list.
pub open spec fn empty_keys(name: Seq<char>) -> ErrorView {
    user_error(
        "The command '"@ + name + "' has an empty 'keys:' list, so it would press nothing."@,
        seq!["List at least one key or chord, e.g. keys: [\"4\"]."@],
    )
}

/// What is said of a command with an empty `events:` list.
pub open spec fn empty_events(name: Seq<char>) -> ErrorView {
    user_error(
        "The command '"@ + name + "' has an empty 'events:' list, so it would press nothing."@,
        seq!["List at least one step, e.g. '- down: x' followed by '- up: x'."@],
    )
}

impl CommandConfig {
    /// The name to use when talking about this command.
    pub open spec fn spec_display_name(&self) -> Seq<char> {
        match self.name {
            Some(name) if !blank(name@) => name@,
            _ => self.phrase.source@,
        }
    }

    /// What is wrong with the command's output form, if anything.
    pub open spec fn output_problem(&self) -> Option<ErrorView> {
        match (self.keys, self.events) {
            (Some(_), Some(_)) => Some(both_forms(self.spec_display_name())),
            (None, None) => Some(neither_form(self.spec_display_name())),
            (Some(chords), None) => if chords@.len() == 0 {
                Some(empty_keys(self.spec_display_name()))
            } else {
                None
            },
            (None, Some(events)) => if events@.len() == 0 {
                Some(empty_events(self.spec_display_name()))
            } else {
                None
            },
        }
    }

    /// The plan the command's output form stands for.
    pub open spec fn plan(&self, defaults: OutputDefaults) -> Seq<KeyEvent> {
        match self.keys {
            Some(chords) => chords_plan(
                chord_views(chords@),
                match self.duration {
                    Some(duration) => duration,
                    None => defaults.duration,
                },
                match self.interval {
                    Some(interval) => interval,
                    None => defaults.interval,
                },
            ),
            None => match self.events {
                Some(events) => events@.map_values(|step: RawEvent| event_of(step)),
                None => Seq::empty(),
            },
        }
    }

    /// The name to use when talking about this command: its `name:` if it has
    /// one which is not blank, otherwise the phrase exactly as it was written.
    pub fn display_name(&self) -> (name: &str)
        ensures
            name@ == self.spec_display_name(),
    {
        match &self.name {
            Some(name) => if is_blank(name.as_str()) {
                self.phrase.source.as_str()
            } else {
                name.as_str()
            },
            None => self.phrase.source.as_str(),
        }
    }

    /// Checks that exactly one output form is present and non-empty.
    pub fn validate_output(&self) -> (checked: Result<(), Error>)
        ensures
            match checked {
                Ok(()) => self.output_problem() is None,
                Err(error) => self.output_problem() == Some(error@),
            },
    {
        let mut description = "The command '".to_owned();
        description.append(self.display_name());
        match (&self.keys, &self.events) {
            (Some(_), Some(_)) => {
                description.append(
                    "' has both a 'keys:' list and an 'events:' list, but a command may only use one output form.",
                );
                let error = Error::user(
                    description,
                    vec![
                        "Keep 'keys:' for simple key presses and chords, or 'events:' when you need explicit 'down'/'up'/'wait' control — then remove the other one.",
                    ],
                );
                assert(error@ =~= both_forms(self.spec_display_name()));
                Err(error)
            },
            (None, None) => {
                description.append("' does not say which keys to press.");
                let error = Error::user(
                    description,
                    vec![
                        "Add a 'keys:' list for simple presses, e.g. keys: [\"leftctrl+leftalt+t\"], or an 'events:' list for explicit 'down'/'up'/'wait' control.",
                    ],
                );
                assert(error@ =~= neither_form(self.spec_display_name()));
                Err(error)
            },
            (Some(chords), None) => {
                if chords.len() > 0 {
                    return Ok(());
                }
                description.append("' has an empty 'keys:' list, so it would press nothing.");
                let error = Error::user(
                    description,
                    vec!["List at least one key or chord, e.g. keys: [\"4\"]."],
                );
                assert(error@ =~= empty_keys(self.spec_display_name()));
                Err(error)
            },
            (None, Some(events)) => {
                if events.len() > 0 {
                    return Ok(());
                }
                description.append("' has an empty 'events:' list, so it would press nothing.");
                let error = Error::user(
                    description,
                    vec!["List at least one step, e.g. '- down: x' followed by '- up: x'."],
                );
                assert(error@ =~= empty_events(self.spec_display_name()));
                Err(error)
            },
        }
    }

    /// Compiles this command's output into a flat event plan.
    ///
    /// `defaults` supplies the hold duration and inter-chord interval for the
    /// `keys:` shorthand; the command's own `duration:` / `interval:` override
    /// them when present.
    pub fn compile(&self, defaults: &OutputDefaults) -> (output: Result<CompiledOutput, Error>)
        ensures
            match output {
                Ok(output) => self.output_problem() is None && output@ == self.plan(*defaults),
                Err(error) => self.output_problem() == Some(error@),
            },
    {
        if let Err(error) = self.validate_output() {
            return Err(error);
        }
        let events = match (&self.keys, &self.events) {
            (Some(chords), _) => compile_chords(
                chords,
                match self.duration {
                    Some(duration) => duration,
                    None => defaults.duration,
                },
                match self.interval {
                    Some(interval) => interval,
                    None => defaults.interval,
                },
            ),
            (None, Some(events)) => compile_events(events),
            (None, None) => Vec::new(),
        };
        Ok(CompiledOutput::Keyboard(events))
    }
}

/// A command's own pacing wins over the shared one, and what it does not set is
/// taken from there: a `keys:` list takes the duration which applies as often as
/// it has chords, and the interval which applies once less.
pub proof fn a_commands_own_pacing_wins(command: CommandConfig, defaults: OutputDefaults)
    requires
        command.keys is Some,
        command.output_problem() is None,
    ensures
        ({
            let chords = command.keys->0@.len();
            let hold = if command.duration is Some {
                command.duration->0.total_nanos()
            } else {
                defaults.duration.total_nanos()
            };
            let gap = if command.interval is Some {
                command.interval->0.total_nanos()
            } else {
                defaults.interval.total_nanos()
            };
            chords > 0 && time_taken(command.plan(defaults)) == chords * hold + (chords - 1) * gap
        }),
{
    let hold = match command.duration {
        Some(duration) => duration,
        None => defaults.duration,
    };
    let gap = match command.interval {
        Some(interval) => interval,
        None => defaults.interval,
    };
    chords_keep_their_pace(chord_views(command.keys->0@), hold, gap);
}

/// An `events:` list is played as it is written: no pacing is added to it.
pub proof fn written_events_are_played_as_written(
    command: CommandConfig,
    defaults: OutputDefaults,
    i: int,
)
    requires
        command.keys is None,
        command.events is Some,
        0 <= i < command.events->0@.len(),
    ensures
        ({
            let steps = command.events->0@;
            let plan = command.plan(defaults);
            &&& plan.len() == steps.len()
            &&& steps[i] matches RawEvent::Down(key) ==> plan[i] == KeyEvent::Down(key.0)
            &&& steps[i] matches RawEvent::Up(key) ==> plan[i] == KeyEvent::Up(key.0)
            &&& steps[i] matches RawEvent::Wait(wait) ==> plan[i] == KeyEvent::Wait(wait)
        }),
{
}

/// A command compiles exactly where it has one output form, and something in it.
pub proof fn a_command_needs_one_output_form(command: CommandConfig)
    ensures
        command.output_problem() is None <==> {
            ||| command.events is None && command.keys is Some && command.keys->0@.len() > 0
            ||| command.keys is None && command.events is Some && command.events->0@.len() > 0
        },
{
}

/// A command is called by its name, where that says anything, and else by its
/// phrase.
pub proof fn a_command_is_called_by_its_name(command: CommandConfig)
    ensures
        command.name is Some && trimmed(command.name->0@).len() > 0 ==> command.spec_display_name()
            == command.name->0@,
        command.name is None || trimmed(command.name->0@).len() == 0
            ==> command.spec_display_name() == command.phrase.source@,
{
}

} // verus!
