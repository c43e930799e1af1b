//! `voice-orders test <profile>`: rehearse a profile out loud without typing
//! anything.
//!
//! It is the pipeline `run` assembles with two things taken away: no virtual
//! keyboard, and no child process. In place of the executor, the command queue
//! is consumed by a reporter which says what *would* have been typed.

pub mod event;
pub mod tui;

use super::run::{Interrupt, Narration, PipelineSummary};
use super::ui::event::UiEvent;
use super::ui::plan::{plan_duration, plan_text, render_plan, waits, waits_are_durations};
use crate::config::system::ResolvedSettings;
use crate::config::Profile;
use crate::output::keys::name_of;
use crate::output::CompiledOutput;
use crate::text::{decimal, decimal_of};
use crate::time::{Duration, NANOS_PER_SECOND};
use vstd::prelude::*;

verus! {

/// What `test` was asked for.
#[derive(Debug, Clone, PartialEq, Eq)]
pub struct TestArgs {
    /// The profile to rehearse: a local path or an https:// URL.
    pub profile: String,
    /// The model to recognize with. Overrides the profile's `model:` field and
    /// `$VOSK_MODEL_PATH`.
    pub model: Option<String>,
    /// Print partial recognition results as well as finalized ones.
    pub debug_recognition: bool,
}

/// How much of what it hears a rehearsal says out loud: utterances at least.
pub fn narration_for(debug_recognition: bool) -> (narration: Narration)
    ensures
        narration == if debug_recognition { Narration::Everything } else { Narration::Utterances },
{
    if debug_recognition {
        Narration::Everything
    } else {
        Narration::Utterances
    }
}

/// How the header describes the hotkey, and the listening state that goes with
/// it.
pub open spec fn hotkey_lines(settings: ResolvedSettings, summary: PipelineSummary) -> Seq<char> {
    match summary.mode {
        Some(mode) => "  hotkey:     "@ + match settings.hotkey {
            Some(hotkey) => name_of(hotkey.key.0),
            None => Seq::empty(),
        } + " ("@ + mode.spec_name() + ")\n"@ + if summary.listening {
            "listening: on\n"@
        } else {
            "listening: off\n"@
        },
        None => "  hotkey:     none (always listening)\n"@,
    }
}

/// What we are about to rehearse, so the report below it has context: which
/// microphone, which model, and whether the hotkey has to be pressed before
/// anything will be heard at all.
pub fn header(profile: &Profile, settings: &ResolvedSettings, summary: &PipelineSummary) -> (text:
    String)
    ensures
        text@ == profile.spec_display_name() + " — rehearsal (nothing is typed)\n  microphone: "@
            + summary.device@ + "\n  model:      "@ + summary.model@ + "\n  commands:   "@
            + decimal(summary.commands as nat) + " ("@ + decimal(summary.phrases as nat)
            + " phrase(s))\n"@ + hotkey_lines(*settings, *summary)
            + "\nSpeak a command; press Ctrl-C to stop.\n"@,
{
    let mut text = profile.display_name().to_owned();
    text.append(" — rehearsal (nothing is typed)\n  microphone: ");
    text.append(summary.device.as_str());
    text.append("\n  model:      ");
    text.append(summary.model.as_str());
    text.append("\n  commands:   ");
    text.append(decimal_of(summary.commands as u64).as_str());
    text.append(" (");
    text.append(decimal_of(summary.phrases as u64).as_str());
    text.append(" phrase(s))\n");
    match summary.mode {
        Some(mode) => {
            let key = match &settings.hotkey {
                Some(hotkey) => hotkey.key.name(),
                None => String::new(),
            };
            let mut lines = "  hotkey:     ".to_owned();
            lines.append(key.as_str());
            lines.append(" (");
            lines.append(mode.name());
            lines.append(")\n");
            if summary.listening {
                lines.append("listening: on\n");
            } else {
                lines.append("listening: off\n");
            }
            text.append(lines.as_str());
        },
        None => {
            text.append("  hotkey:     none (always listening)\n");
        },
    }
    text.append("\nSpeak a command; press Ctrl-C to stop.\n");
    text
}

/// Something the command reporter waited for.
#[derive(Debug, Clone)]
pub enum Awaited {
    /// The rehearsal is being stopped.
    Cancelled,
    /// Listening stopped, with these commands still queued.
    ListeningStopped(Vec<String>),
    /// The matcher queued a command.
    Matched { command: String, output: CompiledOutput },
    /// The matcher closed the queue.
    QueueClosed,
    /// The plan being rehearsed is over.
    PlanOver,
}

/// What the command reporter does next.
#[derive(Debug, Clone, Copy, PartialEq, Eq, Structural)]
pub enum Next {
    /// It stops.
    Stop,
    /// It waits for the next command.
    Listen,
    /// It sits out the time a plan would have taken.
    SitOut(Duration),
}

/// Consumes the command queue and reports what each match *would* have typed.
///
/// Where stopping listening interrupts, a reported command occupies the
/// wall-clock time its plan would have taken, so stopping part-way through
/// reports it as interrupted and everything queued behind it as discarded.
/// Otherwise there is nothing which could ever cut a plan short, so nothing is
/// waited out.
#[derive(Debug, Clone, PartialEq, Eq)]
pub struct Reporter {
    /// What stopping listening does.
    pub interrupt: Interrupt,
    /// The command whose plan is being sat out.
    pub rehearsing: Option<String>,
}

/// The report of queued commands which are thrown away.
pub open spec fn discarded(queued: Seq<String>) -> Seq<UiEvent> {
    queued.map_values(|command: String| UiEvent::Discarded(command))
}

/// Reports every command the matcher had already queued as discarded: `run`
/// would throw these away unplayed, so a rehearsal must not pretend they still
/// fire.
pub fn discard_queued(queued: Vec<String>) -> (reported: Vec<UiEvent>)
    ensures
        reported@ == discarded(queued@),
{
    let mut left = queued;
    let mut reported: Vec<UiEvent> = Vec::new();
    let ghost all = left@;
    let ghost mut done: int = 0;
    assert(all.skip(0) == all);
    assert(discarded(all.take(0)) == Seq::<UiEvent>::empty());
    while left.len() > 0
        invariant
            0 <= done <= all.len(),
            left@ == all.skip(done),
            reported@ == discarded(all.take(done)),
        decreases left.len(),
    {
        let command = left.remove(0);
        reported.push(UiEvent::Discarded(command));
        assert(all.take(done + 1) == all.take(done).push(command));
        assert(discarded(all.take(done + 1)) == discarded(all.take(done)).push(
            UiEvent::Discarded(command),
        ));
        proof {
            done = done + 1;
        }
        assert(left@ == all.skip(done));
    }
    assert(all.take(done) == all);
    reported
}

impl Reporter {
    /// A reporter with nothing to rehearse.
    pub fn new(interrupt: Interrupt) -> (reporter: Self)
        ensures
            reporter.interrupt == interrupt,
            reporter.rehearsing is None,
    {
        Reporter { interrupt, rehearsing: None }
    }

    /// Takes note of what the reporter waited for: what is reported of it, and
    /// what the reporter does next.
    pub fn step(&mut self, awaited: Awaited) -> (stepped: (Vec<UiEvent>, Next))
        requires
            match awaited {
                Awaited::Matched { output, .. } => old(self).interrupt != Interrupt::Never
                    ==> waits_are_durations(output@) && waits(output@) < 0x1_0000_0000_0000_0000
                    * NANOS_PER_SECOND,
                _ => true,
            },
        ensures
            final(self).interrupt == old(self).interrupt,
            match awaited {
                Awaited::Cancelled | Awaited::QueueClosed => {
                    &&& stepped.0@ == Seq::<UiEvent>::empty()
                    &&& stepped.1 == Next::Stop
                    &&& final(self).rehearsing == old(self).rehearsing
                },
                Awaited::ListeningStopped(queued) => {
                    &&& stepped.0@ == match old(self).rehearsing {
                        Some(command) => seq![UiEvent::Interrupted(command)],
                        None => Seq::empty(),
                    } + discarded(queued@)
                    &&& stepped.1 == Next::Listen
                    &&& final(self).rehearsing is None
                },
                Awaited::Matched { command, output } => {
                    &&& stepped.0@.len() == 1
                    &&& stepped.0@[0] matches UiEvent::Matched { name, plan } && name@ == command@
                        && plan@ == plan_text(output@)
                    &&& if old(self).interrupt == Interrupt::Never {
                        stepped.1 == Next::Listen && final(self).rehearsing is None
                    } else {
                        &&& stepped.1 matches Next::SitOut(duration) && duration.wf()
                            && duration.total_nanos() == waits(output@)
                        &&& final(self).rehearsing matches Some(rehearsing) && rehearsing@
                            == command@
                    }
                },
                Awaited::PlanOver => {
                    &&& stepped.0@ == Seq::<UiEvent>::empty()
                    &&& stepped.1 == Next::Listen
                    &&& final(self).rehearsing is None
                },
            },
    {
        match awaited {
            Awaited::Cancelled | Awaited::QueueClosed => (Vec::new(), Next::Stop),
            Awaited::ListeningStopped(queued) => {
                let mut rest = discard_queued(queued);
                let mut reported: Vec<UiEvent> = Vec::new();
                if let Some(command) = self.rehearsing.take() {
                    reported.push(UiEvent::Interrupted(command));
                }
                reported.append(&mut rest);
                self.rehearsing = None;
                (reported, Next::Listen)
            },
            Awaited::Matched { command, output } => {
                let plan = render_plan(&output);
                let reported = vec![UiEvent::Matched { name: command.clone(), plan }];
                match self.interrupt {
                    Interrupt::Never => {
                        self.rehearsing = None;
                        (reported, Next::Listen)
                    },
                    Interrupt::WhenListeningStops => {
                        self.rehearsing = Some(command);
                        (reported, Next::SitOut(plan_duration(&output)))
                    },
                }
            },
            Awaited::PlanOver => {
                self.rehearsing = None;
                (Vec::new(), Next::Listen)
            },
        }
    }
}

/// Each command which was queued is reported as discarded, in the order it was
/// queued, and nothing else is.
pub proof fn every_queued_command_is_discarded(queued: Seq<String>, i: int)
    ensures
        discarded(queued).len() == queued.len(),
        0 <= i < queued.len() ==> discarded(queued)[i] == UiEvent::Discarded(queued[i]),
{
}

} // verus!
