use voice_orders::commands::run::{
    child_line, child_to_start, containment_of, containment_warning, ending_after, ending_event,
    grammar_error, interrupt_for, join_recognizer, join_task, leave, listening_change,
    narrate_command, narration_event, narration_for, plan_pipeline, program_name, reporting_for,
    shutdown_failure, shutdown_for, signal_handler_error, signal_warning, spawn_error, supervise,
    wait_warning, ChildStopPlan, Containment, ContainFailure, Ending, Interrupt, Leaving, Narrated,
    Narration, Narrator, Outcome, Performed, PipelineSummary, Shutdown, Signal, Stop, StopStep,
    Stopping, Supervision, TaskEnd, Waited, SIGTERM_GRACE_SECONDS,
};
use voice_orders::commands::ui::event::UiEvent;
use voice_orders::commands::ui::ReportMode;
use voice_orders::commands::validate::Grammar;
use voice_orders::commands::test::{self as rehearsal, Awaited, Next, Reporter};
use voice_orders::config::command::{CommandConfig, CommandPhrase};
use voice_orders::config::hotkey::HotkeyConfig;
use voice_orders::config::output::{self, KeyName, OutputDefaults};
use voice_orders::config::recognition::RecognitionConfig;
use voice_orders::config::system::{ResolvedSettings, SystemConfig};
use voice_orders::config::{defaults, AudioConfig, Profile};
use voice_orders::errors::{Error, Kind};
use voice_orders::hotkey::ListenMode;
use voice_orders::output::keys;
use voice_orders::output::{CompiledOutput, KeyCode, KeyEvent};
use voice_orders::recognition::{AudioMsg, RecognitionEvent, Utterance};
use voice_orders::time::Duration;

fn key(name: &str) -> KeyCode {
    keys::from_name(name).expect("a known key")
}

fn profile(hotkey: Option<HotkeyConfig>) -> Profile {
    Profile {
        name: None,
        model: Some("/models/en".to_string()),
        audio: AudioConfig { device: None },
        hotkey,
        completion_timeout: defaults::completion_timeout(),
        recognition: RecognitionConfig::default(),
        defaults: OutputDefaults::default(),
        commands: vec![CommandConfig {
            name: None,
            phrase: CommandPhrase {
                source: "salute".to_string(),
                expansions: 1,
            },
            keys: None,
            events: None,
            duration: None,
            interval: None,
        }],
    }
}

fn rightctrl(mode: Option<ListenMode>, interrupt: Option<bool>) -> HotkeyConfig {
    HotkeyConfig {
        device: None,
        key: Some(KeyName(output::resolve("rightctrl").expect("a known key"))),
        mode,
        interrupt,
    }
}

fn settings(hotkey: Option<HotkeyConfig>) -> ResolvedSettings {
    ResolvedSettings::resolve(&profile(hotkey), &SystemConfig::default())
        .expect("the settings should resolve")
}

fn utterance(text: &str) -> RecognitionEvent {
    RecognitionEvent::Final(Utterance {
        text: text.to_string(),
    })
}

// --- Putting a session together ------------------------------------------

#[test]
fn test_a_duplicate_command_is_an_error_naming_the_profile_and_both_rules() {
    let diagnostics = Error::user(
        "The rules 'First' and 'Second' both accept \"salute\".".to_string(),
        Vec::new(),
    );
    let error = grammar_error(diagnostics, "test-profile.yaml");

    assert!(
        error.description().contains("test-profile.yaml"),
        "the error should name the profile source, got: {}",
        error.description()
    );
    assert!(
        error.causes[0].text.contains("'First'") && error.causes[0].text.contains("'Second'"),
        "the error should name both commands, got: {:?}",
        error.causes
    );
    assert!(error.is(Kind::User));
}

#[test]
fn test_only_an_interrupting_hotkey_subscribes() {
    for (hotkey, expected) in [
        // No hotkey at all: listening never stops, so nothing can interrupt.
        (None, Interrupt::Never),
        // A hotkey which does not ask for it.
        (Some(rightctrl(None, None)), Interrupt::Never),
        (Some(rightctrl(None, Some(false))), Interrupt::Never),
        // A hotkey which does.
        (
            Some(rightctrl(Some(ListenMode::PushToTalk), Some(true))),
            Interrupt::WhenListeningStops,
        ),
    ] {
        assert_eq!(interrupt_for(&settings(hotkey)), expected);
    }
}

#[test]
fn test_a_machine_supplied_hotkey_interrupts_too() {
    let system = SystemConfig {
        hotkey: Some(rightctrl(Some(ListenMode::PushToTalk), Some(true))),
        ..SystemConfig::default()
    };
    let settings = ResolvedSettings::resolve(&profile(None), &system)
        .expect("the settings should resolve");

    assert_eq!(interrupt_for(&settings), Interrupt::WhenListeningStops);
}

#[test]
fn a_session_without_a_hotkey_always_listens() {
    let plan = plan_pipeline(&settings(None), Narration::Silent, true, false);
    assert!(plan.listening);
    assert!(!plan.bridged && !plan.announced && !plan.narrated);
    assert_eq!(plan.mode, None);
    assert_eq!(plan.interrupt, Interrupt::Never);
    assert_eq!(plan.sample_rate, 16_000);
}

#[test]
fn a_session_with_a_hotkey_starts_where_its_mode_says() {
    let hotkey = rightctrl(Some(ListenMode::PushToTalk), Some(true));
    for initial in [true, false] {
        let plan = plan_pipeline(
            &settings(Some(hotkey.clone())),
            Narration::Utterances,
            true,
            initial,
        );
        assert_eq!(plan.listening, initial);
        assert!(plan.bridged && plan.announced && plan.narrated);
        assert_eq!(plan.mode, Some(ListenMode::PushToTalk));
        assert_eq!(plan.interrupt, Interrupt::WhenListeningStops);
    }
}

#[test]
fn a_summary_counts_the_published_commands() {
    let grammar = Grammar {
        published: vec!["Salute".to_string(), "Terminal".to_string()],
        lints: vec!["odd".to_string()],
        automaton: Err(Vec::new()),
        decompositions: Vec::new(),
        words: vec!["salute".to_string()],
    };
    let hotkey = rightctrl(Some(ListenMode::PushToTalk), None);
    for (hotkey, mode, listening) in [
        (None, None, true),
        (Some(hotkey), Some(ListenMode::PushToTalk), false),
    ] {
        let plan = plan_pipeline(&settings(hotkey), Narration::Silent, false, false);
        assert_eq!(
            PipelineSummary::new(
                "Yeti".to_string(),
                "/models/en".to_string(),
                &grammar,
                48,
                &plan,
            ),
            PipelineSummary {
                device: "Yeti".to_string(),
                model: "/models/en".to_string(),
                commands: 2,
                phrases: 48,
                mode,
                listening,
            }
        );
    }
}

#[test]
fn the_listening_arrangement_reads_like_its_mode() {
    let summary = PipelineSummary {
        device: "default".to_string(),
        model: "/models/en".to_string(),
        commands: 1,
        phrases: 1,
        mode: Some(ListenMode::PushToMute),
        listening: true,
    };
    assert_eq!(summary.listening_summary(), "push-to-mute hotkey");
    let summary = PipelineSummary {
        mode: None,
        ..summary
    };
    assert_eq!(summary.listening_summary(), "always listening");
}

#[test]
fn muting_resets_and_unmuting_clears() {
    let off = listening_change(false, true);
    assert!(!off.mirror);
    assert_eq!(off.reported, Some(UiEvent::Listening(false)));
    assert!(matches!(off.message, AudioMsg::Reset));

    let on = listening_change(true, false);
    assert!(on.mirror);
    assert_eq!(on.reported, None);
    assert!(matches!(on.message, AudioMsg::Clear));
}

// --- Narration -----------------------------------------------------------

#[test]
fn test_narration_line() {
    let warning = Some("warning: the speech recognizer could not decode the audio");
    let cases = vec![
        // Silence is silence, whatever happens.
        (utterance("salute"), Narration::Silent, None),
        (
            RecognitionEvent::Partial("sal".into()),
            Narration::Silent,
            None,
        ),
        (RecognitionEvent::Muted, Narration::Silent, None),
        (RecognitionEvent::Failed, Narration::Silent, None),
        // A recognizer which cannot decode is reported wherever anything is.
        (RecognitionEvent::Failed, Narration::Utterances, warning),
        (RecognitionEvent::Failed, Narration::Everything, warning),
        // `test` reports what it heard, and nothing else.
        (
            utterance("salute"),
            Narration::Utterances,
            Some("heard: \"salute\""),
        ),
        (
            RecognitionEvent::Partial("sal".into()),
            Narration::Utterances,
            None,
        ),
        (RecognitionEvent::Muted, Narration::Utterances, None),
        // `--debug-recognition` shows the working out as well.
        (
            utterance("salute"),
            Narration::Everything,
            Some("heard: \"salute\""),
        ),
        (
            RecognitionEvent::Partial("sal".into()),
            Narration::Everything,
            Some("hearing: \"sal\""),
        ),
        (
            RecognitionEvent::Muted,
            Narration::Everything,
            Some("hearing: (muted)"),
        ),
    ];
    for (event, narration, expected) in cases {
        assert_eq!(
            narration_event(&event, narration, 1, false)
                .map(|reported| reported.into_event().plain_line())
                .as_deref(),
            expected,
            "{event:?} under {narration:?}"
        );
    }
}

#[test]
fn test_a_live_sink_gets_partials_and_mutes_with_their_slots() {
    assert_eq!(
        narration_event(
            &RecognitionEvent::Partial("sal".into()),
            Narration::Utterances,
            1,
            true
        ),
        Some(Narrated::Hearing {
            text: "sal".into(),
            seq: 2
        })
    );
    assert_eq!(
        narration_event(&RecognitionEvent::Muted, Narration::Utterances, 2, true),
        Some(Narrated::Muted { seq: 2 })
    );

    // Silent narration is still silence.
    assert_eq!(
        narration_event(
            &RecognitionEvent::Partial("sal".into()),
            Narration::Silent,
            1,
            true
        ),
        None
    );
}

#[test]
fn slots_are_closed_by_utterances_and_mutes() {
    let mut narrator = Narrator::new(Narration::Utterances, true);
    assert_eq!(
        narrator.observe(&RecognitionEvent::Partial("sal".into())),
        Some(Narrated::Hearing {
            text: "sal".into(),
            seq: 1
        })
    );
    assert_eq!(
        narrator.observe(&utterance("salute")),
        Some(Narrated::Heard {
            text: "salute".into(),
            seq: 1
        })
    );
    assert_eq!(
        narrator.observe(&RecognitionEvent::Failed),
        Some(Narrated::Warning(
            "the speech recognizer could not decode the audio".into()
        ))
    );
    assert_eq!(
        narrator.observe(&RecognitionEvent::Muted),
        Some(Narrated::Muted { seq: 2 })
    );
    assert_eq!(narrator.closed, 2);
}

#[test]
fn a_command_is_reported_as_it_is_read() {
    let output = CompiledOutput::Keyboard(vec![
        KeyEvent::Down(key("leftctrl")),
        KeyEvent::Down(key("4")),
        KeyEvent::Wait(Duration::from_millis(30)),
        KeyEvent::Up(key("4")),
        KeyEvent::Up(key("leftctrl")),
    ]);
    assert_eq!(
        narrate_command("Autocannon", &output),
        UiEvent::Matched {
            name: "Autocannon".to_string(),
            plan: "leftctrl+4".to_string(),
        }
    );
}

#[test]
fn test_narration_for() {
    for (mode, debug_recognition, expected) in [
        (ReportMode::Plain, false, Narration::Silent),
        (ReportMode::Tui, false, Narration::Utterances),
        (ReportMode::Plain, true, Narration::Everything),
        (ReportMode::Tui, true, Narration::Everything),
    ] {
        assert_eq!(narration_for(mode, debug_recognition), expected);
        let reporting = reporting_for(mode, debug_recognition);
        assert_eq!(reporting.narration, expected);
        assert_eq!(reporting.announce_listening, mode == ReportMode::Tui);
        assert_eq!(reporting.narrate_commands, mode == ReportMode::Tui);
    }
}

// --- Child supervision ---------------------------------------------------

#[test]
fn test_a_successful_child_exits_zero() {
    let ended = supervise(Outcome::Exited(Some(0)), true);
    assert_eq!(ended, Supervision::End(Ending::Child(0)));
    assert_eq!(Ending::Child(0).exit_code(), 0);
}

#[test]
fn test_a_failing_child_propagates_its_code() {
    assert_eq!(
        supervise(Outcome::Exited(Some(1)), true),
        Supervision::End(Ending::Child(1))
    );
    assert_eq!(Ending::Child(1).exit_code(), 1);
    // One which a signal ended, or which we lost track of, is a failure.
    for outcome in [Outcome::Exited(None), Outcome::Lost] {
        assert_eq!(
            supervise(outcome, true),
            Supervision::End(Ending::Child(1))
        );
    }
}

#[test]
fn test_an_interrupt_does_not_touch_the_child() {
    for has_child in [true, false] {
        assert_eq!(
            supervise(Outcome::Interrupt(Shutdown::Quiet), has_child),
            Supervision::End(Ending::Interrupted)
        );
    }
    assert_eq!(Ending::Interrupted.exit_code(), 0);
}

#[test]
fn test_shutdown_for() {
    for (stop, has_child, expected) in [
        // Under the terminal UI, Ctrl-C is a keystroke: the child has to be told.
        (Stop::Keyboard, true, Shutdown::ForwardSigint),
        // Nothing to tell.
        (Stop::Keyboard, false, Shutdown::Quiet),
        // A real signal reached the whole process group already.
        (Stop::Signal, true, Shutdown::Quiet),
        (Stop::Signal, false, Shutdown::Quiet),
    ] {
        assert_eq!(shutdown_for(stop, has_child), expected);
    }
}

#[test]
fn test_a_keyboard_interrupt_is_forwarded_to_the_child() {
    assert_eq!(
        supervise(Outcome::Interrupt(Shutdown::ForwardSigint), true),
        Supervision::Forward(Signal::Interrupt)
    );
    assert_eq!(ending_after(Signal::Interrupt, true), Ending::Interrupted);
    assert_eq!(
        supervise(Outcome::Interrupt(Shutdown::ForwardSigint), false),
        Supervision::End(Ending::Interrupted)
    );
}

#[test]
fn test_a_termination_is_forwarded_to_the_child() {
    assert_eq!(
        supervise(Outcome::Terminate, true),
        Supervision::Forward(Signal::Terminate)
    );
    for child_exited in [true, false] {
        assert_eq!(
            ending_after(Signal::Terminate, child_exited),
            Ending::Terminated { child_exited }
        );
    }
    let ended = supervise(Outcome::Terminate, false);
    assert_eq!(
        ended,
        Supervision::End(Ending::Terminated { child_exited: true })
    );
    assert_eq!(Ending::Terminated { child_exited: true }.exit_code(), 0);
}

#[test]
fn an_ending_reads_like_what_happened() {
    assert_eq!(
        Ending::Child(-1).text(),
        "The application exited with code -1"
    );
    assert_eq!(Ending::Interrupted.text(), "Interrupted");
    assert_eq!(
        Ending::Terminated { child_exited: true }.text(),
        "Terminated; the application stopped"
    );
    assert_eq!(
        Ending::Terminated {
            child_exited: false
        }
        .text(),
        "Terminated; the application did not stop in time"
    );
    assert_eq!(
        ending_event(Ending::Child(3), Some("sh".to_string())),
        Some(UiEvent::ChildExited {
            program: "sh".to_string(),
            code: 3,
        })
    );
    assert_eq!(
        ending_event(Ending::Interrupted, Some("sh".to_string())),
        None
    );
    assert_eq!(ending_event(Ending::Child(3), None), None);
}

fn grace() -> Duration {
    Duration::from_secs(SIGTERM_GRACE_SECONDS)
}

#[test]
fn test_signals_are_the_whole_plan_where_signals_work() {
    for signal in [Signal::Interrupt, Signal::Terminate] {
        let plan = ChildStopPlan::new(signal, Containment::Signals);
        assert_eq!(
            plan.steps(),
            &[StopStep::Ask(signal), StopStep::Wait(grace())]
        );
        assert!(!plan.kills());
    }
}

#[test]
fn test_a_job_object_ends_the_plan_where_the_ask_is_best_effort() {
    for signal in [Signal::Interrupt, Signal::Terminate] {
        let plan = ChildStopPlan::new(signal, Containment::JobObject);
        assert_eq!(
            plan.steps(),
            &[
                StopStep::Ask(signal),
                StopStep::Wait(grace()),
                StopStep::Kill
            ]
        );
        assert!(plan.kills());
    }
}

#[test]
fn test_the_plan_asks_before_it_waits_and_waits_before_it_kills() {
    let plan = ChildStopPlan::new(Signal::Terminate, Containment::JobObject);
    let steps = plan.steps();

    assert!(matches!(steps[0], StopStep::Ask(_)));
    assert!(matches!(steps[1], StopStep::Wait(_)));
    assert_eq!(steps[2], StopStep::Kill);
}

#[test]
fn test_this_platform_uses_the_containment_it_has() {
    assert_eq!(containment_of(true), Containment::JobObject);
    assert_eq!(
        containment_of(false),
        Containment::Signals,
        "a job object is Windows' only guarantee, and Linux needs none"
    );
}

/// Performs a plan against a child which does what it is told, or not.
fn stop(containment: Containment, waited: Waited, kill: Performed) -> (Vec<StopStep>, bool) {
    let mut stopping = Stopping::new(false, Signal::Terminate, containment);
    let mut taken = Vec::new();
    while let Some(step) = stopping.next_step() {
        taken.push(step);
        stopping.perform(match step {
            StopStep::Ask(_) => Performed::Asked,
            StopStep::Wait(_) => Performed::Waited(waited),
            StopStep::Kill => kill,
        });
    }
    (taken, stopping.has_exited())
}

#[test]
fn a_child_is_only_killed_once_it_has_had_its_time() {
    let ask = StopStep::Ask(Signal::Terminate);
    let wait = StopStep::Wait(grace());
    let killed = Performed::Killed { exited: true };

    assert_eq!(
        stop(Containment::JobObject, Waited::Exited, killed),
        (vec![ask, wait], true)
    );
    assert_eq!(
        stop(Containment::Signals, Waited::TimedOut, killed),
        (vec![ask, wait], false)
    );
    assert_eq!(
        stop(Containment::JobObject, Waited::TimedOut, killed),
        (vec![ask, wait, StopStep::Kill], true)
    );
    assert_eq!(
        stop(Containment::JobObject, Waited::Lost, Performed::NotKilled),
        (vec![ask, wait, StopStep::Kill], false)
    );

    let reaped = Stopping::new(true, Signal::Interrupt, Containment::JobObject);
    assert_eq!(reaped.next_step(), None);
    assert!(reaped.has_exited());
}

#[test]
fn what_is_said_of_a_stubborn_child_is_what_follows() {
    assert_eq!(wait_warning(Waited::Exited, grace(), true, ""), None);
    assert_eq!(
        wait_warning(Waited::TimedOut, grace(), true, "").as_deref(),
        Some(
            "The application has not exited 5s after we asked it to; stopping it and everything it started."
        )
    );
    assert_eq!(
        wait_warning(Waited::TimedOut, grace(), false, "").as_deref(),
        Some("The application has not exited 5s after we asked it to; shutting down anyway.")
    );
    assert_eq!(
        wait_warning(Waited::Lost, grace(), false, "no child").as_deref(),
        Some("We lost track of the application while it was shutting down (no child).")
    );
    assert_eq!(
        signal_warning(Signal::Terminate, "no such process"),
        "We could not pass the shutdown signal on to the application (no such process)."
    );
    assert!(containment_warning(ContainFailure::Create, "x").contains("create the job object"));
    assert!(
        containment_warning(ContainFailure::Configure, "x").contains("configure the job object")
    );
    assert!(containment_warning(ContainFailure::Assign, "x").ends_with("may keep running."));
}

// --- The wrapped application ---------------------------------------------

#[test]
fn test_no_application_means_no_child() {
    for mode in [ReportMode::Plain, ReportMode::Tui] {
        assert_eq!(
            child_to_start(&[], mode),
            None,
            "an empty application list is the always-listening case"
        );
    }
}

#[test]
fn test_a_missing_application_is_named_in_the_error() {
    let app = vec!["/definitely/not/a/program".to_string()];
    let start = child_to_start(&app, ReportMode::Plain).expect("there is an application");
    let error = spawn_error(&start.executable, "no such file".to_string());

    assert!(
        error.description().contains("'/definitely/not/a/program'"),
        "the error should name the executable, got: {}",
        error.description()
    );
    assert!(error.is(Kind::User));
}

#[test]
fn test_only_a_ui_session_pipes_the_childs_output() {
    let app = vec!["/bin/true".to_string(), "-x".to_string()];
    for (mode, piped) in [(ReportMode::Plain, false), (ReportMode::Tui, true)] {
        let start = child_to_start(&app, mode).expect("there is an application");
        assert_eq!(start.executable, "/bin/true");
        assert_eq!(start.arguments, vec!["-x".to_string()]);
        assert_eq!(start.piped, piped);
    }
}

#[test]
fn test_program_name() {
    let cases: Vec<(Vec<&str>, Option<&str>)> = vec![
        (vec!["/usr/bin/sleep", "30"], Some("sleep")),
        (vec!["sleep"], Some("sleep")),
        (
            vec!["/opt/games/Helldivers 2/bin/helldivers2"],
            Some("helldivers2"),
        ),
        (vec!["/opt/games/helldivers2/"], Some("helldivers2")),
        // A path with no file name in it at all is still what we run.
        (vec!["/"], Some("/")),
        (vec![], None),
        (vec![".."], Some("..")),
        (vec!["a/.//./"], Some("a")),
    ];
    for (app, expected) in cases {
        let app: Vec<String> = app.iter().map(ToString::to_string).collect();
        assert_eq!(program_name(&app, false).as_deref(), expected, "{app:?}");
    }
    let app = vec![r"C:\Games\x.exe".to_string()];
    assert_eq!(program_name(&app, true).as_deref(), Some("x.exe"));
}

#[test]
fn a_childs_line_is_named_after_it() {
    assert_eq!(
        child_line("helldivers2", "hello-from-child".to_string()),
        UiEvent::Child {
            program: "helldivers2".to_string(),
            line: "hello-from-child".to_string(),
        }
    );
}

// --- The way out ---------------------------------------------------------

fn failure(text: &str) -> Error {
    Error::system(text.to_string(), Vec::new())
}

#[test]
fn the_first_failure_is_the_one_reported() {
    let reported = |recognizer, tasks, ui| {
        shutdown_failure(recognizer, tasks, ui).map(|error: Error| error.description())
    };
    assert_eq!(reported(None, vec![None, None], None), None);
    assert_eq!(
        reported(
            Some(failure("recognizer")),
            vec![Some(failure("task"))],
            Some(failure("ui"))
        ),
        Some("recognizer".to_string())
    );
    assert_eq!(
        reported(
            None,
            vec![None, Some(failure("first")), Some(failure("second"))],
            Some(failure("ui"))
        ),
        Some("first".to_string())
    );
    assert_eq!(
        reported(None, vec![None], Some(failure("ui"))),
        Some("ui".to_string())
    );
}

#[test]
fn a_task_which_panics_is_reported_by_name() {
    assert!(join_task("matcher", TaskEnd::Finished).is_none());
    let error =
        join_task("matcher", TaskEnd::Failed(failure("broken"))).expect("the task failed");
    assert_eq!(error.description(), "broken");
    let error = join_task("matcher", TaskEnd::Stopped("panicked".to_string()))
        .expect("the task stopped");
    assert_eq!(error.description(), "The matcher stopped unexpectedly.");
    assert_eq!(error.causes[0].text, "panicked");
    let error = join_recognizer(TaskEnd::Stopped("panicked".to_string()))
        .expect("the thread stopped");
    assert!(error.description().contains("speech recognition thread"));
    assert!(signal_handler_error("denied".to_string(), "SIGTERM")
        .description()
        .contains("SIGTERM"));
}

#[test]
fn a_failure_only_matters_where_the_child_has_nothing_to_say() {
    assert!(matches!(leave(Ending::Child(3), None), Leaving::Code(3)));
    assert!(matches!(
        leave(Ending::Child(3), Some(failure("late"))),
        Leaving::Warned(_, 3)
    ));
    assert!(matches!(
        leave(Ending::Child(0), Some(failure("late"))),
        Leaving::Failed(_)
    ));
    assert!(matches!(
        leave(Ending::Interrupted, None),
        Leaving::Code(0)
    ));
}

// --- Rehearsing ----------------------------------------------------------

fn held_for_an_hour() -> CompiledOutput {
    CompiledOutput::Keyboard(vec![
        KeyEvent::Down(key("w")),
        KeyEvent::Wait(Duration::from_secs(3600)),
        KeyEvent::Up(key("w")),
    ])
}

fn lines(events: Vec<UiEvent>) -> Vec<String> {
    events.iter().map(UiEvent::plain_line).collect()
}

#[test]
fn the_reporter_reports_and_stops_with_the_queue() {
    let mut reporter = Reporter::new(Interrupt::Never);
    let (reported, next) = reporter.step(Awaited::Matched {
        command: "Salute".to_string(),
        output: CompiledOutput::Keyboard(vec![
            KeyEvent::Down(key("x")),
            KeyEvent::Up(key("x")),
        ]),
    });
    assert_eq!(lines(reported), vec!["matched: \"Salute\" → x"]);
    assert_eq!(next, Next::Listen);
    for awaited in [Awaited::QueueClosed, Awaited::Cancelled] {
        let (reported, next) = reporter.step(awaited);
        assert!(reported.is_empty());
        assert_eq!(next, Next::Stop);
    }
}

#[test]
fn test_an_interrupt_cuts_a_rehearsal_short_and_drains_the_queue() {
    let mut reporter = Reporter::new(Interrupt::WhenListeningStops);
    let (reported, next) = reporter.step(Awaited::Matched {
        command: "Sprint".to_string(),
        output: held_for_an_hour(),
    });
    assert_eq!(lines(reported), vec!["matched: \"Sprint\" → w"]);
    assert_eq!(next, Next::SitOut(Duration::from_secs(3600)));

    let (reported, next) = reporter.step(Awaited::ListeningStopped(vec![
        "Reload".to_string(),
        "Salute".to_string(),
    ]));
    assert_eq!(
        lines(reported),
        vec![
            "interrupted: \"Sprint\"",
            "discarded: \"Reload\"",
            "discarded: \"Salute\"",
        ]
    );
    assert_eq!(next, Next::Listen);

    // Nothing is being rehearsed any more, so nothing is interrupted.
    let (reported, _) = reporter.step(Awaited::ListeningStopped(vec!["Reload".to_string()]));
    assert_eq!(lines(reported), vec!["discarded: \"Reload\""]);
}

#[test]
fn a_plan_which_is_over_is_not_interrupted() {
    let mut reporter = Reporter::new(Interrupt::WhenListeningStops);
    reporter.step(Awaited::Matched {
        command: "Sprint".to_string(),
        output: held_for_an_hour(),
    });
    let (reported, next) = reporter.step(Awaited::PlanOver);
    assert!(reported.is_empty());
    assert_eq!(next, Next::Listen);
    let (reported, _) = reporter.step(Awaited::ListeningStopped(Vec::new()));
    assert!(reported.is_empty());
}

#[test]
fn a_rehearsal_says_what_it_is_about_to_do() {
    let hotkey = rightctrl(Some(ListenMode::PushToTalk), None);
    let profile = Profile {
        name: Some("Helldivers 2".to_string()),
        ..profile(Some(hotkey.clone()))
    };
    let summary = PipelineSummary {
        device: "Yeti".to_string(),
        model: "/models/en".to_string(),
        commands: 12,
        phrases: 48,
        mode: Some(ListenMode::PushToTalk),
        listening: false,
    };
    assert_eq!(
        rehearsal::header(&profile, &settings(Some(hotkey)), &summary),
        "Helldivers 2 — rehearsal (nothing is typed)\n  microphone: Yeti\n  model:      /models/en\n  commands:   12 (48 phrase(s))\n  hotkey:     rightctrl (push-to-talk)\nlistening: off\n\nSpeak a command; press Ctrl-C to stop.\n"
    );
    let summary = PipelineSummary {
        mode: None,
        listening: true,
        ..summary
    };
    assert!(
        rehearsal::header(&profile, &settings(None), &summary)
            .contains("  hotkey:     none (always listening)\n\nSpeak")
    );
    assert_eq!(rehearsal::narration_for(false), Narration::Utterances);
    assert_eq!(rehearsal::narration_for(true), Narration::Everything);
}
