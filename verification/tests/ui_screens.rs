use voice_orders::commands::run::PipelineSummary;
use voice_orders::commands::test::event::TestEvent;
use voice_orders::commands::test::tui as rehearsal;
use voice_orders::commands::ui::event::{Color, LogLine, UiEvent, DOT};
use voice_orders::commands::ui::tui::{
    columns_for, draw_error, is_quit, keyboard_lost, takeover_error, App, Body, Happening, Key,
    KeyKind, KeyPress, Next, Overview, Span, UPDATE_MARK,
};
use voice_orders::config::command::{CommandConfig, CommandPhrase};
use voice_orders::config::hotkey::HotkeyConfig;
use voice_orders::config::output::{self, KeyName, OutputDefaults};
use voice_orders::config::recognition::RecognitionConfig;
use voice_orders::config::system::{ResolvedSettings, SystemConfig};
use voice_orders::config::{defaults, AudioConfig, Profile};
use voice_orders::errors::Kind;
use voice_orders::hotkey::ListenMode;

const AT: u64 = 1_700_000_000;

fn overview() -> Overview {
    Overview {
        profile: "Helldivers 2".to_string(),
        source: "profiles/helldivers2.yaml".to_string(),
        commands: 12,
        phrases: 48,
        hotkey: "rightctrl (push-to-talk)".to_string(),
        model: "vosk-model-small-en-us-0.15".to_string(),
        has_hotkey: true,
        listening: false,
        wrapping: None,
    }
}

/// A profile, its resolved settings, and the summary a started pipeline would
/// hand back for them.
fn assembled(mode: Option<ListenMode>) -> (Profile, ResolvedSettings, PipelineSummary) {
    let profile = Profile {
        name: Some("Helldivers 2".to_string()),
        model: Some("/models/en".to_string()),
        audio: AudioConfig { device: None },
        hotkey: mode.map(|mode| HotkeyConfig {
            key: Some(KeyName(output::resolve("rightctrl").expect("a known key"))),
            mode: Some(mode),
            ..HotkeyConfig::default()
        }),
        completion_timeout: defaults::completion_timeout(),
        recognition: RecognitionConfig::default(),
        defaults: OutputDefaults::default(),
        commands: vec![CommandConfig {
            name: None,
            phrase: CommandPhrase {
                source: "salute".to_string(),
                expansions: 1,
            },
            keys: None,
            events: None,
            duration: None,
            interval: None,
        }],
    };
    let settings = ResolvedSettings::resolve(&profile, &SystemConfig::default())
        .expect("the settings should resolve");
    let summary = PipelineSummary {
        device: "default".to_string(),
        model: "/models/vosk-model-small-en-us-0.15".to_string(),
        commands: 12,
        phrases: 48,
        mode,
        listening: false,
    };

    (profile, settings, summary)
}

/// A run of spans as the text they draw.
fn drawn(spans: &[Span]) -> String {
    spans.iter().map(|span| span.text.as_str()).collect()
}

fn lines(body: Body) -> Vec<LogLine> {
    match body {
        Body::Lines(lines) => lines,
        Body::Invitation(span) => panic!("nothing was logged: {}", span.text),
    }
}

#[test]
fn tui_test_the_overview_is_what_the_pipeline_assembled() {
    let (profile, settings, summary) = assembled(Some(ListenMode::PushToTalk));

    let described =
        Overview::describe(&profile, &settings, "profiles/helldivers2.yaml", &summary, false);

    assert_eq!(described, overview());
    assert_eq!(
        described.stats(),
        "12 command(s) · 48 phrase(s) · rightctrl (push-to-talk)"
    );
}

#[test]
fn tui_test_an_overview_without_a_hotkey_says_so() {
    let (profile, settings, summary) = assembled(None);

    let overview =
        Overview::describe(&profile, &settings, "profiles/helldivers2.yaml", &summary, false);

    assert!(!overview.has_hotkey);
    assert_eq!(overview.hotkey, "always listening");
    assert_eq!(
        overview.stats(),
        "12 command(s) · 48 phrase(s) · always listening"
    );
}

#[test]
fn tui_test_the_header_names_the_profile_and_where_it_came_from() {
    let header = App::new(overview()).header();

    assert_eq!(header.title.text, "Helldivers 2");
    assert!(header.title.bold);
    assert_eq!(
        header.stats.text,
        "12 command(s) · 48 phrase(s) · rightctrl (push-to-talk)"
    );
    assert_eq!(header.source.text, "profiles/helldivers2.yaml");
}

#[test]
fn test_the_header_names_the_wrapped_application() {
    let header = App::new(overview().wrapping("helldivers2", Some(4212))).header();
    assert_eq!(header.source.text, "profiles/helldivers2.yaml");
    assert_eq!(header.wrapping.text, "wrapping: helldivers2 (pid 4212)");

    let header = App::new(overview().wrapping("helldivers2", None)).header();
    assert_eq!(header.wrapping.text, "wrapping: helldivers2");

    // `test` wraps nothing, so nothing is added.
    let header = App::new(overview()).header();
    assert_eq!(header.wrapping.text, "");
}

#[test]
fn tui_test_the_footer_carries_the_state_on_the_left_and_the_model_on_the_right() {
    let mut app = App::new(overview());
    let footer = drawn(&app.footer());

    assert!(
        footer.starts_with(&format!("{DOT} listening: off")),
        "the listening state leads the footer: {footer:?}"
    );
    assert_eq!(app.overview.model, "vosk-model-small-en-us-0.15");

    // And it is *live*: the hotkey's own event moves it.
    app.record_at(AT, UiEvent::Listening(true));
    let footer = drawn(&app.footer());
    assert!(
        footer.starts_with(&format!("{DOT} listening: on")),
        "the footer should follow the hotkey: {footer:?}"
    );
}

fn checked(version: Option<&str>) -> App {
    let mut app = App::new(overview());
    app.update = version.map(ToString::to_string);
    app
}

#[test]
fn test_the_footer_mentions_a_newer_release_once_the_check_finds_one() {
    let footer = drawn(&checked(Some("1.2.3")).footer());

    assert!(
        footer.contains(&format!("{UPDATE_MARK} v1.2.3 — voice-orders update")),
        "the newer release and how to get it belong in the footer: {footer:?}"
    );
    assert!(
        footer.starts_with(&format!("{DOT} listening: off")),
        "and they must not displace the listening state: {footer:?}"
    );
}

#[test]
fn test_the_footer_says_nothing_when_there_is_no_newer_release() {
    let quiet = checked(None).footer();
    let unchecked = App::new(overview()).footer();

    assert_eq!(
        quiet, unchecked,
        "a check which found nothing changes nothing"
    );
    assert!(
        !drawn(&quiet).contains(UPDATE_MARK),
        "nothing should be drawn: {quiet:?}"
    );
}

#[test]
fn test_the_update_note_is_dim_cyan() {
    let footer = checked(Some("1.2.3")).footer();
    let note = footer.last().expect("the footer carries the note");

    assert!(note.text.contains(UPDATE_MARK));
    assert_eq!(note.color, Some(Color::Cyan));
    assert!(note.dim);
}

#[test]
fn tui_test_a_profile_without_a_hotkey_says_it_is_always_listening() {
    let mut app = App::new(Overview {
        has_hotkey: false,
        listening: true,
        hotkey: "always listening".to_string(),
        ..overview()
    });
    app.record_at(AT, UiEvent::Heard("salute".to_string()));

    let footer = drawn(&app.footer());
    assert!(
        footer.starts_with(&format!("{DOT} always listening")),
        "unexpected footer: {footer:?}"
    );
}

#[test]
fn tui_test_the_body_logs_events_newest_at_the_bottom() {
    let mut app = App::new(overview());
    // The listening change belongs to the footer, not the log.
    app.record_at(AT, UiEvent::Listening(true));
    app.record_at(AT, UiEvent::Heard("deploy the autocannon".to_string()));
    app.record_at(
        AT,
        UiEvent::Matched {
            name: "Autocannon".to_string(),
            plan: "leftctrl+4".to_string(),
        },
    );
    app.record_at(
        AT,
        UiEvent::Child {
            program: "helldivers2".to_string(),
            line: "Steam initialised".to_string(),
        },
    );

    let lines = lines(app.body(7));
    assert_eq!(lines.len(), 2, "the listening change is not logged");
    assert_eq!(
        lines[0].text,
        "\"deploy the autocannon\" → Autocannon (leftctrl+4)"
    );
    assert_eq!(lines[1].text, "helldivers2: Steam initialised");
}

#[test]
fn test_the_footer_follows_listening_without_logging_it() {
    let mut app = App::new(overview());
    for on in [true, false, true] {
        app.record_at(AT, UiEvent::Listening(on));
    }

    match app.body(7) {
        Body::Invitation(span) => assert_eq!(span.text, "Speak a command; press q to stop."),
        Body::Lines(lines) => panic!("only the hotkey was pressed: {lines:?}"),
    }
    assert!(
        drawn(&app.footer()).starts_with(&format!("{DOT} listening: on")),
        "the footer should still carry the live state"
    );
}

#[test]
fn tui_test_the_body_shows_only_the_newest_events_it_has_room_for() {
    let mut app = App::new(overview());
    for i in 0..50 {
        app.record_at(AT, UiEvent::Heard(format!("utterance {i}")));
    }

    let body = lines(app.body(7));
    assert_eq!(body.len(), 7);
    assert!(body[0].text.contains("utterance 43"), "{body:?}");
    assert!(body[6].text.contains("utterance 49"), "{body:?}");
}

#[test]
fn tui_test_an_empty_log_invites_the_user_to_speak() {
    match App::new(overview()).body(7) {
        Body::Invitation(span) => assert_eq!(span.text, "Speak a command; press q to stop."),
        Body::Lines(lines) => panic!("nothing was reported: {lines:?}"),
    }
}

#[test]
fn tui_test_the_dot_carries_the_events_colour() {
    let mut app = App::new(overview());
    app.record_at(
        AT,
        UiEvent::Matched {
            name: "Autocannon".to_string(),
            plan: "4".to_string(),
        },
    );

    assert_eq!(lines(app.body(7))[0].dot, Color::Green);
}

#[test]
fn the_right_of_a_row_is_measured_in_characters() {
    assert_eq!(columns_for(""), 0);
    assert_eq!(columns_for("⬆ v1"), 4);
    assert_eq!(columns_for(&"x".repeat(70_000)), u16::MAX);
}

// --- Keys ----------------------------------------------------------------

fn press(key: Key, control: bool) -> KeyPress {
    KeyPress {
        key,
        control,
        kind: KeyKind::Press,
    }
}

#[test]
fn test_is_quit() {
    for (key, control, expected) in [
        (Key::Char('q'), false, true),
        (Key::Char('Q'), false, true),
        // Raw mode means the terminal will not turn this into a signal for us.
        (Key::Char('c'), true, true),
        (Key::Char('C'), true, true),
        // A plain 'c' is just a letter.
        (Key::Char('c'), false, false),
        (Key::Char('x'), false, false),
        (Key::Other, false, false),
    ] {
        assert_eq!(
            is_quit(&press(key, control)),
            expected,
            "{key:?} with control: {control}"
        );
    }
}

#[test]
fn tui_test_releasing_a_key_is_not_quitting() {
    let released = KeyPress {
        kind: KeyKind::Release,
        ..press(Key::Char('q'), false)
    };
    assert!(!is_quit(&released));
    let repeated = KeyPress {
        kind: KeyKind::Repeat,
        ..press(Key::Char('q'), false)
    };
    assert!(is_quit(&repeated));
}

// --- The loop ------------------------------------------------------------

#[test]
fn the_loop_draws_what_it_is_sent_and_stops_when_asked() {
    let mut app = App::new(overview());
    assert_eq!(
        app.happen(
            AT,
            Happening::Reported(vec![UiEvent::Heard("salute".to_string())])
        ),
        Next::Draw
    );
    assert_eq!(lines(app.body(5))[0].text, "\"salute\"");
    assert_eq!(app.happen(AT, Happening::Tick), Next::Draw);
    assert_eq!(app.happen(AT, Happening::Cancelled), Next::Leave);
}

#[test]
fn quitting_stops_the_whole_session() {
    let mut app = App::new(overview());
    assert_eq!(
        app.happen(AT, Happening::Pressed(press(Key::Char('q'), false))),
        Next::Quit
    );
    assert_eq!(
        app.happen(AT, Happening::Pressed(press(Key::Char('x'), false))),
        Next::Draw
    );
}

#[test]
fn a_broken_keyboard_is_logged() {
    let mut app = App::new(overview());
    let message = keyboard_lost("broken");
    assert_eq!(message, "We stopped watching the keyboard (broken).");
    assert_eq!(
        app.happen(AT, Happening::KeyboardLost(message)),
        Next::Draw
    );
    assert_eq!(
        lines(app.body(5))[0].text,
        "error: We stopped watching the keyboard (broken)."
    );
}

#[test]
fn a_burst_is_folded_in_at_once() {
    let mut app = App::new(overview());
    app.happen(
        AT,
        Happening::Reported(vec![
            UiEvent::Listening(true),
            UiEvent::Heard("salute".to_string()),
            UiEvent::Listening(false),
            UiEvent::Discarded("Reload".to_string()),
        ]),
    );
    assert!(!app.listening);
    assert_eq!(app.log.len(), 2);
}

#[test]
fn a_terminal_which_fails_us_is_reported() {
    let error = takeover_error("not a tty".to_string());
    assert!(error.is(Kind::User));
    assert!(error.description().contains("take over the terminal"));
    let error = draw_error("broken pipe".to_string());
    assert!(error.is(Kind::System));
    assert_eq!(error.causes[0].text, "broken pipe");
}

// --- The rehearsal's screen ----------------------------------------------

#[test]
fn a_rehearsal_logs_the_listening_state_as_well() {
    let mut app = rehearsal::App::new(overview());
    app.record_at(AT, TestEvent::Listening(true));
    app.record_at(AT, TestEvent::Heard("deploy the autocannon".to_string()));
    app.record(TestEvent::Matched {
        name: "Autocannon".to_string(),
        plan: "leftctrl+4".to_string(),
    });

    let texts: Vec<String> = lines(app.body(7)).into_iter().map(|l| l.text).collect();
    assert_eq!(
        texts,
        vec![
            "listening: on",
            "heard: \"deploy the autocannon\"",
            "matched: \"Autocannon\" → leftctrl+4",
        ]
    );
    assert!(drawn(&app.footer()).starts_with(&format!("{DOT} listening: on")));
    assert_eq!(app.header().title.text, "Helldivers 2");
}

#[test]
fn a_rehearsals_loop_ends_like_any_other() {
    let mut app = rehearsal::App::new(overview());
    assert_eq!(
        app.happen(
            AT,
            rehearsal::Happening::Reported(vec![
                TestEvent::Listening(true),
                TestEvent::Heard("salute".to_string()),
            ])
        ),
        Next::Draw
    );
    assert!(app.listening);
    assert_eq!(app.log.len(), 2);
    assert_eq!(
        app.happen(
            AT,
            rehearsal::Happening::KeyboardLost("gone".to_string())
        ),
        Next::Draw
    );
    assert_eq!(lines(app.body(1))[0].text, "error: gone");
    assert_eq!(
        app.happen(
            AT,
            rehearsal::Happening::Pressed(press(Key::Char('c'), true))
        ),
        Next::Quit
    );
    assert_eq!(
        app.happen(AT, rehearsal::Happening::Tick),
        Next::Draw
    );
    assert_eq!(
        app.happen(AT, rehearsal::Happening::Cancelled),
        Next::Leave
    );
}

#[test]
fn an_event_recorded_now_is_logged() {
    let mut app = App::new(overview());
    app.record(UiEvent::Heard("salute".to_string()));
    assert_eq!(app.log.len(), 1);
    app.record(UiEvent::Listening(true));
    assert_eq!(app.log.len(), 1);
    assert!(app.listening);
}
