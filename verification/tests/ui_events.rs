use voice_orders::commands::test::event as rehearsal;
use voice_orders::commands::test::event::TestEvent;
use voice_orders::commands::ui::event::{
    clock_time, local_clock, Color, EventLog, LocalTime, UiEvent, DOT, SCROLLBACK,
};
use voice_orders::commands::ui::plan::{plan_duration, render_chord, render_plan};
use voice_orders::commands::ui::ReportMode;
use voice_orders::config::output::{compile_chords, Chord, KeyName, OutputDefaults};
use voice_orders::output::keys;
use voice_orders::output::{CompiledOutput, KeyCode, KeyEvent};
use voice_orders::time::Duration;

const AT: u64 = 1_700_000_000;

/// Every entry the log holds, as `(dot color, text)`.
fn rendered(log: &EventLog) -> Vec<(Color, String)> {
    log.tail(SCROLLBACK)
        .into_iter()
        .map(|line| (line.dot, line.text))
        .collect()
}

fn matched(name: &str, plan: &str) -> UiEvent {
    UiEvent::Matched {
        name: name.to_string(),
        plan: plan.to_string(),
    }
}

#[test]
fn test_the_report_mode_follows_stdout() {
    // A terminal we own gets the full-screen UI; anything else the plain report.
    assert_eq!(ReportMode::of(true), ReportMode::Tui);
    assert_eq!(ReportMode::of(false), ReportMode::Plain);
}

#[test]
fn test_every_event_renders_the_same_text_in_both_modes() {
    let cases = vec![
        (
            UiEvent::Heard("salute".into()),
            "heard: \"salute\"",
            Color::Gray,
        ),
        (
            UiEvent::Hearing("sal".into()),
            "hearing: \"sal\"",
            Color::DarkGray,
        ),
        (UiEvent::Muted, "hearing: (muted)", Color::DarkGray),
        (
            matched("Salute", "x"),
            "matched: \"Salute\" → x",
            Color::Green,
        ),
        (
            UiEvent::Interrupted("Sprint".into()),
            "interrupted: \"Sprint\"",
            Color::Yellow,
        ),
        (
            UiEvent::Discarded("Reload".into()),
            "discarded: \"Reload\"",
            Color::Yellow,
        ),
        (UiEvent::Listening(true), "listening: on", Color::Blue),
        (UiEvent::Listening(false), "listening: off", Color::Blue),
        (
            UiEvent::Child {
                program: "sh".into(),
                line: "hello".into(),
            },
            "sh: hello",
            Color::White,
        ),
        (
            UiEvent::ChildExited {
                program: "sh".into(),
                code: 3,
            },
            "sh exited with code 3",
            Color::Blue,
        ),
        (
            UiEvent::ChildExited {
                program: "sh".into(),
                code: -1,
            },
            "sh exited with code -1",
            Color::Blue,
        ),
        (
            UiEvent::Warning("the speech recognizer could not decode the audio".into()),
            "warning: the speech recognizer could not decode the audio",
            Color::Yellow,
        ),
        (
            UiEvent::Error("the microphone stopped".into()),
            "error: the microphone stopped",
            Color::Red,
        ),
    ];
    for (event, expected, dot) in cases {
        assert_eq!(event.plain_line(), expected, "the plain line for {event:?}");
        assert_eq!(event.color(), dot, "the dot color for {event:?}");

        // The styled line is the same text, behind a timestamp and a dot of
        // the event's own color.
        let line = event.line(AT);
        assert_eq!(line.dot, dot);
        assert_eq!(line.text, expected, "the log line says what the report says");
        assert_eq!(
            line.render("12:34:56"),
            format!("12:34:56 {DOT} {expected}"),
            "every line leads with a time and a dot"
        );
    }
}

#[test]
fn what_is_quoted_is_escaped() {
    assert_eq!(
        UiEvent::Heard("say \"cheese\"\n".into()).plain_line(),
        "heard: \"say \\\"cheese\\\"\\n\""
    );
}

#[test]
fn test_the_wrapped_applications_output_is_dim_and_named_after_it() {
    // The game's log is context, not the point of the screen.
    let line = UiEvent::Child {
        program: "helldivers2".to_string(),
        line: "Steam initialised".to_string(),
    }
    .line(AT);

    assert_eq!(line.dot, Color::White, "the dot");
    assert_eq!(line.style, Some(Color::Gray), "the text");
    assert_eq!(line.text, "helldivers2: Steam initialised");

    // A matched command, by contrast, is drawn in the terminal's own
    // foreground: it is the thing the user is watching for.
    let line = matched("Salute", "x").line(AT);
    assert_eq!(line.style, None);
}

#[test]
fn event_test_a_line_starts_with_a_wall_clock_time() {
    let line = UiEvent::Listening(true).line(AT);
    let local = LocalTime {
        hour: 3,
        minute: 4,
        second: 59,
    };
    for stamp in [
        clock_time(line.at, None),
        clock_time(line.at, Some(local)),
        local_clock(Some(local)).expect("the time is known"),
    ] {
        assert_eq!(stamp.len(), 8, "unexpected timestamp: {stamp:?}");
        let digits: Vec<char> = stamp.chars().collect();
        assert!(
            digits.iter().enumerate().all(|(i, c)| match i {
                2 | 5 => *c == ':',
                _ => c.is_ascii_digit(),
            }),
            "unexpected timestamp: {stamp:?}"
        );
    }
}

#[test]
fn a_time_which_is_not_known_locally_is_shown_in_utc() {
    // 1_700_000_000 is 2023-11-14 22:13:20 UTC.
    assert_eq!(clock_time(AT, None), "22:13:20");
    assert_eq!(
        clock_time(
            AT,
            Some(LocalTime {
                hour: 23,
                minute: 13,
                second: 20,
            })
        ),
        "23:13:20"
    );
    assert_eq!(local_clock(None), None);
}

// --- One entry per recognition -------------------------------------------

#[test]
fn test_a_recognition_is_one_entry_which_upgrades_in_place() {
    let mut log = EventLog::new(SCROLLBACK);

    log.push_at(AT, UiEvent::Heard("auto cannon sentry".to_string()));
    assert_eq!(
        rendered(&log),
        vec![(Color::Gray, "\"auto cannon sentry\"".to_string())],
        "an utterance nothing has matched yet is grey, and says only itself"
    );

    log.push_at(AT, matched("Autocannon sentry", "4"));
    assert_eq!(
        rendered(&log),
        vec![(
            Color::Green,
            "\"auto cannon sentry\" → Autocannon sentry (4)".to_string()
        )],
        "the match upgrades the utterance rather than adding a line under it"
    );
}

#[test]
fn test_an_utterance_which_never_matches_stays_grey() {
    let mut log = EventLog::new(SCROLLBACK);
    log.push_at(AT, UiEvent::Heard("salute".to_string()));
    log.push_at(AT, matched("Salute", "x"));
    log.push_at(AT, UiEvent::Heard("deploy the thing".to_string()));

    assert_eq!(
        rendered(&log),
        vec![
            (Color::Green, "\"salute\" → Salute (x)".to_string()),
            (Color::Gray, "\"deploy the thing\"".to_string()),
        ]
    );
}

#[test]
fn test_a_match_cannot_tell_a_late_match_from_an_unmatched_utterance() {
    let mut log = EventLog::new(SCROLLBACK);
    log.push_at(AT, UiEvent::Heard("deploy the thing".to_string()));
    log.push_at(AT, UiEvent::Heard("salute".to_string()));
    log.push_at(AT, matched("Salute", "x"));

    assert_eq!(
        rendered(&log),
        vec![
            (
                Color::Green,
                "\"deploy the thing\" → Salute (x)".to_string()
            ),
            (Color::Gray, "\"salute\"".to_string()),
        ],
        "the oldest utterance waiting for a match takes it"
    );
}

#[test]
fn test_a_match_upgrades_the_oldest_utterance_waiting_for_one() {
    let mut log = EventLog::new(SCROLLBACK);
    log.push_at(AT, UiEvent::Heard("autocannon".to_string()));
    log.push_at(AT, UiEvent::Heard("reload".to_string()));
    log.push_at(AT, matched("Autocannon", "4"));
    log.push_at(AT, matched("Reload", "r"));

    assert_eq!(
        rendered(&log),
        vec![
            (Color::Green, "\"autocannon\" → Autocannon (4)".to_string()),
            (Color::Green, "\"reload\" → Reload (r)".to_string()),
        ],
        "each match should land on the utterance which produced it"
    );
}

#[test]
fn test_a_greedy_multi_match_joins_one_entry() {
    let mut log = EventLog::new(SCROLLBACK);
    log.push_at(AT, UiEvent::Heard("salute reload".to_string()));
    log.push_at(AT, matched("Salute", "x"));
    log.push_at(AT, matched("Reload", "r"));

    assert_eq!(
        rendered(&log),
        vec![(
            Color::Green,
            "\"salute reload\" → Salute (x), Reload (r)".to_string()
        )]
    );
}

#[test]
fn test_a_match_with_nothing_to_upgrade_is_logged_on_its_own() {
    let mut log = EventLog::new(SCROLLBACK);
    log.push_at(AT, matched("Salute", "x"));

    assert_eq!(
        rendered(&log),
        vec![(Color::Green, "matched: \"Salute\" → x".to_string())]
    );
}

#[test]
fn test_other_events_keep_their_own_entries() {
    let mut log = EventLog::new(SCROLLBACK);
    log.push_at(AT, UiEvent::Heard("sprint".to_string()));
    log.push_at(AT, matched("Sprint", "w (held)"));
    log.push_at(AT, UiEvent::Interrupted("Sprint".to_string()));
    log.push_at(AT, UiEvent::Discarded("Reload".to_string()));

    assert_eq!(
        rendered(&log),
        vec![
            (Color::Green, "\"sprint\" → Sprint (w (held))".to_string()),
            (Color::Yellow, "interrupted: \"Sprint\"".to_string()),
            (Color::Yellow, "discarded: \"Reload\"".to_string()),
        ]
    );
}

#[test]
fn event_test_the_log_is_bounded_by_its_capacity() {
    let mut log = EventLog::new(3);
    assert!(log.is_empty());

    for i in 0..10 {
        log.push_at(AT, UiEvent::Heard(format!("utterance {i}")));
    }

    assert_eq!(log.len(), 3, "the scrollback must not grow without bound");

    // And it is the *oldest* which is dropped: the last three survive.
    let lines: Vec<String> = log.tail(10).into_iter().map(|line| line.text).collect();
    assert_eq!(lines.len(), 3);
    assert!(lines[0].contains("utterance 7"), "unexpected: {lines:?}");
    assert!(lines[2].contains("utterance 9"), "unexpected: {lines:?}");
}

#[test]
fn test_a_zero_capacity_log_still_holds_the_newest_entry() {
    let mut log = EventLog::new(0);
    log.push_at(AT, UiEvent::Heard("salute".into()));

    assert_eq!(log.len(), 1);
}

#[test]
fn test_the_tail_is_the_newest_entries_oldest_first() {
    let mut log = EventLog::new(SCROLLBACK);
    for i in 0..5 {
        log.push_at(AT, UiEvent::Heard(format!("utterance {i}")));
    }

    let lines: Vec<String> = log.tail(2).into_iter().map(|line| line.text).collect();
    assert_eq!(lines.len(), 2, "only as many lines as there are rows");
    assert!(lines[0].contains("utterance 3"), "unexpected: {lines:?}");
    assert!(
        lines[1].contains("utterance 4"),
        "the newest entry is the last line: {lines:?}"
    );
}

// --- The rehearsal's own log ---------------------------------------------

#[test]
fn every_rehearsal_event_renders_the_same_text_in_both_modes() {
    let cases = vec![
        (
            TestEvent::Heard("salute".into()),
            "heard: \"salute\"",
            Color::Gray,
        ),
        (
            TestEvent::Hearing("sal".into()),
            "hearing: \"sal\"",
            Color::DarkGray,
        ),
        (TestEvent::Muted, "hearing: (muted)", Color::DarkGray),
        (
            TestEvent::Matched {
                name: "Salute".into(),
                plan: "x".into(),
            },
            "matched: \"Salute\" → x",
            Color::Green,
        ),
        (
            TestEvent::Interrupted("Sprint".into()),
            "interrupted: \"Sprint\"",
            Color::Yellow,
        ),
        (
            TestEvent::Discarded("Reload".into()),
            "discarded: \"Reload\"",
            Color::Yellow,
        ),
        (TestEvent::Listening(true), "listening: on", Color::Blue),
        (TestEvent::Listening(false), "listening: off", Color::Blue),
        (
            TestEvent::Error("the microphone stopped".into()),
            "error: the microphone stopped",
            Color::Red,
        ),
    ];
    for (event, expected, dot) in cases {
        assert_eq!(event.plain_line(), expected, "the plain line for {event:?}");
        assert_eq!(event.color(), dot, "the dot color for {event:?}");
        let line = event.line(AT);
        assert_eq!(line.dot, dot);
        assert_eq!(line.text, expected);
    }
}

#[test]
fn the_rehearsals_log_is_bounded_by_its_capacity() {
    let mut log = rehearsal::EventLog::new(3);
    assert!(log.is_empty());

    for i in 0..10 {
        log.push(TestEvent::Heard(format!("utterance {i}")));
    }

    assert_eq!(log.len(), 3, "the scrollback must not grow without bound");
    let lines: Vec<String> = log.tail(10).into_iter().map(|line| line.text).collect();
    assert_eq!(lines.len(), 3);
    assert!(lines[0].contains("utterance 7"), "unexpected: {lines:?}");
    assert!(lines[2].contains("utterance 9"), "unexpected: {lines:?}");
}

#[test]
fn test_a_zero_capacity_log_still_holds_the_newest_event() {
    let mut log = rehearsal::EventLog::new(0);
    log.push(TestEvent::Heard("salute".into()));

    assert_eq!(log.len(), 1);
}

#[test]
fn test_the_tail_is_the_newest_events_oldest_first() {
    let mut log = rehearsal::EventLog::new(SCROLLBACK);
    for i in 0..5 {
        log.push(TestEvent::Heard(format!("utterance {i}")));
    }

    let lines: Vec<String> = log.tail(2).into_iter().map(|line| line.text).collect();
    assert_eq!(lines.len(), 2, "only as many lines as there are rows");
    assert!(lines[0].contains("utterance 3"), "unexpected: {lines:?}");
    assert!(
        lines[1].contains("utterance 4"),
        "the newest event is the last line: {lines:?}"
    );
}

#[test]
fn what_is_reported_now_carries_the_time() {
    let mut log = rehearsal::EventLog::new(SCROLLBACK);
    log.push(TestEvent::Muted);
    let at = log.tail(1)[0].at;
    assert!(at > AT, "the clock is long past {AT}: {at}");
}

// --- Plans ---------------------------------------------------------------

fn key(name: &str) -> KeyCode {
    keys::from_name(name).expect("a known key")
}

/// What a `keys:` list compiles to, under the default pacing.
fn pressing(chords: &[&str]) -> CompiledOutput {
    let chords: Vec<Chord> = chords
        .iter()
        .map(|chord| Chord {
            keys: chord.split('+').map(|name| KeyName(key(name))).collect(),
        })
        .collect();
    let defaults = OutputDefaults::default();
    CompiledOutput::Keyboard(compile_chords(
        &chords,
        defaults.duration,
        defaults.interval,
    ))
}

fn long_press() -> CompiledOutput {
    CompiledOutput::Keyboard(vec![
        KeyEvent::Down(key("x")),
        KeyEvent::Wait(Duration::from_millis(750)),
        KeyEvent::Up(key("x")),
    ])
}

#[test]
fn test_render_plan() {
    let cases = vec![
        // A single key: the hold wait is elided.
        (pressing(&["4"]), "4"),
        // A chord: pressed in order, released in reverse, reported as one step.
        (pressing(&["leftctrl+leftalt+t"]), "leftctrl+leftalt+t"),
        // A sequence: the inter-chord interval is elided too.
        (pressing(&["a", "b"]), "a b"),
        (pressing(&["leftshift+a", "b"]), "leftshift+a b"),
        // The explicit form, with its long hold.
        (long_press(), "x"),
        // A hold-style macro: legal, and worth saying out loud.
        (
            CompiledOutput::Keyboard(vec![KeyEvent::Down(key("w"))]),
            "w (held)",
        ),
        // A release with no press before it: also legal, also worth saying.
        (
            CompiledOutput::Keyboard(vec![
                KeyEvent::Up(key("w")),
                KeyEvent::Down(key("x")),
                KeyEvent::Up(key("x")),
            ]),
            "(release w) x",
        ),
    ];
    for (plan, expected) in cases {
        assert_eq!(render_plan(&plan), expected);
    }
}

#[test]
fn plan_test_an_empty_plan_says_so() {
    assert_eq!(
        render_plan(&CompiledOutput::Keyboard(Vec::new())),
        "(nothing)"
    );
}

#[test]
fn test_test_an_empty_plan_says_so() {
    assert_eq!(
        render_plan(&CompiledOutput::Keyboard(Vec::new())),
        "(nothing)"
    );
}

#[test]
fn plan_test_waits_alone_are_elided_entirely() {
    assert_eq!(
        render_plan(&CompiledOutput::Keyboard(vec![KeyEvent::Wait(
            Duration::from_secs(1)
        )])),
        "(nothing)"
    );
}

#[test]
fn test_test_waits_alone_are_elided_entirely() {
    assert_eq!(
        render_plan(&CompiledOutput::Keyboard(vec![KeyEvent::Wait(
            Duration::from_secs(1)
        )])),
        "(nothing)"
    );
}

fn pressed_twice() -> CompiledOutput {
    CompiledOutput::Keyboard(vec![
        KeyEvent::Down(key("x")),
        KeyEvent::Down(key("x")),
        KeyEvent::Up(key("x")),
    ])
}

#[test]
fn plan_test_a_repeated_press_does_not_break_the_chord() {
    assert_eq!(render_plan(&pressed_twice()), "x");
}

#[test]
fn test_test_a_repeated_press_does_not_break_the_chord() {
    assert_eq!(render_plan(&pressed_twice()), "x");
}

#[test]
fn an_unbalanced_key_is_called_out() {
    let (a, b) = (key("a"), key("b"));
    for (plan, expected) in [
        // Letting go of one key twice is not letting go of the other.
        (
            vec![
                KeyEvent::Down(a),
                KeyEvent::Down(b),
                KeyEvent::Up(a),
                KeyEvent::Up(a),
            ],
            "(release a) a+b (held)",
        ),
        // A key which goes down again while its chord is open has to come up
        // again.
        (
            vec![
                KeyEvent::Down(a),
                KeyEvent::Down(b),
                KeyEvent::Up(a),
                KeyEvent::Down(a),
                KeyEvent::Up(b),
            ],
            "a+b (held)",
        ),
        (
            vec![
                KeyEvent::Down(a),
                KeyEvent::Down(b),
                KeyEvent::Up(a),
                KeyEvent::Down(a),
                KeyEvent::Up(b),
                KeyEvent::Up(a),
            ],
            "a+b",
        ),
        (
            vec![KeyEvent::Up(a), KeyEvent::Down(a), KeyEvent::Up(a)],
            "(release a) a",
        ),
    ] {
        assert_eq!(render_plan(&CompiledOutput::Keyboard(plan)), expected);
    }
}

#[test]
fn test_release_everything_closes_the_chord_it_lets_go_of() {
    assert_eq!(
        render_plan(&CompiledOutput::Keyboard(vec![
            KeyEvent::Down(key("w")),
            KeyEvent::ReleaseAll,
        ])),
        "w (release everything)"
    );
    assert_eq!(
        render_plan(&CompiledOutput::Keyboard(vec![KeyEvent::ReleaseAll])),
        "(release everything)",
        "a panic command holds nothing of its own, and still says what it does"
    );
}

#[test]
fn plan_test_the_defaults_do_not_leak_into_the_rendering() {
    assert_eq!(
        OutputDefaults::default().duration,
        Duration::from_millis(30)
    );
    assert_eq!(render_plan(&pressing(&["a"])), "a");
}

#[test]
fn test_test_the_defaults_do_not_leak_into_the_rendering() {
    assert_eq!(
        OutputDefaults::default().duration,
        Duration::from_millis(30)
    );
    assert_eq!(render_plan(&pressing(&["a"])), "a");
}

#[test]
fn test_plan_duration() {
    let cases = vec![
        // One hold, and no interval after the last chord.
        (pressing(&["x"]), Duration::from_millis(30)),
        // Two chords: hold, interval, hold.
        (pressing(&["a", "b"]), Duration::from_millis(85)),
        // The explicit form times exactly what it says.
        (long_press(), Duration::from_millis(750)),
        // A hold-style macro takes no time at all to *start*.
        (
            CompiledOutput::Keyboard(vec![KeyEvent::Down(key("w"))]),
            Duration::zero(),
        ),
    ];
    for (plan, expected) in cases {
        assert_eq!(plan_duration(&plan), expected);
    }
}

#[test]
fn a_chord_is_its_keys_in_the_order_they_go_down() {
    assert_eq!(render_chord(&[key("leftctrl"), key("4")]), "leftctrl+4");
    assert_eq!(render_chord(&[]), "");
}
