use voice_orders::audio::binary32::Binary32;
use voice_orders::config::command::{CommandConfig, CommandPhrase};
use voice_orders::config::duration::{is_countable, parse, render, understand, TOO_LARGE};
use voice_orders::config::hotkey::{self, HotkeyConfig};
use voice_orders::config::output::{self, Chord, KeyName, OutputDefaults, RawEvent};
use voice_orders::config::recognition::RecognitionConfig;
use voice_orders::errors::Kind;
use voice_orders::hotkey::ListenMode;
use voice_orders::output::keys;
use voice_orders::output::{CompiledOutput, KeyCode, KeyEvent};
use voice_orders::recognition::RecognizerOptions;
use voice_orders::time::Duration;

fn key(name: &str) -> KeyCode {
    keys::from_name(name).expect("a known key")
}

fn named(name: &str) -> KeyName {
    KeyName(output::resolve(name).expect("a known key"))
}

fn chord(text: &str) -> Chord {
    Chord {
        keys: text.split('+').map(named).collect(),
    }
}

fn command(phrase: &str) -> CommandConfig {
    CommandConfig {
        name: None,
        phrase: CommandPhrase {
            source: phrase.to_string(),
            expansions: 1,
        },
        keys: None,
        events: None,
        duration: None,
        interval: None,
    }
}

fn plan(output: CompiledOutput) -> Vec<KeyEvent> {
    let CompiledOutput::Keyboard(plan) = output;
    plan
}

// --- Commands ------------------------------------------------------------

#[test]
fn test_display_name_defaults_to_the_phrase_source() {
    let unnamed = CommandConfig {
        keys: Some(vec![chord("4")]),
        ..command("deploy [the] sentry")
    };
    assert_eq!(unnamed.display_name(), "deploy [the] sentry");

    let named = CommandConfig {
        name: Some("Deploy".to_string()),
        ..unnamed
    };
    assert_eq!(named.display_name(), "Deploy");
}

#[test]
fn a_blank_name_is_no_name() {
    let blank = CommandConfig {
        name: Some(" \t ".to_string()),
        ..command("salute")
    };
    assert_eq!(blank.display_name(), "salute");
}

#[test]
fn test_keys_form_compiles_to_the_expected_plan() {
    let command = CommandConfig {
        keys: Some(vec![chord("leftctrl+leftalt+t")]),
        ..command("open [the] terminal")
    };
    let output = command
        .compile(&OutputDefaults::default())
        .expect("the command should compile");

    assert_eq!(
        plan(output),
        vec![
            KeyEvent::Down(key("leftctrl")),
            KeyEvent::Down(key("leftalt")),
            KeyEvent::Down(key("t")),
            KeyEvent::Wait(Duration::from_millis(30)),
            KeyEvent::Up(key("t")),
            KeyEvent::Up(key("leftalt")),
            KeyEvent::Up(key("leftctrl")),
        ]
    );
}

#[test]
fn test_events_form_compiles_one_to_one() {
    let command = CommandConfig {
        events: Some(vec![
            RawEvent::Down(named("x")),
            RawEvent::Wait(Duration::from_millis(750)),
            RawEvent::Up(named("x")),
        ]),
        ..command("salute")
    };
    let output = command
        .compile(&OutputDefaults::default())
        .expect("the command should compile");

    assert_eq!(
        plan(output),
        vec![
            KeyEvent::Down(key("x")),
            KeyEvent::Wait(Duration::from_millis(750)),
            KeyEvent::Up(key("x")),
        ]
    );
}

#[test]
fn test_per_command_timing_overrides_the_defaults() {
    let command = CommandConfig {
        keys: Some(vec![chord("a"), chord("b")]),
        duration: Some(Duration::from_millis(100)),
        interval: Some(Duration::from_millis(5)),
        ..command("salute")
    };
    let output = command
        .compile(&OutputDefaults::default())
        .expect("the command should compile");

    assert_eq!(
        plan(output),
        vec![
            KeyEvent::Down(key("a")),
            KeyEvent::Wait(Duration::from_millis(100)),
            KeyEvent::Up(key("a")),
            KeyEvent::Wait(Duration::from_millis(5)),
            KeyEvent::Down(key("b")),
            KeyEvent::Wait(Duration::from_millis(100)),
            KeyEvent::Up(key("b")),
        ]
    );
}

#[test]
fn test_output_form_errors_name_the_command() {
    let salute = CommandConfig {
        name: Some("Salute".to_string()),
        ..command("salute")
    };
    let cases = vec![
        // Both forms at once.
        (
            CommandConfig {
                keys: Some(vec![chord("x")]),
                events: Some(vec![RawEvent::Down(named("x"))]),
                ..salute.clone()
            },
            "both a 'keys:' list and an 'events:' list",
        ),
        // Neither form.
        (salute.clone(), "does not say which keys to press"),
        // Present but empty.
        (
            CommandConfig {
                keys: Some(Vec::new()),
                ..salute.clone()
            },
            "empty 'keys:' list",
        ),
        (
            CommandConfig {
                events: Some(Vec::new()),
                ..salute.clone()
            },
            "empty 'events:' list",
        ),
    ];

    for (command, expected) in cases {
        let error = command
            .validate_output()
            .expect_err("the command should be rejected");

        let message = error.description();
        assert!(
            message.contains("'Salute'"),
            "the error must name the offending command, got: {message}"
        );
        assert!(message.contains(expected), "unexpected error: {message}");
        assert!(error.is(Kind::User));
        assert!(command.compile(&OutputDefaults::default()).is_err());
    }
}

#[test]
fn test_output_form_errors_fall_back_to_the_phrase_source() {
    let error = command("deploy [the] sentry")
        .validate_output()
        .expect_err("no output form");
    assert!(
        error.description().contains("'deploy [the] sentry'"),
        "an unnamed command is identified by its phrase, got: {}",
        error.description()
    );
}

// --- Durations -----------------------------------------------------------

#[test]
fn test_parse_accepts_humantime() {
    for (input, expected) in [
        ("300ms", Duration::from_millis(300)),
        ("30ms", Duration::from_millis(30)),
        ("1s", Duration::from_secs(1)),
        ("1s 500ms", Duration::from_millis(1500)),
        ("750ms", Duration::from_millis(750)),
        ("2m", Duration::from_secs(120)),
        ("0s", Duration::zero()),
        // Leading and trailing whitespace is a formatting accident.
        ("  350ms\t", Duration::from_millis(350)),
    ] {
        assert!(is_countable(input.trim()));
        assert_eq!(
            parse(input).expect("the duration should parse"),
            expected,
            "{input:?}"
        );
    }
}

#[test]
fn test_parse_rejects_ambiguous_input() {
    // A bare number could mean anything; we refuse to guess.
    for input in ["300", "", "ms", "300 milliseconds please", "-30ms"] {
        let error = parse(input).expect_err("the duration should be rejected");
        let message = error.description();
        assert!(
            message.contains(&format!("'{input}'")),
            "the error should quote the input, got: {message}"
        );
        assert!(error.is(Kind::User));
    }
}

#[test]
fn test_render() {
    for (duration, expected) in [
        (Duration::from_millis(300), "300ms"),
        (Duration::from_secs(1), "1s"),
        (Duration::zero(), "0s"),
    ] {
        assert_eq!(render(duration), expected);
    }
}

#[test]
fn what_is_rendered_is_parsed_back() {
    for millis in [0, 1, 999, 1_000, 1_500, 86_400_000, 90_061_001, 31_557_600_000] {
        let duration = Duration::from_millis(millis);
        assert_eq!(
            parse(&render(duration)).expect("what we render should parse"),
            duration
        );
    }
}

#[test]
fn numbers_beyond_counting_are_too_large() {
    // The last second which can be counted, and exactly one more in small
    // change.
    for text in [
        "18446744073709551615s 1000ms",
        "18446744073709551615s 999ms 1000us",
        "18446744073709551610s 5s 1000000000ns",
        "18446744073709551600s 0.25m 1000ms 1h",
        "18446744073709551615s 1000ms whatever",
        "18446744073709551615.0s 1000ms",
        "18446744073709551614s 0.5s 1.5s",
    ] {
        assert!(!is_countable(text), "{text}");
        let error = parse(&format!(" {text} ")).expect_err(text);
        assert!(error.is(Kind::User));
        assert!(error.description().contains(text));
        assert_eq!(error.causes[0].text, TOO_LARGE, "{text}");
    }

    // Anything else means what it parses to, or is wrong in the same words.
    for text in [
        "18446744073709551615s 1001ms",
        "18446744073709551611s 5000ms",
        "18446744073709551616s",
        "0ns 18446744073709551616s",
        "18446744073709551615s 1s",
        "18446744073709551615s 1000ms,",
        "18446744073709551615x 18446744073709551615s 1000ms",
        "1. 18446744073709551615s 1000ms",
        "; 18446744073709551615s 1000ms",
        "18446744073709551615s1001ms",
        "18446744073709551614s 0.5s 1.4s",
        "99999999999999years 1500ms",
        "584542046091y",
        "0.5s 99999999999999years",
        "99999999999999999999999999999s 1000ms",
        "1.12345678901234567890s",
        "0.5ns",
        "0.1us 0.0001us",
        "18446744073709551615s 999ms",
        "18446744073709551614s 1000ms",
        "18446744073709551614s1000ms",
        "1 0 0 ms",
        "1000000000000ns 1ms",
        "999999999999ns",
        "584542046089y 1s",
        "1.5h 0.25m 2.000000001s",
        "0.5h",
        "0.3333h",
        "0",
        "1s 0",
    ] {
        assert!(is_countable(text), "{text}");
        match (humantime::parse_duration(text), parse(text)) {
            (Ok(expected), Ok(parsed)) => {
                assert_eq!(parsed.seconds, expected.as_secs(), "{text}");
                assert_eq!(parsed.nanos, expected.subsec_nanos(), "{text}");
            }
            (Err(reason), Err(error)) => {
                assert_eq!(error.causes[0].text, reason.to_string(), "{text}");
            }
            (expected, parsed) => panic!("{text}: {expected:?} {parsed:?}"),
        }
    }
    assert_eq!(
        parse("18446744073709551615s 1s")
            .expect_err("that is too long")
            .causes[0]
            .text,
        TOO_LARGE
    );
    for (text, seconds, nanos) in [
        ("18446744073709551615s 999ms", u64::MAX, 999_000_000),
        ("18446744073709551614s 1000ms", u64::MAX, 0),
        ("584542046089y 1s", 18_446_744_073_658_226_401, 0),
        ("1.5h 0.25m 2.000000001s", 5417, 1),
    ] {
        assert_eq!(
            parse(text).expect(text),
            Duration { seconds, nanos },
            "{text}"
        );
    }
}

#[test]
fn every_duration_is_parsed_back() {
    for (seconds, nanos) in [
        (u64::MAX, 999_999_999),
        (u64::MAX, 0),
        (0x8000_0000_0000_0000, 1),
        (31_557_599, 999_999_999),
        (0, 999_999_999),
    ] {
        let duration = Duration { seconds, nanos };
        let text = render(duration);
        assert!(is_countable(&text), "{text}");
        assert_eq!(parse(&text).expect(&text), duration);
        assert_eq!(parse(&format!(" \t\u{a0}{text}\n ")).expect(&text), duration);
    }
}

#[test]
fn what_was_parsed_is_worded() {
    assert_eq!(
        understand("x", Ok((1, 5))).expect("the parse succeeded"),
        Duration {
            seconds: 1,
            nanos: 5
        }
    );

    let error = understand("300", Err("time unit needed".to_string()))
        .expect_err("the parse failed");
    assert_eq!(
        error.description(),
        "We could not understand '300' as a length of time."
    );
    assert_eq!(error.causes.len(), 1);
    assert_eq!(error.causes[0].kind, None);
    assert_eq!(error.causes[0].text, "time unit needed");
}

// --- Hotkeys -------------------------------------------------------------

fn full(device: &str, key: &str, mode: ListenMode, interrupt: bool) -> HotkeyConfig {
    HotkeyConfig {
        device: Some(device.to_string()),
        key: Some(named(key)),
        mode: Some(mode),
        interrupt: Some(interrupt),
    }
}

fn only_a_key(key: &str) -> HotkeyConfig {
    HotkeyConfig {
        key: Some(named(key)),
        ..HotkeyConfig::default()
    }
}

#[test]
fn test_interrupt_defaults_to_off() {
    for (interrupt, expected) in [(None, false), (Some(false), false), (Some(true), true)] {
        let config = HotkeyConfig {
            interrupt,
            ..only_a_key("rightctrl")
        };
        let resolved = hotkey::resolve(Some(&config), None)
            .expect("the hotkey should resolve")
            .expect("a key was given");

        assert_eq!(resolved.interrupt, expected, "for: {interrupt:?}");
    }
}

#[test]
fn test_only_the_key_is_needed_for_a_working_hotkey() {
    let resolved = hotkey::resolve(Some(&only_a_key("rightctrl")), None)
        .expect("the hotkey should resolve")
        .expect("a key was given");

    assert_eq!(resolved.device, "auto");
    assert_eq!(
        resolved.mode,
        ListenMode::Toggle,
        "toggle is the default mode"
    );
}

#[test]
fn test_a_block_without_a_key_is_a_resolution_error() {
    let config = HotkeyConfig {
        device: Some("auto".to_string()),
        ..HotkeyConfig::default()
    };
    let error = hotkey::resolve(Some(&config), None)
        .expect_err("a hotkey without a key makes no sense");

    assert!(
        error.description().contains("'key' field is missing"),
        "the error should name the missing field, got: {}",
        error.description()
    );
}

#[test]
fn test_no_block_at_all_is_always_listening() {
    assert!(
        hotkey::resolve(None, None)
            .expect("nothing to resolve")
            .is_none(),
        "a profile with no hotkey listens continuously"
    );
}

#[test]
fn test_unknown_key_names_are_load_errors() {
    let error = output::resolve("rightctlr").expect_err("an unknown key name should be rejected");
    assert!(
        error.description().contains("Did you mean 'rightctrl'?"),
        "unexpected error: {}",
        error.description()
    );
}

#[test]
fn test_the_profile_wins_every_field_it_sets() {
    let profile = full("/dev/input/event3", "leftctrl", ListenMode::Toggle, false);
    let system = full("Keychron", "rightctrl", ListenMode::PushToMute, true);

    let resolved = hotkey::resolve(Some(&profile), Some(&system))
        .expect("the hotkey should resolve")
        .expect("a key was given");

    assert_eq!(resolved.device, "/dev/input/event3");
    assert_eq!(resolved.key.code(), keys::from_name("leftctrl").unwrap());
    assert_eq!(resolved.mode, ListenMode::Toggle);
    assert!(!resolved.interrupt);
}

#[test]
fn test_the_machine_fills_every_gap() {
    let system = full("Keychron", "rightctrl", ListenMode::PushToMute, true);

    let resolved = hotkey::resolve(Some(&HotkeyConfig::default()), Some(&system))
        .expect("the hotkey should resolve")
        .expect("the machine supplied a key");

    assert_eq!(resolved.device, "Keychron");
    assert_eq!(resolved.key.code(), keys::from_name("rightctrl").unwrap());
    assert_eq!(resolved.mode, ListenMode::PushToMute);
    assert!(resolved.interrupt);
}

#[test]
fn test_a_machine_block_without_a_key_cannot_activate_a_silent_profile() {
    let system = HotkeyConfig {
        device: Some("Keychron".to_string()),
        mode: Some(ListenMode::PushToTalk),
        ..HotkeyConfig::default()
    };

    assert!(
        hotkey::resolve(None, Some(&system))
            .expect("nothing to resolve")
            .is_none(),
        "no key emerged, so there is no hotkey"
    );
}

// --- Keys and pacing -----------------------------------------------------

#[test]
fn test_resolve_reports_unknown_names() {
    for (name, suggestion) in [
        // A plausible typo gets a did-you-mean...
        ("leftctlr", Some("leftctrl")),
        ("entre", Some("enter")),
        ("scape", Some("space")),
        // ...and something which is not a key at all simply does not.
        ("zzzzzzzzzzq", None),
    ] {
        let error = output::resolve(name).expect_err("the key should be rejected");
        let message = error.description();

        assert!(
            message.contains(&format!("'{name}'")),
            "the error should quote the bad name, got: {message}"
        );

        match suggestion {
            Some(expected) => assert!(
                message.contains(&format!("Did you mean '{expected}'?")),
                "expected a did-you-mean for '{expected}', got: {message}"
            ),
            None => assert!(
                !message.contains("Did you mean"),
                "expected no did-you-mean, got: {message}"
            ),
        }
    }
}

#[test]
fn test_unknown_key_fails_deserialization_with_the_hint() {
    let error = output::resolve("leftctlr").expect_err("an unknown key name should be rejected");
    assert!(
        error.description().contains("Did you mean 'leftctrl'?"),
        "unexpected error: {}",
        error.description()
    );
}

#[test]
fn test_key_name_round_trips() {
    let name = named("rightctrl");
    assert_eq!(name.code(), key("rightctrl"));
    assert_eq!(name.name(), "rightctrl");
}

#[test]
fn test_output_defaults() {
    assert_eq!(
        OutputDefaults::default(),
        OutputDefaults {
            duration: Duration::from_millis(30),
            interval: Duration::from_millis(25),
        }
    );

    // A partial block keeps the defaults for whatever it omits.
    let defaults = OutputDefaults {
        duration: parse("50ms").expect("the duration should parse"),
        ..OutputDefaults::default()
    };
    assert_eq!(
        defaults,
        OutputDefaults {
            duration: Duration::from_millis(50),
            interval: Duration::from_millis(25),
        }
    );
}

// --- Recognition ---------------------------------------------------------

fn margin(value: f32) -> Binary32 {
    Binary32 {
        bits: value.to_bits(),
    }
}

#[test]
fn test_an_empty_block_is_all_defaults() {
    let config = RecognitionConfig::default();

    assert_eq!(config.silence, Duration::from_millis(200));
    assert!(config.eager(), "eager defaults on");
    assert_eq!(config.eager_delay, Duration::from_millis(100));
    assert_eq!(config.alternatives, 0);
    assert_eq!(config.confidence_margin.bits, 3.0f32.to_bits());
    config.validate("3").expect("the defaults should validate");
}

#[test]
fn test_the_defaults_agree_with_the_recognizer_side() {
    assert_eq!(
        RecognitionConfig::default().recognizer_options(),
        RecognizerOptions::default()
    );
}

#[test]
fn test_every_field_parses() {
    let config = RecognitionConfig {
        silence: parse("150ms").expect("the duration should parse"),
        eager: Some(false),
        eager_delay: parse("250ms").expect("the duration should parse"),
        alternatives: 5,
        confidence_margin: margin(1.5),
    };

    assert_eq!(config.silence, Duration::from_millis(150));
    assert!(!config.eager());
    assert_eq!(config.eager_delay, Duration::from_millis(250));
    assert_eq!(config.alternatives, 5);
    config.validate("1.5").expect("the block should validate");
    assert_eq!(
        config.recognizer_options(),
        RecognizerOptions {
            silence: Duration::from_millis(150),
            alternatives: 5,
        }
    );
}

#[test]
fn test_eager_defaults_off_when_alternatives_are_on() {
    for (eager, alternatives, expected) in [
        // Unset eager: on without alternatives, off with them.
        (None, 0, true),
        (None, 3, false),
        // An explicit eager: false always wins.
        (Some(false), 0, false),
        (Some(false), 3, false),
        // An explicit eager: true stands alone.
        (Some(true), 0, true),
    ] {
        let config = RecognitionConfig {
            eager,
            alternatives,
            ..RecognitionConfig::default()
        };
        assert_eq!(config.eager(), expected, "for {eager:?}, {alternatives}");
    }
}

#[test]
fn test_eager_with_alternatives_is_a_config_error() {
    let config = RecognitionConfig {
        eager: Some(true),
        alternatives: 3,
        ..RecognitionConfig::default()
    };
    let error = config
        .validate("3")
        .expect_err("the combination is impossible");

    let message = error.description();
    assert!(
        message.contains("finalized") && message.contains("partial"),
        "the error should explain the per-utterance incompatibility, got: {message}"
    );
    assert!(error.is(Kind::User));
}

#[test]
fn test_a_nonsensical_margin_is_rejected() {
    for (value, text) in [(-1.0f32, "-1"), (f32::NAN, "NaN")] {
        let config = RecognitionConfig {
            confidence_margin: margin(value),
            ..RecognitionConfig::default()
        };
        let error = config
            .validate(text)
            .expect_err("the margin should be rejected");
        assert!(
            error.description().contains("confidence_margin"),
            "unexpected error: {}",
            error.description()
        );
    }
}

#[test]
fn a_margin_is_anything_but_negative() {
    for value in [0.0f32, -0.0, 3.0, f32::MAX, f32::INFINITY, f32::MIN_POSITIVE] {
        let config = RecognitionConfig {
            confidence_margin: margin(value),
            ..RecognitionConfig::default()
        };
        assert_eq!(
            config.validate("x").is_ok(),
            value.is_finite() && value >= 0.0,
            "{value}"
        );
    }
}

#[test]
fn test_a_bare_number_duration_is_rejected() {
    let error = parse("200").expect_err("a unit-less duration should be rejected");
    assert!(
        error.description().contains("length of time"),
        "unexpected error: {}",
        error.description()
    );
}

#[test]
fn a_chord_is_its_key_names_joined() {
    let chord = Chord::parse("leftctrl+leftalt+t").expect("every name is a key's");
    let names: Vec<String> = chord.keys.iter().map(|key| key.name()).collect();
    assert_eq!(names, vec!["leftctrl", "leftalt", "t"]);
    assert_eq!(Chord::parse("4").expect("a key").keys.len(), 1);
    let error = Chord::parse("leftctlr+nothing").expect_err("neither name is a key's");
    assert!(
        error.description().contains("'leftctlr'") && error.description().contains("'leftctrl'"),
        "{}",
        error.description()
    );
    assert!(Chord::parse("").is_err() && Chord::parse("a+").is_err());
}
