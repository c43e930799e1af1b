use voice_orders::audio::binary32::Binary32;
use voice_orders::config::command::{CommandConfig, CommandPhrase};
use voice_orders::config::hotkey::{self, HotkeyConfig};
use voice_orders::config::loader::{
    accept_body, accept_file, check_status, locate, looks_like_html, rewrite_gist_url, FetchError,
    Location,
};
use voice_orders::config::output::{self, Chord, KeyName, OutputDefaults, RawEvent};
use voice_orders::config::recognition::RecognitionConfig;
use voice_orders::config::system::{
    config_path_for, default_models_path_for, expand_model, is_model_name, ConfigFile, Environment,
    ModelsConfig, ResolvedSettings, SystemAudioConfig, SystemConfig,
};
use voice_orders::config::{
    defaults, expand_path, resolve_model_from, AudioConfig, LoadedProfile, Profile, MODEL_PATH_ENV,
};
use voice_orders::errors::{Cause, FileError, FileErrorKind, HumanizableError, Kind};
use voice_orders::hotkey::ListenMode;
use voice_orders::output::keys;
use voice_orders::output::{CompiledOutput, KeyCode, KeyEvent};
use voice_orders::time::Duration;

/// A cause in its own words.
fn foreign(text: &str) -> Cause {
    Cause {
        kind: None,
        text: text.to_string(),
    }
}

fn key(name: &str) -> KeyCode {
    keys::from_name(name).expect("a known key")
}

fn named(name: &str) -> KeyName {
    KeyName(output::resolve(name).expect("a known key"))
}

fn chord(text: &str) -> Chord {
    Chord {
        keys: text.split('+').map(named).collect(),
    }
}

fn pressing(phrase: &str, keys: &str) -> CommandConfig {
    CommandConfig {
        name: None,
        phrase: CommandPhrase {
            source: phrase.to_string(),
            expansions: 1,
        },
        keys: Some(vec![chord(keys)]),
        events: None,
        duration: None,
        interval: None,
    }
}

/// What a profile with nothing but a single command loads as.
fn minimal() -> Profile {
    Profile {
        name: None,
        model: None,
        audio: AudioConfig { device: None },
        hotkey: None,
        completion_timeout: defaults::completion_timeout(),
        recognition: RecognitionConfig::default(),
        defaults: OutputDefaults::default(),
        commands: vec![pressing("salute", "x")],
    }
}

fn loaded() -> LoadedProfile {
    LoadedProfile {
        source: "test-profile.yaml".to_string(),
        content: String::new(),
    }
}

fn linux() -> Environment {
    Environment {
        windows: false,
        app_data: None,
        local_app_data: None,
        xdg_config_home: None,
    }
}

fn windows() -> Environment {
    Environment {
        windows: true,
        ..linux()
    }
}

fn events(output: CompiledOutput) -> Vec<KeyEvent> {
    let CompiledOutput::Keyboard(events) = output;
    events
}

// --- Profiles ------------------------------------------------------------

#[test]
fn test_the_example_profile_loads() {
    let profile = Profile {
        name: Some("Deep Rock Galactic".to_string()),
        model: expand_path(Some("~/models/vosk-model-small-en-us-0.15".to_string())),
        audio: AudioConfig {
            device: Some("default".to_string()),
        },
        hotkey: Some(HotkeyConfig {
            device: Some("auto".to_string()),
            key: Some(named("rightctrl")),
            mode: Some(ListenMode::Toggle),
            interrupt: None,
        }),
        completion_timeout: Duration::from_millis(350),
        commands: vec![
            pressing("deploy [the] {autocannon, auto cannon} [sentry]", "4"),
            pressing("open [the] terminal", "leftctrl+leftalt+t"),
            CommandConfig {
                keys: None,
                events: Some(vec![
                    RawEvent::Down(named("x")),
                    RawEvent::Wait(Duration::from_millis(750)),
                    RawEvent::Up(named("x")),
                ]),
                ..pressing("salute", "x")
            },
        ],
        ..minimal()
    };
    let profile = Profile::parse(&loaded(), Ok(profile), "3").expect("the profile should load");

    assert_eq!(profile.name.as_deref(), Some("Deep Rock Galactic"));
    assert_eq!(profile.display_name(), "Deep Rock Galactic");
    let model = profile.model.as_ref().expect("the example names a model");
    assert!(
        model.ends_with("vosk-model-small-en-us-0.15"),
        "unexpected model path: {model}"
    );
    assert!(
        !model.starts_with('~'),
        "the '~' should have been expanded, got: {model}"
    );

    assert_eq!(profile.audio.device.as_deref(), Some("default"));
    assert_eq!(profile.completion_timeout, Duration::from_millis(350));
    assert_eq!(
        profile.defaults,
        OutputDefaults {
            duration: Duration::from_millis(30),
            interval: Duration::from_millis(25),
        }
    );

    let hotkey = hotkey::resolve(profile.hotkey.as_ref(), None)
        .expect("the example's hotkey should resolve")
        .expect("the example has a hotkey");
    assert_eq!(hotkey.device, "auto");
    assert_eq!(hotkey.key.code(), key("rightctrl"));
    assert_eq!(hotkey.mode, ListenMode::Toggle);

    let phrases: Vec<&str> = profile
        .commands
        .iter()
        .map(|c| c.phrase.source.as_str())
        .collect();
    assert_eq!(
        phrases,
        vec![
            "deploy [the] {autocannon, auto cannon} [sentry]",
            "open [the] terminal",
            "salute",
        ]
    );

    // The three commands exercise both output forms, and every one of them
    // compiles.
    let compiled: Vec<Vec<KeyEvent>> = profile
        .commands
        .iter()
        .map(|c| events(c.compile(&profile.defaults).expect("it should compile")))
        .collect();

    assert_eq!(
        compiled[0],
        vec![
            KeyEvent::Down(key("4")),
            KeyEvent::Wait(Duration::from_millis(30)),
            KeyEvent::Up(key("4")),
        ]
    );
    assert_eq!(
        compiled[1],
        vec![
            KeyEvent::Down(key("leftctrl")),
            KeyEvent::Down(key("leftalt")),
            KeyEvent::Down(key("t")),
            KeyEvent::Wait(Duration::from_millis(30)),
            KeyEvent::Up(key("t")),
            KeyEvent::Up(key("leftalt")),
            KeyEvent::Up(key("leftctrl")),
        ]
    );
    assert_eq!(
        compiled[2],
        vec![
            KeyEvent::Down(key("x")),
            KeyEvent::Wait(Duration::from_millis(750)),
            KeyEvent::Up(key("x")),
        ]
    );
}

#[test]
fn test_defaults_apply_to_a_minimal_profile() {
    let profile = Profile::parse(&loaded(), Ok(minimal()), "3")
        .expect("a minimal profile should load");

    assert_eq!(profile.name, None);
    assert_eq!(profile.display_name(), "<unnamed profile>");
    assert_eq!(
        profile.audio.device, None,
        "an unset device defers to the machine's configuration"
    );
    assert!(profile.hotkey.is_none(), "no hotkey means always listening");
    assert_eq!(profile.completion_timeout, Duration::from_millis(300));
    assert_eq!(profile.defaults, OutputDefaults::default());
}

#[test]
fn test_the_recognition_block_loads_and_validates() {
    let recognition = RecognitionConfig {
        silence: Duration::from_millis(150),
        alternatives: 3,
        confidence_margin: Binary32 {
            bits: 2.5f32.to_bits(),
        },
        ..RecognitionConfig::default()
    };
    let profile = Profile::parse(
        &loaded(),
        Ok(Profile {
            recognition,
            ..minimal()
        }),
        "2.5",
    )
    .expect("a profile with a recognition block should load");

    assert_eq!(profile.recognition.silence, Duration::from_millis(150));
    assert_eq!(profile.recognition.alternatives, 3);
    assert!(
        !profile.recognition.eager(),
        "alternatives flip the eager default off"
    );

    // The impossible combination is refused with the reason spelled out.
    let error = Profile::parse(
        &loaded(),
        Ok(Profile {
            recognition: RecognitionConfig {
                eager: Some(true),
                alternatives: 3,
                ..RecognitionConfig::default()
            },
            ..minimal()
        }),
        "3",
    )
    .expect_err("eager + alternatives cannot work together");
    assert!(
        error.description().contains("finalized"),
        "unexpected error: {}",
        error.description()
    );
}

#[test]
fn test_the_model_is_optional() {
    let profile = Profile::parse(&loaded(), Ok(minimal()), "3")
        .expect("a profile without a model should still load");

    assert_eq!(profile.model, None);
}

#[test]
fn test_load_errors_name_the_source() {
    let error = Profile::parse(
        &loaded(),
        Err("commands: invalid type: string \"not-a-list\", expected a sequence".to_string()),
        "3",
    )
    .expect_err("commands must be a list");
    assert!(
        error.description().contains("test-profile.yaml"),
        "unexpected error: {}",
        error.description()
    );
    assert!(error.is(Kind::User));
    assert!(error.causes[0].text.contains("not-a-list"));
}

#[test]
fn a_leading_tilde_is_expanded_in_a_path() {
    assert_eq!(
        expand_path(Some("/models/en".to_string())),
        Some("/models/en".to_string())
    );
    assert_eq!(expand_path(None), None);
    let expanded = expand_path(Some("~/models/en".to_string())).expect("there is a path");
    assert!(expanded.ends_with("/models/en"), "{expanded}");
}

#[test]
fn test_the_command_line_model_wins() {
    let profile = Profile {
        model: Some("/profile/model".to_string()),
        ..minimal()
    };

    let resolved = resolve_model_from(
        Some("/cli/model"),
        &profile,
        &SystemConfig::default(),
        Some("/env/model".to_string()),
        &linux(),
    )
    .expect("the command line should resolve");

    assert_eq!(resolved, "/cli/model");
}

#[test]
fn test_the_profile_model_beats_the_environment() {
    let profile = Profile {
        model: Some("/profile/model".to_string()),
        ..minimal()
    };

    let resolved = resolve_model_from(
        None,
        &profile,
        &SystemConfig::default(),
        Some("/env/model".to_string()),
        &linux(),
    )
    .expect("the profile should resolve");

    assert_eq!(resolved, "/profile/model");
}

#[test]
fn test_the_environment_is_the_last_resort() {
    let resolved = resolve_model_from(
        None,
        &minimal(),
        &SystemConfig::default(),
        Some("/env/model".to_string()),
        &linux(),
    )
    .expect("the environment should resolve");

    assert_eq!(resolved, "/env/model");
}

#[test]
fn test_no_model_anywhere_names_every_mechanism() {
    let profile = Profile {
        name: Some("Deep Rock".to_string()),
        ..minimal()
    };

    let error = resolve_model_from(None, &profile, &SystemConfig::default(), None, &linux())
        .expect_err("there is no model to recognize with");

    let message = error.description();
    assert!(
        message.contains("'Deep Rock'"),
        "the error should name the profile, got: {message}"
    );
    for mechanism in ["--model", "model:", MODEL_PATH_ENV] {
        assert!(
            message.contains(mechanism),
            "the error should mention '{mechanism}', got: {message}"
        );
    }

    // Advice is word-wrapped (splitting URLs and paths), so assert on fragments
    // which survive wrapping.
    let rendered = error.pretty();
    assert!(
        rendered.contains("vosk-model-en-us-0.22-lgraph") && rendered.contains("alphacephei"),
        "the advice should recommend a model to download, got: {rendered}"
    );
    assert!(
        rendered.contains("dynamic graph"),
        "the advice should explain why grammar mode needs a dynamic graph, got: {rendered}"
    );
}

#[test]
fn test_a_profile_needs_commands() {
    let error = Profile::parse(
        &loaded(),
        Ok(Profile {
            commands: Vec::new(),
            ..minimal()
        }),
        "3",
    )
    .expect_err("an empty profile is useless");
    assert!(
        error.description().contains("does not define any commands"),
        "unexpected error: {}",
        error.description()
    );
}

#[test]
fn test_structural_errors_name_the_command() {
    let command = CommandConfig {
        name: Some("Salute".to_string()),
        events: Some(vec![RawEvent::Down(named("x"))]),
        ..pressing("salute", "x")
    };
    let error = Profile::parse(
        &loaded(),
        Ok(Profile {
            commands: vec![pressing("reload", "r"), command],
            ..minimal()
        }),
        "3",
    )
    .expect_err("both output forms at once should be rejected");

    let message = error.description();
    assert!(
        message.contains("'Salute'"),
        "the error must name the command, got: {message}"
    );
    assert!(
        message.contains("only use one output form"),
        "unexpected error: {message}"
    );
}

#[test]
fn test_an_explosive_phrase_is_rejected_by_name() {
    // Ten chained four-way alternates expand to 4^10 phrases.
    let command = CommandConfig {
        name: Some("Explosive".to_string()),
        phrase: CommandPhrase {
            source: ["{a, b, c, d}"; 10].join(" "),
            expansions: 1_048_576,
        },
        ..pressing("", "x")
    };
    let error = Profile::parse(
        &loaded(),
        Ok(Profile {
            commands: vec![command],
            ..minimal()
        }),
        "3",
    )
    .expect_err("the expansion cap should reject this");

    let message = error.description();
    assert!(
        message.contains("'Explosive'") && message.contains("1048576"),
        "unexpected error: {message}"
    );
    assert!(message.contains("512"), "unexpected error: {message}");
}

#[test]
fn test_a_phrase_at_the_cap_is_accepted() {
    // Nine chained two-way alternates expand to exactly 512.
    let command = CommandConfig {
        phrase: CommandPhrase {
            source: ["{a, b}"; 9].join(" "),
            expansions: 512,
        },
        ..pressing("", "x")
    };
    Profile::parse(
        &loaded(),
        Ok(Profile {
            commands: vec![command],
            ..minimal()
        }),
        "3",
    )
    .expect("512 phrases is within the cap");
}

// --- The machine's configuration -----------------------------------------

#[test]
fn test_an_absent_file_is_all_defaults() {
    let config = SystemConfig::load_from(
        "/etc/config.yaml",
        ConfigFile::Unreadable(FileError {
            kind: FileErrorKind::NotFound,
            detail: "no such file".to_string(),
        }),
    )
    .expect("a machine with no config file is the normal case");

    assert_eq!(config.source, None, "nothing was read, so nothing is named");
    assert_eq!(config.audio_device(), "default");
    assert!(config.hotkey.is_none());
    assert_eq!(config.models.path, None);
}

#[test]
fn test_an_empty_file_is_all_defaults() {
    let config = SystemConfig::load_from(
        "/etc/config.yaml",
        ConfigFile::Parsed(SystemConfig::default()),
    )
    .expect("an empty config is a valid config");

    assert_eq!(config.audio.device, None);
    assert!(config.hotkey.is_none());
    assert_eq!(config.models.path, None);
    assert_eq!(
        config.source.as_deref(),
        Some("/etc/config.yaml"),
        "the file was read, so it is named"
    );
}

#[test]
fn test_a_full_file_loads() {
    let config = SystemConfig::load_from(
        "/etc/config.yaml",
        ConfigFile::Parsed(SystemConfig {
            audio: SystemAudioConfig {
                device: Some("USB Microphone".to_string()),
            },
            hotkey: Some(HotkeyConfig {
                device: Some("auto".to_string()),
                key: Some(named("rightctrl")),
                mode: Some(ListenMode::PushToTalk),
                interrupt: Some(true),
            }),
            models: ModelsConfig {
                path: Some("/srv/models".to_string()),
            },
            source: None,
        }),
    )
    .expect("the config should load");

    assert_eq!(config.audio.device.as_deref(), Some("USB Microphone"));
    assert_eq!(config.models.path, Some("/srv/models".to_string()));

    let hotkey = config.hotkey.as_ref().expect("the hotkey block is there");
    assert_eq!(hotkey.device.as_deref(), Some("auto"));
    assert_eq!(
        hotkey.key.map(|key| key.code()),
        Some(keys::from_name("rightctrl").unwrap())
    );
    assert_eq!(hotkey.mode, Some(ListenMode::PushToTalk));
    assert_eq!(hotkey.interrupt, Some(true));
}

#[test]
fn test_a_malformed_file_names_the_path() {
    let error = SystemConfig::load_from(
        "/home/alice/config.yaml",
        ConfigFile::Malformed("audio: invalid type: sequence".to_string()),
    )
    .expect_err("that is not the schema");

    let message = error.description();
    assert!(
        message.contains("config.yaml"),
        "the error should name the file, got: {message}"
    );
    assert!(error.is(Kind::User));
    assert_eq!(error.causes, vec![foreign("audio: invalid type: sequence")]);
}

#[test]
fn a_config_file_which_may_not_be_read_is_an_error() {
    let error = SystemConfig::load_from(
        "/home/alice/config.yaml",
        ConfigFile::Unreadable(FileError {
            kind: FileErrorKind::PermissionDenied,
            detail: "permission denied".to_string(),
        }),
    )
    .expect_err("a config file which is silently ignored is worse than none");
    assert!(error.description().contains("/home/alice/config.yaml"));
    assert!(error.is(Kind::User));
}

#[test]
fn test_the_default_models_path_is_the_documented_one() {
    let config = SystemConfig::default();

    let path = config.models_path(&linux());
    assert!(
        path.ends_with(".local/share/vosk"),
        "unexpected default: {path}"
    );
    let path = config.models_path(&windows());
    assert!(
        path.ends_with(r"voice-orders\models"),
        "unexpected default: {path}"
    );
}

#[test]
fn test_the_audio_device_resolves_profile_then_system_then_default() {
    for (profile_device, system_device, expected) in [
        // The profile decides, whatever the machine says.
        (Some("Yeti"), Some("USB Microphone"), "Yeti"),
        // The profile is silent, so the machine's default applies.
        (None, Some("USB Microphone"), "USB Microphone"),
        // Neither has an opinion: the same 'default' as ever.
        (None, None, "default"),
        // A profile which explicitly says 'default' means it.
        (Some("default"), Some("USB Microphone"), "default"),
    ] {
        let system = SystemConfig {
            audio: SystemAudioConfig {
                device: system_device.map(str::to_string),
            },
            ..SystemConfig::default()
        };
        let profile = Profile {
            audio: AudioConfig {
                device: profile_device.map(str::to_string),
            },
            ..minimal()
        };

        let settings =
            ResolvedSettings::resolve(&profile, &system).expect("the settings should resolve");

        assert_eq!(settings.audio_device, expected);
    }
}

fn with_hotkey(hotkey: HotkeyConfig) -> (Profile, SystemConfig) {
    (
        Profile {
            hotkey: Some(hotkey.clone()),
            ..minimal()
        },
        SystemConfig {
            hotkey: Some(hotkey),
            ..SystemConfig::default()
        },
    )
}

#[test]
fn test_a_profile_without_a_hotkey_picks_up_the_machines() {
    // A shared profile says nothing about hotkeys, and each machine supplies
    // its own.
    let (_, system) = with_hotkey(HotkeyConfig {
        key: Some(named("rightctrl")),
        mode: Some(ListenMode::PushToTalk),
        ..HotkeyConfig::default()
    });

    let settings =
        ResolvedSettings::resolve(&minimal(), &system).expect("the settings should resolve");

    let hotkey = settings.hotkey.expect("the machine supplies a hotkey");
    assert_eq!(hotkey.key.code(), keys::from_name("rightctrl").unwrap());
    assert_eq!(hotkey.mode, ListenMode::PushToTalk);
    assert_eq!(hotkey.device, "auto");
    assert!(!hotkey.interrupt);
}

#[test]
fn test_the_merge_is_field_by_field() {
    let (_, system) = with_hotkey(HotkeyConfig {
        device: Some("Keychron".to_string()),
        key: Some(named("rightctrl")),
        mode: Some(ListenMode::PushToMute),
        interrupt: Some(true),
    });
    // The profile overrides two fields and inherits the other two.
    let (profile, _) = with_hotkey(HotkeyConfig {
        key: Some(named("leftctrl")),
        mode: Some(ListenMode::PushToTalk),
        ..HotkeyConfig::default()
    });

    let settings =
        ResolvedSettings::resolve(&profile, &system).expect("the settings should resolve");

    let hotkey = settings
        .hotkey
        .expect("a key emerged, so there is a hotkey");
    assert_eq!(hotkey.key.code(), keys::from_name("leftctrl").unwrap());
    assert_eq!(hotkey.mode, ListenMode::PushToTalk);
    assert_eq!(hotkey.device, "Keychron", "inherited from the machine");
    assert!(hotkey.interrupt, "inherited from the machine");
}

#[test]
fn test_no_hotkey_anywhere_is_always_listening() {
    let settings = ResolvedSettings::resolve(&minimal(), &SystemConfig::default())
        .expect("the settings should resolve");

    assert!(settings.hotkey.is_none());
}

#[test]
fn test_a_system_hotkey_without_a_key_leaves_a_silent_profile_alone() {
    let (_, system) = with_hotkey(HotkeyConfig {
        device: Some("Keychron".to_string()),
        ..HotkeyConfig::default()
    });

    let settings =
        ResolvedSettings::resolve(&minimal(), &system).expect("the settings should resolve");

    assert!(settings.hotkey.is_none());
}

#[test]
fn test_a_profile_hotkey_without_a_key_anywhere_is_an_error() {
    let (profile, _) = with_hotkey(HotkeyConfig {
        device: Some("auto".to_string()),
        mode: Some(ListenMode::PushToTalk),
        ..HotkeyConfig::default()
    });
    let error = ResolvedSettings::resolve(&profile, &SystemConfig::default())
        .expect_err("a hotkey with no key can never fire");

    assert!(
        error.description().contains("key"),
        "the error should name the missing field, got: {}",
        error.description()
    );
    assert!(error.is(Kind::User));
}

#[test]
fn test_a_profile_hotkey_without_a_key_is_completed_by_the_machine() {
    let (_, system) = with_hotkey(HotkeyConfig {
        key: Some(named("rightctrl")),
        ..HotkeyConfig::default()
    });
    let (profile, _) = with_hotkey(HotkeyConfig {
        device: Some("Keychron".to_string()),
        mode: Some(ListenMode::PushToTalk),
        ..HotkeyConfig::default()
    });

    let settings =
        ResolvedSettings::resolve(&profile, &system).expect("the machine supplies the missing key");

    let hotkey = settings.hotkey.expect("a key emerged");
    assert_eq!(hotkey.key.code(), keys::from_name("rightctrl").unwrap());
    assert_eq!(hotkey.device, "Keychron");
    assert_eq!(hotkey.mode, ListenMode::PushToTalk);
}

// --- Model names ---------------------------------------------------------

#[test]
fn test_a_model_name_is_anything_which_is_not_a_path() {
    for (value, expected) in [
        ("vosk-model-en-us-0.22-lgraph", true),
        ("vosk-model-small-en-us-0.15", true),
        ("/opt/models/en", false),
        ("./models/en", false),
        ("../models/en", false),
        ("~/models/en", false),
        ("models/en", false),
        ("", false),
    ] {
        assert_eq!(is_model_name(value), expected, "{value:?}");
    }
}

fn models_in(path: &str) -> SystemConfig {
    SystemConfig {
        models: ModelsConfig {
            path: Some(path.to_string()),
        },
        ..SystemConfig::default()
    }
}

#[test]
fn test_a_model_name_is_resolved_against_the_models_path() {
    let models = models_in("/srv/models").models_path(&linux());

    assert_eq!(
        expand_model("vosk-model-en-us-0.22-lgraph", &models, false),
        "/srv/models/vosk-model-en-us-0.22-lgraph"
    );
}

#[test]
fn test_a_model_path_is_left_alone() {
    let models = models_in("/srv/models").models_path(&linux());

    for path in ["/opt/models/en", "./en"] {
        assert_eq!(
            expand_model(path, &models, false),
            path,
            "a path must survive resolution untouched"
        );
    }
}

#[test]
fn test_a_model_name_falls_back_to_the_default_models_path() {
    let models = SystemConfig::default().models_path(&linux());
    let resolved = expand_model("vosk-model-small-en-us-0.15", &models, false);

    assert!(
        resolved.ends_with(".local/share/vosk/vosk-model-small-en-us-0.15"),
        "unexpected resolution: {resolved}"
    );
}

#[test]
fn a_windows_model_path_is_left_alone() {
    for (value, expected) in [
        ("en", r"D:\models\en"),
        (r"small\en", r"D:\models\small\en"),
        (r"C:\models\en", r"C:\models\en"),
        ("C:en", "C:en"),
        (r"\models\en", r"D:\models\en"),
        (r"\\nas\models\en", r"\\nas\models\en"),
        ("C:/models/en", "C:/models/en"),
        (r".\en", r".\en"),
    ] {
        assert_eq!(expand_model(value, r"D:\models", true), expected, "{value}");
    }
    assert_eq!(expand_model("en", r"D:\models\", true), r"D:\models\en");
    assert_eq!(expand_model("en", "D:/models/", true), "D:/models/en");
    // Elsewhere those are names like any other.
    assert_eq!(
        expand_model(r"C:\models\en", "/srv/models", false),
        r"/srv/models/C:\models\en"
    );
}

// --- Where each platform keeps its files ---------------------------------

#[test]
fn test_the_windows_config_path_is_under_appdata() {
    assert_eq!(
        config_path_for(&Environment {
            app_data: Some(r"C:\Users\alice\AppData\Roaming".to_string()),
            ..windows()
        }),
        r"C:\Users\alice\AppData\Roaming\voice-orders\config.yaml"
    );
}

#[test]
fn test_the_windows_config_path_ignores_xdg() {
    let environment = Environment {
        app_data: Some(r"C:\Users\alice\AppData\Roaming".to_string()),
        xdg_config_home: Some("/home/alice/.config".to_string()),
        ..windows()
    };

    assert!(
        config_path_for(&environment).starts_with(r"C:\Users\alice\AppData\Roaming"),
        "%APPDATA% wins on Windows"
    );
}

#[test]
fn test_a_windows_machine_without_appdata_falls_back_to_the_linux_layout() {
    let path = config_path_for(&windows());

    assert!(path.ends_with(r"\voice-orders\config.yaml"), "{path}");
    assert!(path.contains(".config"), "unexpected fallback: {path}");
}

#[test]
fn test_the_linux_config_path_falls_back_to_dot_config() {
    // An empty variable is not a value; both platforms treat it as unset.
    for xdg_config_home in [Some(String::new()), None] {
        let path = config_path_for(&Environment {
            xdg_config_home,
            ..linux()
        });

        assert!(
            path.ends_with(".config/voice-orders/config.yaml"),
            "unexpected: {path}"
        );
    }
}

#[test]
fn test_the_linux_config_path_prefers_xdg() {
    assert_eq!(
        config_path_for(&Environment {
            xdg_config_home: Some("/srv/config".to_string()),
            ..linux()
        }),
        "/srv/config/voice-orders/config.yaml"
    );
}

#[test]
fn test_the_windows_models_path_is_under_local_appdata() {
    assert_eq!(
        default_models_path_for(&Environment {
            local_app_data: Some(r"C:\Users\alice\AppData\Local".to_string()),
            ..windows()
        }),
        r"C:\Users\alice\AppData\Local\voice-orders\models"
    );
}

#[test]
fn test_a_windows_machine_without_local_appdata_still_names_a_directory() {
    let path = default_models_path_for(&windows());

    assert!(
        path.ends_with(r"voice-orders\models"),
        "unexpected fallback: {path}"
    );
}

#[test]
fn test_the_linux_models_path_is_the_documented_one() {
    let path = default_models_path_for(&Environment {
        local_app_data: Some(r"C:\nope".to_string()),
        ..linux()
    });

    assert!(path.ends_with(".local/share/vosk"), "unexpected: {path}");
}

// --- Loading -------------------------------------------------------------

#[test]
fn rewrite_gist_url_cases() {
    for (input, expected) in [
        // A bare Gist page URL gains its /raw segment...
        (
            "https://gist.github.com/octocat/aa5a315d61ae9438b18d0912c4e075db",
            "https://gist.github.com/octocat/aa5a315d61ae9438b18d0912c4e075db/raw",
        ),
        // ...and a trailing slash does not produce a doubled one.
        (
            "https://gist.github.com/octocat/aa5a315d61ae9438b18d0912c4e075db/",
            "https://gist.github.com/octocat/aa5a315d61ae9438b18d0912c4e075db/raw",
        ),
        // Already-raw URLs are left alone rather than gaining a second /raw.
        (
            "https://gist.github.com/octocat/aa5a315d61ae9438b18d0912c4e075db/raw",
            "https://gist.github.com/octocat/aa5a315d61ae9438b18d0912c4e075db/raw",
        ),
        (
            "https://gist.github.com/octocat/aa5a315d61ae9438b18d0912c4e075db/raw/1f0e3d/profile.yaml",
            "https://gist.github.com/octocat/aa5a315d61ae9438b18d0912c4e075db/raw/1f0e3d/profile.yaml",
        ),
        (
            "https://gist.github.com/octocat/aa5a315d/raw/",
            "https://gist.github.com/octocat/aa5a315d/raw/",
        ),
        (
            "https://gist.github.com/octocat/aa5a315d/raw/1f0e3d//",
            "https://gist.github.com/octocat/aa5a315d/raw/1f0e3d//",
        ),
        // The raw content hosts already serve the file itself.
        (
            "https://gist.githubusercontent.com/octocat/aa5a315d/raw/1f0e3d/profile.yaml",
            "https://gist.githubusercontent.com/octocat/aa5a315d/raw/1f0e3d/profile.yaml",
        ),
        (
            "https://raw.githubusercontent.com/octocat/profiles/main/drg.yaml",
            "https://raw.githubusercontent.com/octocat/profiles/main/drg.yaml",
        ),
        // Everything else is none of our business.
        (
            "https://example.com/profiles/drg.yaml",
            "https://example.com/profiles/drg.yaml",
        ),
    ] {
        let rewritten = rewrite_gist_url(input);
        assert_eq!(rewritten, expected);
        assert_eq!(rewrite_gist_url(&rewritten), expected, "rewriting settles");
    }
}

#[test]
fn a_downloaded_profile_is_its_body() {
    let url = "https://example.com/profile.yaml".to_string();
    check_status(200, "200 OK", &url).expect("that is a success");
    let loaded = accept_body(url.clone(), "name: Deep Rock Galactic\n".to_string())
        .expect("the profile should download");

    assert_eq!(loaded.content, "name: Deep Rock Galactic\n");
    assert_eq!(loaded.source, url, "the source should be the fetched URL");
}

#[test]
fn a_refused_download_names_the_status_and_the_url() {
    let url = "https://example.com/missing.yaml";
    let err = check_status(404, "404 Not Found", url).expect_err("a 404 should be an error");

    let message = err.description();
    assert!(message.contains("404"), "{message}");
    assert!(message.contains(url), "{message}");
    assert!(err.is(Kind::User));
    assert!(check_status(199, "199", url).is_err());
    assert!(check_status(299, "299", url).is_ok());
    assert!(check_status(300, "300 Multiple Choices", url).is_err());
}

#[test]
fn a_downloaded_web_page_is_rejected() {
    let err = accept_body(
        "https://example.com/pretty".to_string(),
        "\n<!DOCTYPE html>\n<html lang=\"en\"><body>a gist page</body></html>\n".to_string(),
    )
    .expect_err("an HTML body should be rejected");

    assert!(err.description().contains("web page"));
    assert!(err.advice().join("\n").contains("Raw"));
    assert!(err.is(Kind::User));
}

#[test]
fn looks_like_html_detects_pages() {
    for body in [
        "<html><body>hi</body></html>",
        "  \n\t<!doctype html>",
        "<!DOCTYPE HTML PUBLIC>",
        "<HTML>",
    ] {
        assert!(looks_like_html(body), "expected {body:?} to look like HTML");
    }
}

#[test]
fn looks_like_html_ignores_yaml() {
    for body in [
        "name: Deep Rock Galactic\n",
        "",
        "# <html> in a comment\nname: x\n",
    ] {
        assert!(
            !looks_like_html(body),
            "expected {body:?} to look like YAML"
        );
    }
}

#[test]
fn plain_http_is_refused() {
    let err = locate("http://example.com/profile.yaml").expect_err("plain HTTP is refused");

    let message = err.description();
    assert!(message.contains("HTTPS"), "{message}");
    assert!(
        message.contains("http://example.com/profile.yaml"),
        "{message}"
    );
    assert!(err.is(Kind::User));
}

#[test]
fn a_profile_is_downloaded_or_read() {
    assert_eq!(
        locate("HTTPS://gist.github.com/octocat/1").expect("a URL"),
        Location::Remote("HTTPS://gist.github.com/octocat/1/raw".to_string())
    );
    assert_eq!(
        locate("profiles/drg.yaml").expect("a path"),
        Location::Local("profiles/drg.yaml".to_string())
    );
    match locate("~/drg.yaml").expect("a path") {
        Location::Local(path) => assert!(path.ends_with("/drg.yaml"), "{path}"),
        Location::Remote(url) => panic!("{url} is not a URL"),
    }
}

#[test]
fn a_local_profile_is_its_content() {
    let loaded = accept_file(
        "/tmp/profile.yaml".to_string(),
        Ok("name: Deep Rock Galactic\n".to_string()),
    )
    .expect("the profile should load");
    assert_eq!(loaded.content, "name: Deep Rock Galactic\n");
    assert_eq!(loaded.source, "/tmp/profile.yaml");
}

#[test]
fn a_missing_local_profile_is_named() {
    for (kind, expected) in [
        (FileErrorKind::NotFound, Kind::User),
        (FileErrorKind::PermissionDenied, Kind::User),
        (FileErrorKind::Other, Kind::System),
    ] {
        let err = accept_file(
            "/tmp/nope.yaml".to_string(),
            Err(FileError {
                kind,
                detail: "os error 2".to_string(),
            }),
        )
        .expect_err("a missing file should error");
        assert!(err.description().contains("/tmp/nope.yaml"));
        assert!(err.is(expected), "{kind:?}");
        assert_eq!(err.causes.last().map(|cause| cause.text.as_str()), Some("os error 2"));
    }
}

#[test]
fn failed_requests_are_classified() {
    for (connect, timeout, expected) in [
        (true, false, Kind::User),
        (false, true, Kind::User),
        (true, true, Kind::User),
        (false, false, Kind::System),
    ] {
        let err = FetchError {
            connect,
            timeout,
            detail: "boom".to_string(),
        }
        .to_human_error();
        assert!(err.is(expected));
        assert_eq!(err.causes, vec![foreign("boom")]);
    }
}
