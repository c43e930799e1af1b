use voice_orders::commands::doctor::{
    audio_device, check_audio_input, check_input_access, check_libvosk, check_model, check_profile,
    check_uinput_node, check_virtual_keyboard, count_failures, current_username, exit_code,
    group_state, input_access_check, is_configured, parse_input_group, render, resolve,
    system_summary, CheckResult, GroupState, InputGroup,
};
use voice_orders::config::command::{CommandConfig, CommandPhrase};
use voice_orders::config::hotkey::HotkeyConfig;
use voice_orders::config::output::{self, KeyName, OutputDefaults};
use voice_orders::config::recognition::RecognitionConfig;
use voice_orders::config::system::{
    config_path_for, Environment, ResolvedSettings, SystemAudioConfig, SystemConfig,
};
use voice_orders::config::{defaults, AudioConfig, Profile};
use voice_orders::errors::Error;
use voice_orders::hotkey::ListenMode;

/// An `/etc/group` with the shape a real one has: other groups around the
/// one we care about, and a trailing member list.
const GROUP_FILE_CONTENT: &str =
    "root:x:0:\naudio:x:995:alice\ninput:x:992:alice,bob\nwheel:x:998:alice\n";

fn linux() -> Environment {
    Environment {
        windows: false,
        app_data: None,
        local_app_data: None,
        xdg_config_home: None,
    }
}

fn profile(name: Option<&str>, model: Option<&str>, hotkey: Option<HotkeyConfig>) -> Profile {
    Profile {
        name: name.map(ToString::to_string),
        model: model.map(ToString::to_string),
        audio: AudioConfig { device: None },
        hotkey,
        completion_timeout: defaults::completion_timeout(),
        recognition: RecognitionConfig::default(),
        defaults: OutputDefaults::default(),
        commands: vec![CommandConfig {
            name: None,
            phrase: CommandPhrase {
                source: "salute".to_string(),
                expansions: 1,
            },
            keys: None,
            events: None,
            duration: None,
            interval: None,
        }],
    }
}

fn nothing_found() -> Result<String, Error> {
    Err(Error::user("nothing was looked for".to_string(), Vec::new()))
}

#[test]
fn test_a_passing_check_renders_a_tick_and_no_advice() {
    let rendered = CheckResult::failed(
        "something is wrong".to_string(),
        vec!["fix it", "or fix it this way"],
    )
    .render();
    assert_eq!(
        rendered,
        "✗ something is wrong\n    fix it\n    or fix it this way\n"
    );

    assert_eq!(
        CheckResult::ok("all good".to_string()).render(),
        "✓ all good\n"
    );
}

#[test]
fn test_advice_is_only_shown_for_failures() {
    let mut passing = CheckResult::ok("all good".to_string());
    passing.advice.push("never printed".to_string());

    assert!(
        !passing.render().contains("never printed"),
        "a passing check has nothing to advise: {}",
        passing.render()
    );
}

#[test]
fn test_a_report_counts_its_failures() {
    let results = [
        CheckResult::ok("first".to_string()),
        CheckResult::failed("second".to_string(), vec!["do something"]),
        CheckResult::ok("third".to_string()),
    ];
    let rendered = render(&results);

    assert!(rendered.contains("✓ first\n"), "{rendered}");
    assert!(
        rendered.contains("✗ second\n    do something\n"),
        "{rendered}"
    );
    assert!(rendered.contains("3 checks — 1 failed.\n"), "{rendered}");
    assert_eq!(count_failures(&results), 1);
    assert_eq!(exit_code(&results), 1);
    assert_eq!(exit_code(&results[..1]), 0);
}

#[test]
fn test_an_error_becomes_its_own_check() {
    let result = CheckResult::from_error(&Error::user(
        "We could not do the thing.".to_string(),
        vec!["Try the other thing."],
    ));

    assert!(!result.ok);
    assert_eq!(result.headline, "We could not do the thing.");
    assert_eq!(result.advice, vec!["Try the other thing.".to_string()]);
}

#[test]
fn test_a_missing_uinput_node_blames_the_module() {
    let result = check_uinput_node("/tmp/uinput", false);

    assert!(!result.ok);
    assert!(
        result
            .headline
            .contains("'uinput' kernel module is not loaded"),
        "unexpected headline: {}",
        result.headline
    );
    assert!(
        result
            .advice
            .iter()
            .any(|tip| tip.contains("voice-orders setup")),
        "the fix is a command we ship: {:?}",
        result.advice
    );
}

#[test]
fn test_an_existing_uinput_node_passes() {
    let result = check_uinput_node("/tmp/uinput", true);
    assert!(result.ok, "unexpected failure: {}", result.headline);
    assert!(result.headline.contains("exists"));
}

#[test]
fn a_virtual_keyboard_which_cannot_be_created_is_reported() {
    assert!(check_virtual_keyboard(&Ok(())).ok);
    let result = check_virtual_keyboard(&Err(Error::user("denied".to_string(), vec!["ask"])));
    assert!(!result.ok);
    assert_eq!(result.headline, "denied");
    assert_eq!(result.advice, vec!["ask".to_string()]);
}

#[test]
fn test_the_input_group_is_parsed_out_of_the_file() {
    let group = parse_input_group(GROUP_FILE_CONTENT).expect("the group should be found");

    assert_eq!(group.gid, 992);
    assert_eq!(group.members, vec!["alice".to_string(), "bob".to_string()]);
}

#[test]
fn test_a_file_without_a_usable_input_group_parses_to_nothing() {
    for content in [
        "root:x:0:\nwheel:x:998:alice\n",
        "",
        "input:x:not-a-number:alice\n",
    ] {
        assert_eq!(parse_input_group(content), None);
    }
}

#[test]
fn test_an_empty_member_list_is_not_a_member() {
    let group = parse_input_group("input:x:992:\n").expect("the group should be found");

    assert!(group.members.is_empty());
    assert!(!is_configured(Some(&group), "alice"));
}

#[test]
fn test_group_state_distinguishes_configured_from_effective() {
    let cases: Vec<(Option<(u32, &str)>, &str, &[u32], GroupState)> = vec![
        // Nothing to be a member of.
        (None, "alice", &[992], GroupState::Missing),
        // The group is there, but we are not in it.
        (Some((992, "bob")), "alice", &[992], GroupState::NotConfigured),
        // We are in it, but this session predates that.
        (Some((992, "alice")), "alice", &[1000], GroupState::Stale),
        // Everything is as it should be.
        (
            Some((992, "alice")),
            "alice",
            &[1000, 992],
            GroupState::Effective,
        ),
    ];
    for (group, username, effective, expected) in cases {
        let group = group.map(|(gid, member)| InputGroup {
            gid,
            members: vec![member.to_string()],
        });

        assert_eq!(group_state(group.as_ref(), username, effective), expected);
    }
}

#[test]
fn test_a_missing_group_tells_you_to_run_setup() {
    let result = input_access_check(GroupState::Missing, "alice", &Ok(String::new()));

    assert!(!result.ok);
    assert!(
        result.headline.contains("no 'input' group"),
        "unexpected headline: {}",
        result.headline
    );
    assert!(
        result
            .advice
            .iter()
            .any(|tip| tip.contains("voice-orders setup")),
        "{:?}",
        result.advice
    );
}

#[test]
fn test_a_missing_membership_names_the_user_and_advises_setup() {
    let result = input_access_check(GroupState::NotConfigured, "alice", &Ok(String::new()));

    assert!(!result.ok);
    assert!(
        result.headline.contains("'alice'") && result.headline.contains("not a member"),
        "unexpected headline: {}",
        result.headline
    );
    assert!(
        result
            .advice
            .iter()
            .any(|tip| tip.contains("voice-orders setup")),
        "{:?}",
        result.advice
    );
}

#[test]
fn test_a_stale_membership_asks_for_a_re_login() {
    let result = input_access_check(GroupState::Stale, "alice", &Ok(String::new()));

    assert!(!result.ok);
    assert!(
        result.headline.contains("this session started before"),
        "the distinction people trip over must be spelled out: {}",
        result.headline
    );
    assert!(
        result
            .advice
            .iter()
            .any(|tip| tip.contains("Log out and back in")),
        "{:?}",
        result.advice
    );
    assert!(
        !result
            .advice
            .iter()
            .any(|tip| tip.contains("voice-orders setup")),
        "setup cannot fix a session which has already started: {:?}",
        result.advice
    );
}

#[test]
fn test_an_unreadable_input_device_folds_into_the_same_check() {
    // Discovery has already humanized this; the check must not paper over
    // it with a message of its own.
    let result = input_access_check(
        GroupState::Effective,
        "alice",
        &Err(Error::user(
            "We were not allowed to read /dev/input/event3.".to_string(),
            vec!["Add yourself to the 'input' group."],
        )),
    );

    assert!(!result.ok);
    assert_eq!(
        result.headline,
        "We were not allowed to read /dev/input/event3."
    );
    assert_eq!(
        result.advice,
        vec!["Add yourself to the 'input' group.".to_string()]
    );
}

#[test]
fn test_no_keyboard_is_a_failure_even_when_the_group_is_right() {
    let result = input_access_check(
        GroupState::Effective,
        "alice",
        &Err(Error::user(
            "We could not find any input device which reports the hotkey you configured (evdev code 29).".to_string(),
            vec!["Run 'sudo evtest' and press your hotkey."],
        )),
    );

    assert!(!result.ok);
    assert!(
        result.headline.contains("could not find any input device"),
        "unexpected headline: {}",
        result.headline
    );
}

#[test]
fn test_a_readable_keyboard_passes_and_names_it() {
    let result = input_access_check(
        GroupState::Effective,
        "alice",
        &Ok("AT Translated Set 2 keyboard".to_string()),
    );

    assert!(result.ok, "unexpected failure: {}", result.headline);
    assert!(
        result.headline.contains("AT Translated Set 2 keyboard"),
        "unexpected headline: {}",
        result.headline
    );
}

#[test]
fn the_whole_machine_is_one_access_check() {
    let keyboard = Ok("AT Translated Set 2 keyboard".to_string());
    let alice = Ok("alice".to_string());
    assert!(check_input_access(&alice, GROUP_FILE_CONTENT, &[992], &keyboard).ok);
    assert!(!check_input_access(&alice, GROUP_FILE_CONTENT, &[1], &keyboard).ok);
    assert!(!check_input_access(&alice, "", &[992], &keyboard).ok);
    let nobody = current_username(None, None);
    let result = check_input_access(&nobody, GROUP_FILE_CONTENT, &[992], &keyboard);
    assert!(!result.ok && result.headline.contains("$USER"));
}

#[test]
fn test_the_report_says_where_the_system_configuration_came_from() {
    assert_eq!(
        system_summary(
            Some("/home/alice/.config/voice-orders/config.yaml"),
            &config_path_for(&linux())
        ),
        "System configuration: /home/alice/.config/voice-orders/config.yaml."
    );
}

#[test]
fn test_the_report_says_where_it_looked_when_there_is_no_configuration() {
    let summary = system_summary(None, &config_path_for(&linux()));

    assert!(summary.contains("none at"), "{summary}");
    assert!(summary.contains("voice-orders/config.yaml"), "{summary}");
    assert!(summary.contains("defaults apply"), "{summary}");
}

#[test]
fn test_the_microphone_reported_is_the_merged_one() {
    let system = SystemConfig {
        audio: SystemAudioConfig {
            device: Some("USB Microphone".to_string()),
        },
        ..SystemConfig::default()
    };

    // No profile: the machine's own default is what a run would use.
    assert_eq!(audio_device(None, &system), "USB Microphone");

    // A profile which names one wins.
    let profile = Profile {
        audio: AudioConfig {
            device: Some("Yeti".to_string()),
        },
        ..profile(None, None, None)
    };
    let settings = ResolvedSettings::resolve(&profile, &system);

    assert_eq!(audio_device(Some(&settings), &system), "Yeti");
}

#[test]
fn test_a_profile_whose_settings_do_not_resolve_fails_the_profile_check() {
    let profile = profile(
        Some("Keyless"),
        None,
        Some(HotkeyConfig {
            device: Some("auto".to_string()),
            ..HotkeyConfig::default()
        }),
    );

    let settings = ResolvedSettings::resolve(&profile, &SystemConfig::default());
    let result = check_profile(&Ok(profile), Some(&settings), &nothing_found());

    assert!(!result.ok);
    assert!(
        result.headline.contains("'key' field is missing"),
        "unexpected headline: {}",
        result.headline
    );
}

#[test]
fn a_profiles_hotkey_is_named_with_the_device_it_lives_on() {
    let profile = profile(
        Some("Helldivers 2"),
        None,
        Some(HotkeyConfig {
            key: Some(KeyName(output::resolve("rightctrl").expect("a known key"))),
            mode: Some(ListenMode::PushToTalk),
            ..HotkeyConfig::default()
        }),
    );
    let settings = ResolvedSettings::resolve(&profile, &SystemConfig::default());
    let loaded = Ok(profile);
    let result = check_profile(&loaded, Some(&settings), &Ok("A keyboard".to_string()));
    assert!(result.ok);
    assert_eq!(
        result.headline,
        "The profile 'Helldivers 2' loads, and its listen hotkey (rightctrl in push-to-talk mode) resolves to 'A keyboard'."
    );
    let result = check_profile(&loaded, Some(&settings), &nothing_found());
    assert!(!result.ok);
    assert_eq!(result.headline, "nothing was looked for");
}

#[test]
fn test_a_model_which_does_not_resolve_carries_its_own_advice() {
    let result = check_model(
        &Err(Error::user(
            "We do not know which speech model to use.".to_string(),
            vec!["Download one."],
        )),
        false,
        false,
    );

    assert!(!result.ok);
    assert_eq!(result.headline, "We do not know which speech model to use.");
    assert_eq!(result.advice, vec!["Download one.".to_string()]);
}

#[test]
fn test_a_model_which_is_not_there_says_so() {
    let result = check_model(&Ok("/models/missing-model".to_string()), false, false);

    assert!(!result.ok);
    assert!(
        result.headline.contains("There is no speech model at"),
        "unexpected headline: {}",
        result.headline
    );
}

#[test]
fn test_a_static_graph_model_fails_with_an_explanation() {
    let result = check_model(&Ok("/models/static".to_string()), true, false);

    assert!(!result.ok, "grammar mode is unavailable, which is fatal");
    assert!(
        result.headline.contains("static graph")
            && result.headline.contains("cannot be constrained"),
        "unexpected headline: {}",
        result.headline
    );
    assert!(
        result.advice.iter().any(|tip| tip.contains("lgraph")),
        "the advice should name a model which does work: {:?}",
        result.advice
    );
}

#[test]
fn test_a_dynamic_graph_model_passes() {
    let result = check_model(&Ok("/models/dynamic".to_string()), true, true);

    assert!(result.ok, "unexpected failure: {}", result.headline);
    assert!(
        result.headline.contains("dynamic graph"),
        "unexpected headline: {}",
        result.headline
    );
}

#[test]
fn test_a_profile_which_does_not_load_is_reported_as_the_profile_check() {
    let result = check_profile(
        &Err(Error::user(
            "We could not read the profile at 'broken.yaml'.".to_string(),
            vec!["Check the profile."],
        )),
        None,
        &nothing_found(),
    );

    assert!(!result.ok);
    assert!(result.headline.contains("broken.yaml"));
}

#[test]
fn test_a_profile_without_a_hotkey_passes_without_touching_dev_input() {
    let profile = profile(Some("Quiet"), None, None);

    let settings = ResolvedSettings::resolve(&profile, &SystemConfig::default());
    let result = check_profile(&Ok(profile), Some(&settings), &nothing_found());

    assert!(result.ok, "unexpected failure: {}", result.headline);
    assert!(
        result.headline.contains("listen continuously"),
        "unexpected headline: {}",
        result.headline
    );
}

#[test]
fn test_without_a_profile_the_model_comes_from_the_command_line() {
    let resolved = resolve(
        Some("/cli/model"),
        None,
        &SystemConfig::default(),
        None,
        &linux(),
    )
    .expect("the override should resolve");
    assert_eq!(resolved, "/cli/model");
}

#[test]
fn test_the_profile_model_is_used_when_a_profile_is_given() {
    let profile = profile(None, Some("/profile/model"), None);

    let resolved = resolve(
        None,
        Some(&profile),
        &SystemConfig::default(),
        None,
        &linux(),
    )
    .expect("the profile should resolve");
    assert_eq!(resolved, "/profile/model");
}

#[test]
fn without_a_profile_the_environment_is_the_last_resort() {
    let resolved = resolve(
        None,
        None,
        &SystemConfig::default(),
        Some("/env/model".to_string()),
        &linux(),
    )
    .expect("the environment should resolve");
    assert_eq!(resolved, "/env/model");
    let error = resolve(None, None, &SystemConfig::default(), None, &linux())
        .expect_err("there is no model to check");
    assert!(error.description().contains("'--model'"));
}

#[test]
fn test_the_username_comes_from_the_environment() {
    let name = |user: Option<&str>, logname: Option<&str>| {
        current_username(
            user.map(ToString::to_string),
            logname.map(ToString::to_string),
        )
        .ok()
    };
    assert_eq!(name(Some("alice"), Some("bob")), Some("alice".to_string()));
    assert_eq!(name(Some(""), Some("bob")), Some("bob".to_string()));
    assert_eq!(name(None, Some("bob")), Some("bob".to_string()));
    assert_eq!(name(Some(""), Some("")), None);
    assert_eq!(name(None, None), None);
}

#[test]
fn a_microphone_is_reported_with_how_many_there_are() {
    let found = Ok("Yeti".to_string());
    assert_eq!(
        check_audio_input("default", &Ok(1), &found).headline,
        "The microphone we would listen on is 'Yeti' (from audio.device: default; 1 input device in total)."
    );
    assert_eq!(
        check_audio_input("yeti", &Ok(12), &found).headline,
        "The microphone we would listen on is 'Yeti' (from audio.device: yeti; 12 input devices in total)."
    );
    let result = check_audio_input("yeti", &Ok(0), &nothing_found());
    assert!(!result.ok);
    assert_eq!(
        result.advice.last().map(String::as_str),
        Some("Run 'voice-orders devices' to list every microphone this machine can see.")
    );
    let result = check_audio_input("yeti", &Err("no sound server".to_string()), &found);
    assert!(!result.ok && result.headline.contains("(no sound server)"));
}

#[test]
fn the_speech_library_is_reported_with_where_it_came_from() {
    assert_eq!(
        check_libvosk(&Ok("/usr/lib/libvosk.so".to_string())).headline,
        "The Vosk speech recognition library loaded from /usr/lib/libvosk.so."
    );
    assert!(!check_libvosk(&nothing_found()).ok);
}
