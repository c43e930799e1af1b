use voice_orders::audio::device::InputDevice;
use voice_orders::commands::devices::{
    exit_code, hotkey_on_windows, matching, render_audio, render_error, render_hotkey, DevicesArgs,
    AUDIO_HEADING, HOTKEY_HEADING,
};
use voice_orders::errors::Error;
use voice_orders::hotkey::{auto_choice, ListedDevice, Rank};

fn input(name: &str, is_default: bool) -> InputDevice {
    InputDevice {
        name: name.to_string(),
        is_default,
    }
}

fn listed(event: u32, name: &str, rank: Rank, reports_key: bool) -> ListedDevice {
    ListedDevice {
        path: format!("/dev/input/event{event}"),
        name: name.to_string(),
        rank,
        reports_key,
    }
}

fn microphones() -> Vec<InputDevice> {
    vec![
        input("HD Audio Analog", true),
        input("Yeti Stereo Microphone", false),
    ]
}

// --- Sections -------------------------------------------------------------

#[test]
fn test_the_flags_choose_the_sections() {
    for (audio, hotkey, expected) in [
        (false, false, (true, true)),
        (true, false, (true, false)),
        (false, true, (false, true)),
        (true, true, (true, true)),
    ] {
        assert_eq!(DevicesArgs { audio, hotkey }.sections(), expected);
    }
}

#[test]
fn a_listing_only_fails_where_nothing_could_be_listed() {
    for (audio, hotkey, expected) in [
        (Some(true), None, 0),
        (Some(true), Some(true), 0),
        (Some(false), Some(true), 0),
        (Some(false), Some(false), 1),
        (None, Some(false), 1),
    ] {
        assert_eq!(exit_code(audio, hotkey), expected);
    }
}

// --- Audio ----------------------------------------------------------------

#[test]
fn test_the_audio_listing_marks_the_system_default() {
    let rendered = render_audio(&microphones(), None);

    assert!(
        rendered.contains("  * \"HD Audio Analog\" — system default\n"),
        "{rendered}"
    );
    assert!(
        rendered.contains("    \"Yeti Stereo Microphone\"\n"),
        "a device with nothing to say about it gets no annotation: {rendered}"
    );
    assert!(
        rendered.contains("'audio.device'"),
        "the listing should say what to do with the names: {rendered}"
    );
    assert!(rendered.starts_with(AUDIO_HEADING), "{rendered}");
}

#[test]
fn test_the_audio_listing_marks_the_configured_device() {
    let rendered = render_audio(&microphones(), Some("yeti"));

    assert!(
        rendered.contains("\"Yeti Stereo Microphone\" — your audio.device"),
        "a substring of the name should select it, ignoring case: {rendered}"
    );
    assert!(
        rendered.contains("* \"HD Audio Analog\" — system default\n"),
        "the system default is still the system default: {rendered}"
    );
}

#[test]
fn test_a_configured_default_lands_on_the_default_device() {
    let rendered = render_audio(&microphones(), Some("default"));

    assert!(
        rendered.contains("\"HD Audio Analog\" — system default, your audio.device"),
        "{rendered}"
    );
}

#[test]
fn test_a_configured_device_which_matches_nothing_is_called_out() {
    let rendered = render_audio(&microphones(), Some("Røde"));

    assert!(
        rendered.contains("matches none of these"),
        "a stale config value is exactly what this command is for: {rendered}"
    );
    assert!(rendered.contains("Røde"), "{rendered}");
}

#[test]
fn test_an_empty_audio_listing_says_so() {
    let rendered = render_audio(&[], Some("Yeti"));

    assert!(rendered.contains("(none"), "{rendered}");
}

#[test]
fn a_stale_name_is_called_out_even_where_there_is_no_device() {
    assert_eq!(
        render_audio(&[], Some("Yeti")),
        "Audio inputs (audio.device)\n  (none — no audio input devices could be seen)\n\n  Your configured audio.device (\"Yeti\") matches none of these.\n"
    );
    assert_eq!(
        render_audio(&[], None),
        "Audio inputs (audio.device)\n  (none — no audio input devices could be seen)\n"
    );
}

#[test]
fn a_hint_leads_to_the_device_a_session_would_use() {
    assert_eq!(matching(&microphones(), "YETI"), Some(1));
    assert_eq!(matching(&microphones(), "default"), Some(0));
    assert_eq!(matching(&microphones(), "analog"), Some(0));
    assert_eq!(matching(&microphones(), "Røde"), None);
    assert_eq!(matching(&[input("Yeti", false)], "default"), None);
}

// --- Hotkey ---------------------------------------------------------------

#[test]
fn test_the_hotkey_listing_marks_what_auto_would_pick() {
    let rendered = render_hotkey(&[
        listed(0, "Power Button", Rank::ReportsTheKey, false),
        listed(3, "Yubico YubiKey", Rank::Types, true),
        listed(5, "AT Translated Set 2 keyboard", Rank::Keyboard, true),
    ]);

    assert!(
        rendered.contains(
            "* /dev/input/event5  \"AT Translated Set 2 keyboard\" — keyboard; 'device: auto' picks this one"
        ),
        "the best-ranked candidate wins, wherever it enumerates: {rendered}"
    );
    assert!(
        rendered.contains(
            "    /dev/input/event3  \"Yubico YubiKey\" — types (boot-keyboard set only)\n"
        ),
        "{rendered}"
    );
    assert!(
        rendered.contains("\"Power Button\" — not a keyboard\n"),
        "{rendered}"
    );
    assert_eq!(
        rendered.matches('*').count(),
        1,
        "exactly one device is the one auto picks: {rendered}"
    );
    assert!(rendered.starts_with(HOTKEY_HEADING), "{rendered}");
}

#[test]
fn test_a_device_which_does_not_report_the_key_is_never_picked() {
    // The listing shows every readable device, but `auto` only ever
    // considers the ones which report the key — even a perfect keyboard.
    let devices = [
        listed(0, "Silent Keyboard", Rank::Keyboard, false),
        listed(1, "Odd Remote", Rank::ReportsTheKey, true),
    ];
    let rendered = render_hotkey(&devices);

    assert!(
        rendered.contains("* /dev/input/event1  \"Odd Remote\""),
        "{rendered}"
    );
    assert!(!rendered.contains("* /dev/input/event0"), "{rendered}");
    assert_eq!(auto_choice(&devices), Some(1));
}

#[test]
fn test_nothing_reporting_the_key_is_explained() {
    let rendered = render_hotkey(&[listed(0, "Power Button", Rank::ReportsTheKey, false)]);

    assert!(rendered.contains("has nothing to prefer"), "{rendered}");
    assert!(!rendered.contains('*'), "nothing was picked: {rendered}");
}

#[test]
fn test_an_empty_hotkey_listing_says_so() {
    assert!(render_hotkey(&[]).contains("(none"));
}

#[test]
fn test_the_paths_line_up() {
    let rendered = render_hotkey(&[
        listed(3, "Short", Rank::Keyboard, true),
        listed(10, "Long", Rank::Types, true),
    ]);

    let columns: Vec<usize> = rendered
        .lines()
        .filter(|line| line.contains("/dev/input/"))
        .map(|line| line.find('"').expect("every device line quotes a name"))
        .collect();

    assert_eq!(
        columns.len(),
        2,
        "both devices should have been listed: {rendered}"
    );
    assert_eq!(columns[0], columns[1], "names should line up: {rendered}");
}

#[test]
fn auto_picks_one_of_the_best() {
    let devices = [
        listed(0, "First", Rank::Types, true),
        listed(1, "Second", Rank::Keyboard, true),
        listed(2, "Third", Rank::Keyboard, true),
    ];
    assert_eq!(auto_choice(&devices), Some(1));
    assert_eq!(auto_choice(&devices[..1]), Some(0));
    assert_eq!(auto_choice(&[]), None);
    assert!(Rank::Keyboard.beats(Rank::Types));
    assert!(!Rank::ReportsTheKey.beats(Rank::ReportsTheKey));
}

#[test]
fn there_is_no_hotkey_device_to_choose_on_windows() {
    let rendered = hotkey_on_windows();
    assert!(rendered.starts_with(HOTKEY_HEADING), "{rendered}");
    assert!(rendered.contains("Windows"), "{rendered}");
}

// --- Failures -------------------------------------------------------------

#[test]
fn test_a_failed_section_carries_its_advice() {
    let rendered = render_error(&Error::user(
        "We were not allowed to read /dev/input/event3.".to_string(),
        vec!["Add yourself to the 'input' group."],
    ));

    assert_eq!(
        rendered,
        "  ✗ We were not allowed to read /dev/input/event3.\n    Add yourself to the 'input' group.\n"
    );
}
