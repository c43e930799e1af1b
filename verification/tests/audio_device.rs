use std::sync::atomic::AtomicU64;
use std::sync::mpsc::sync_channel;
use std::sync::Arc;

use voice_orders::audio::device::{
    achievable_rate, choose_from_ranges, choose_input_config, format_rank, is_exact_match,
    list_input_devices, no_match_message, rank, select_input_device, ConfigRange, SampleFormat,
    Selected, StreamConfig,
};
use voice_orders::audio::errors::{AudioError, AudioErrorKind};
use voice_orders::audio::{
    capture, check_target_rate, frame_len, plan_capture, Encoding, DEFAULT_DEVICE_HINT,
};
use voice_orders::errors::{HumanizableError, Kind};
use voice_orders::recognition::AudioMsg;

fn range(channels: u16, min: u32, max: u32, format: SampleFormat) -> ConfigRange {
    ConfigRange {
        channels,
        min_rate: min,
        max_rate: max,
        format,
    }
}

#[test]
fn the_model_format_is_recognised_as_an_exact_match() {
    assert!(is_exact_match(
        &range(1, 8_000, 48_000, SampleFormat::I16),
        16_000
    ));
}

#[test]
fn anything_else_is_not_an_exact_match() {
    for candidate in [
        range(2, 8_000, 48_000, SampleFormat::I16),
        range(1, 8_000, 48_000, SampleFormat::F32),
        range(1, 44_100, 44_100, SampleFormat::I16),
    ] {
        assert!(!is_exact_match(&candidate, 16_000));
    }
}

#[test]
fn the_achievable_rate_is_clamped_into_the_supported_range() {
    for (min, max, expected) in [
        (8_000, 48_000, 16_000),
        (44_100, 48_000, 44_100),
        (8_000, 11_025, 11_025),
        (16_000, 16_000, 16_000),
    ] {
        let candidate = range(1, min, max, SampleFormat::I16);
        assert_eq!(achievable_rate(&candidate, 16_000), expected);
    }
}

#[test]
fn the_target_rate_outranks_a_multiple_of_it() {
    let exact = rank(&range(2, 16_000, 16_000, SampleFormat::F32), 16_000);
    let multiple = rank(&range(2, 48_000, 48_000, SampleFormat::F32), 16_000);
    assert!(exact < multiple);
}

#[test]
fn a_multiple_of_the_target_rate_outranks_an_awkward_ratio() {
    let multiple = rank(&range(2, 48_000, 48_000, SampleFormat::F32), 16_000);
    let awkward = rank(&range(2, 44_100, 44_100, SampleFormat::F32), 16_000);
    assert!(multiple < awkward);
}

#[test]
fn fewer_channels_break_a_rate_tie() {
    let mono = rank(&range(1, 48_000, 48_000, SampleFormat::F32), 16_000);
    let stereo = rank(&range(2, 48_000, 48_000, SampleFormat::F32), 16_000);
    assert!(mono < stereo);
}

#[test]
fn i16_breaks_a_channel_tie() {
    let integer = rank(&range(2, 48_000, 48_000, SampleFormat::I16), 16_000);
    let float = rank(&range(2, 48_000, 48_000, SampleFormat::F32), 16_000);
    assert!(integer < float);
}

#[test]
fn only_the_three_convertible_formats_are_ranked() {
    for (format, supported) in [
        (SampleFormat::I16, true),
        (SampleFormat::F32, true),
        (SampleFormat::U16, true),
        (SampleFormat::I8, false),
        (SampleFormat::I32, false),
        (SampleFormat::F64, false),
    ] {
        assert_eq!(format_rank(format).is_some(), supported);
    }
}

#[test]
fn a_no_match_message_lists_the_devices_we_can_see() {
    let message = no_match_message(
        "usb mic",
        &[
            "HD Audio Analog".to_string(),
            "Yeti Stereo Microphone".to_string(),
        ],
    );

    assert!(message.contains("usb mic"));
    assert!(message.contains("HD Audio Analog"));
    assert!(message.contains("Yeti Stereo Microphone"));
}

#[test]
fn a_no_match_message_says_so_when_there_are_no_devices() {
    let message = no_match_message("usb mic", &[]);

    assert!(message.contains("usb mic"));
    assert!(message.contains("could not see any audio input devices"));
}

#[test]
fn errors_are_classified_by_kind() {
    for (kind, expected) in [
        (AudioErrorKind::DeviceNotAvailable, Kind::User),
        (AudioErrorKind::StreamInvalidated, Kind::User),
        (AudioErrorKind::DeviceBusy, Kind::User),
        (AudioErrorKind::PermissionDenied, Kind::User),
        (AudioErrorKind::UnsupportedConfig, Kind::User),
        (AudioErrorKind::HostUnavailable, Kind::User),
        (AudioErrorKind::Xrun, Kind::User),
        (AudioErrorKind::BackendError, Kind::System),
        (AudioErrorKind::Other, Kind::System),
        (AudioErrorKind::InvalidInput, Kind::System),
    ] {
        let err = AudioError {
            kind,
            detail: String::new(),
        }
        .to_human_error();
        assert!(err.is(expected), "{kind:?} should be a {expected:?} error");
        assert!(!err.advice().is_empty());
    }
}

#[test]
fn a_missing_device_talks_about_the_microphone() {
    let err = AudioError {
        kind: AudioErrorKind::DeviceNotAvailable,
        detail: String::new(),
    }
    .to_human_error();
    assert!(err.description().contains("microphone"));
}

#[test]
fn the_backend_detail_survives_into_the_rendered_message() {
    let err = AudioError {
        kind: AudioErrorKind::BackendError,
        detail: "the sound server exploded".to_string(),
    }
    .to_human_error();
    assert!(
        err.pretty().contains("the sound server exploded"),
        "the underlying detail must survive: {}",
        err.pretty()
    );
}

#[test]
fn a_zero_target_rate_is_rejected_before_any_hardware_is_touched() {
    let err = check_target_rate(0).expect_err("a zero sample rate cannot be captured");

    assert!(err.description().contains("0 Hz"));
    assert!(check_target_rate(16_000).is_ok());
}

// --- Choosing a device ---------------------------------------------------

fn names() -> Vec<String> {
    vec![
        "HD Audio Analog".to_string(),
        "Yeti Stereo Microphone".to_string(),
        "Yeti Nano".to_string(),
    ]
}

#[test]
fn a_hint_selects_the_first_device_whose_name_contains_it() {
    for (hint, expected) in [
        ("yeti", Selected::Listed(1)),
        ("  NANO ", Selected::Listed(2)),
        ("audio", Selected::Listed(0)),
        (DEFAULT_DEVICE_HINT, Selected::Default),
        ("Default", Selected::Default),
        ("   ", Selected::Default),
    ] {
        assert_eq!(
            select_input_device(hint, true, &names()).expect("the hint should select a device"),
            expected,
            "{hint:?}"
        );
    }
}

#[test]
fn a_hint_is_lowercased_beyond_ascii() {
    let names = vec!["MIKROFON ÄÖÜ".to_string()];
    assert_eq!(
        select_input_device("mikrofon äöü", true, &names).expect("case is ignored"),
        Selected::Listed(0)
    );
}

#[test]
fn a_hint_which_selects_nothing_is_a_user_error() {
    let err = select_input_device("default", false, &names()).expect_err("there is no default");
    assert!(err.is(Kind::User));
    assert!(err.description().contains("default audio input device"));

    let err = select_input_device("røde", true, &names()).expect_err("nothing is called that");
    assert!(err.is(Kind::User));
    assert_eq!(
        err.description(),
        "We could not find an audio input device whose name contains \"røde\". The input devices we can see are: HD Audio Analog, Yeti Stereo Microphone, Yeti Nano."
    );
}

#[test]
fn the_listing_marks_the_default_device_once() {
    let devices = list_input_devices(Some("Yeti Nano".to_string()), names());
    let marked: Vec<(&str, bool)> = devices
        .iter()
        .map(|device| (device.name.as_str(), device.is_default))
        .collect();
    assert_eq!(
        marked,
        vec![
            ("HD Audio Analog", false),
            ("Yeti Stereo Microphone", false),
            ("Yeti Nano", true),
        ]
    );
}

// --- Choosing a configuration ----------------------------------------------

#[test]
fn the_best_configuration_wins_wherever_it_stands() {
    let ranges = [
        range(2, 44_100, 44_100, SampleFormat::I16),
        range(1, 8_000, 48_000, SampleFormat::F64),
        range(2, 48_000, 96_000, SampleFormat::F32),
        range(1, 48_000, 48_000, SampleFormat::U16),
    ];
    assert_eq!(
        choose_from_ranges(&ranges, 16_000),
        Some(StreamConfig {
            channels: 1,
            rate: 48_000,
            format: SampleFormat::U16,
        })
    );

    let exact = [
        range(2, 8_000, 48_000, SampleFormat::I16),
        range(1, 8_000, 48_000, SampleFormat::I16),
    ];
    assert_eq!(
        choose_from_ranges(&exact, 16_000),
        Some(StreamConfig {
            channels: 1,
            rate: 16_000,
            format: SampleFormat::I16,
        })
    );
}

#[test]
fn the_default_configuration_is_the_last_resort() {
    let default = StreamConfig {
        channels: 2,
        rate: 44_100,
        format: SampleFormat::F32,
    };
    assert_eq!(
        choose_input_config(&[], Ok(default), 16_000).expect("the default can be converted"),
        default
    );

    let unreadable = StreamConfig {
        format: SampleFormat::F64,
        ..default
    };
    let err = choose_input_config(&[], Ok(unreadable), 16_000)
        .expect_err("the default cannot be converted");
    assert!(err.description().contains("f64"), "{}", err.description());

    let err = choose_input_config(
        &[],
        Err(AudioError {
            kind: AudioErrorKind::DeviceNotAvailable,
            detail: "gone".to_string(),
        }),
        16_000,
    )
    .expect_err("there is no default");
    assert!(err.is(Kind::User));
    assert_eq!(err.causes[0].text, "gone");
}

// --- Planning a capture ------------------------------------------------------

#[test]
fn a_plan_follows_the_configuration() {
    let config = StreamConfig {
        channels: 2,
        rate: 48_000,
        format: SampleFormat::F32,
    };
    let plan = plan_capture(config, 16_000).expect("the format can be converted");
    assert_eq!(plan.encoding, Encoding::Float);
    assert_eq!(plan.input_rate, 48_000);
    assert_eq!(plan.input_channels, 2);
    assert_eq!(plan.frame_len, 1_600);
    assert_eq!(frame_len(16_000), 1_600);

    let err = plan_capture(
        StreamConfig {
            format: SampleFormat::I32,
            ..config
        },
        16_000,
    )
    .expect_err("the format cannot be converted");
    assert!(err.is(Kind::System));
    assert!(err.description().contains("(i32)"), "{}", err.description());
}

#[test]
fn a_capture_only_hands_on_what_it_hears_while_listening() {
    let (tx, rx) = sync_channel(8);
    let plan = plan_capture(
        StreamConfig {
            channels: 1,
            rate: 16_000,
            format: SampleFormat::I16,
        },
        16_000,
    )
    .expect("the format can be converted");
    let mut pipeline = plan.pipeline(tx, Arc::new(AtomicU64::new(0)));

    capture(&mut pipeline, true, &[7i16; 1_000]);
    capture(&mut pipeline, false, &[8i16; 1_000]);
    capture(&mut pipeline, true, &[9i16; 1_600]);

    match rx.try_recv().expect("one frame was filled") {
        AudioMsg::Frame(samples) => assert_eq!(samples, vec![9i16; 1_600]),
        AudioMsg::Reset | AudioMsg::Clear => panic!("capture never sends a control message"),
    }
    assert!(rx.try_recv().is_err(), "what was muted must not be heard");
}
