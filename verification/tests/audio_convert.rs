use voice_orders::audio::binary32::Binary32;
use voice_orders::audio::convert::{downmix_to_mono, IntoPcm16};

fn binary32(value: f32) -> Binary32 {
    Binary32 {
        bits: value.to_bits(),
    }
}

#[test]
fn i16_conversion_is_the_identity() {
    let cases: Vec<(i16, i16)> = vec![
        (0i16, 0),
        (1234i16, 1234),
        (i16::MAX, i16::MAX),
        (i16::MIN, i16::MIN),
    ];
    for (input, expected) in cases {
        assert_eq!(input.into_pcm16(), expected);
    }
}

#[test]
fn u16_conversion_recentres_the_origin() {
    let cases: Vec<(u16, i16)> = vec![
        (0u16, i16::MIN),
        (32_768u16, 0),
        (u16::MAX, i16::MAX),
        (32_769u16, 1),
        (16_384u16, -16_384),
    ];
    for (input, expected) in cases {
        assert_eq!(input.into_pcm16(), expected);
    }
}

#[test]
fn f32_conversion_scales_to_full_range() {
    let cases: Vec<(f32, i16)> = vec![
        (0.0f32, 0),
        (1.0f32, i16::MAX),
        (-1.0f32, -i16::MAX),
        (0.5f32, 16_384),
        (-0.5f32, -16_384),
    ];
    for (input, expected) in cases {
        assert_eq!(binary32(input).into_pcm16(), expected);
    }
}

#[test]
fn f32_conversion_keeps_the_order_and_the_sign() {
    let values = [
        f32::NEG_INFINITY,
        -2.0,
        -1.0,
        -0.999_99,
        -0.5,
        -1.0e-5,
        -1.0e-40,
        -0.0,
        0.0,
        1.0e-40,
        1.5259e-5,
        0.25,
        0.5,
        0.999_99,
        1.0,
        f32::MAX,
        f32::INFINITY,
    ];
    for pair in values.windows(2) {
        assert!(binary32(pair[0]).into_pcm16() <= binary32(pair[1]).into_pcm16());
    }
    for value in values {
        let sample = binary32(value).into_pcm16();
        assert_eq!(binary32(-value).into_pcm16(), -sample);
        assert!(sample > i16::MIN);
    }
}

#[test]
fn f32_conversion_clamps_instead_of_wrapping() {
    let cases: Vec<(f32, i16)> = vec![
        (4.0f32, i16::MAX),
        (-4.0f32, -i16::MAX),
        (f32::INFINITY, i16::MAX),
        (f32::NEG_INFINITY, -i16::MAX),
        (f32::NAN, 0),
    ];
    for (input, expected) in cases {
        assert_eq!(binary32(input).into_pcm16(), expected);
    }
}

#[test]
fn mono_input_passes_through_unchanged() {
    let mut out = Vec::new();
    downmix_to_mono(&[1i16, -2, 3, -4], 1, &mut out);
    assert_eq!(out, vec![1, -2, 3, -4]);
}

#[test]
fn stereo_input_is_averaged_per_frame() {
    let mut out = Vec::new();
    downmix_to_mono(&[100i16, 200, -100, 100, 0, 0], 2, &mut out);
    assert_eq!(out, vec![150, 0, 0]);
}

#[test]
fn four_channel_input_is_averaged_per_frame() {
    let mut out = Vec::new();
    downmix_to_mono(&[4i16, 8, 12, 16, 0, 0, 0, 4], 4, &mut out);
    assert_eq!(out, vec![10, 1]);
}

#[test]
fn stereo_f32_input_is_converted_then_averaged() {
    let mut out = Vec::new();
    let samples: Vec<Binary32> = [1.0f32, -1.0, 0.5, 0.5]
        .iter()
        .map(|sample| binary32(*sample))
        .collect();
    downmix_to_mono(&samples, 2, &mut out);
    assert_eq!(out, vec![0, 16_384]);
}

#[test]
fn a_trailing_partial_frame_is_ignored() {
    let mut out = Vec::new();
    downmix_to_mono(&[10i16, 20, 30], 2, &mut out);
    assert_eq!(out, vec![15]);
}

#[test]
fn zero_channels_is_treated_as_mono() {
    let mut out = Vec::new();
    downmix_to_mono(&[7i16, 9], 0, &mut out);
    assert_eq!(out, vec![7, 9]);
}

#[test]
fn downmixing_appends_to_the_existing_buffer() {
    let mut out = vec![-1i16];
    downmix_to_mono(&[2i16, 4], 2, &mut out);
    assert_eq!(out, vec![-1, 3]);
}

#[test]
fn buffers_of_whole_frames_are_mixed_down_one_by_one() {
    let samples: Vec<i16> = (0..24).map(|i| (i * 37 % 101) as i16 - 50).collect();
    for channels in [0u16, 1, 2, 3] {
        let mut at_once = Vec::new();
        downmix_to_mono(&samples, channels, &mut at_once);
        let mut in_pieces = Vec::new();
        downmix_to_mono(&samples[..6], channels, &mut in_pieces);
        downmix_to_mono(&samples[6..], channels, &mut in_pieces);
        assert_eq!(in_pieces, at_once, "{channels}");
    }
}

/// What the conversion gives in the machine's own floating point arithmetic.
fn native(value: f32) -> i16 {
    if value.is_nan() {
        return 0;
    }
    (value.clamp(-1.0, 1.0) * i16::MAX as f32).round() as i16
}

#[test]
fn conversion_agrees_with_the_machines_arithmetic() {
    // Every exponent and sign, with significands spread over the range.
    let mut bits: u32 = 0;
    for _ in 0..400_000 {
        let value = f32::from_bits(bits);
        assert_eq!(
            binary32(value).into_pcm16(),
            native(value),
            "for the bits {bits:#x}"
        );
        bits = bits.wrapping_add(10_737);
    }
    for numerator in 0..=65_534u32 {
        // Around the halves, where the rounding is decided.
        let value = numerator as f32 / 65_534.0;
        for nudged in [
            value,
            f32::from_bits(value.to_bits() + 1),
            -value,
            f32::from_bits(value.to_bits().saturating_sub(1)),
        ] {
            assert_eq!(binary32(nudged).into_pcm16(), native(nudged), "for {nudged}");
        }
    }
}

#[test]
fn buffers_of_whole_frames_mix_down_one_by_one() {
    let all: Vec<i16> = (0..24).map(|i| i * 7 - 50).collect();
    let mut at_once = Vec::new();
    downmix_to_mono(&all, 3, &mut at_once);
    let mut in_two = Vec::new();
    downmix_to_mono(&all[..9], 3, &mut in_two);
    downmix_to_mono(&all[9..], 3, &mut in_two);
    assert_eq!(at_once, in_two);
}
