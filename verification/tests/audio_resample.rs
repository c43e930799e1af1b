use voice_orders::audio::binary32::interpolate;
use voice_orders::audio::resample::{Decimator, LinearResampler, Resampler};

fn ramp(len: usize) -> Vec<i16> {
    (0..len).map(|i| (i % 1000) as i16).collect()
}

fn sine(len: usize, period: f32) -> Vec<i16> {
    (0..len)
        .map(|i| {
            let phase = i as f32 / period * std::f32::consts::TAU;
            (phase.sin() * 12_000.0) as i16
        })
        .collect()
}

fn run_in_chunks(resampler: &mut Resampler, input: &[i16], chunk: usize) -> Vec<i16> {
    let mut out = Vec::new();
    for piece in input.chunks(chunk) {
        resampler.process(piece, &mut out);
    }
    out
}

#[test]
fn identical_or_degenerate_rates_pass_through() {
    let cases: Vec<(u32, u32)> = vec![
        (16_000, 16_000),
        (0, 16_000),
        (16_000, 0),
    ];
    for (input, output) in cases {
        assert!(matches!(
            Resampler::new(input, output),
            Resampler::Passthrough
        ));
    }
}

#[test]
fn exact_integer_ratios_use_decimation() {
    let cases: Vec<(u32, u32)> = vec![
        (48_000, 16_000),
        (32_000, 16_000),
        (96_000, 16_000),
    ];
    for (input, output) in cases {
        assert!(matches!(
            Resampler::new(input, output),
            Resampler::Decimate(_)
        ));
    }
}

#[test]
fn other_ratios_use_linear_interpolation() {
    let cases: Vec<(u32, u32)> = vec![
        (44_100, 16_000),
        (22_050, 16_000),
        (8_000, 16_000),
    ];
    for (input, output) in cases {
        assert!(matches!(
            Resampler::new(input, output),
            Resampler::Linear(_)
        ));
    }
}

#[test]
fn passthrough_copies_the_input() {
    let mut resampler = Resampler::new(16_000, 16_000);
    let input = ramp(64);
    assert_eq!(run_in_chunks(&mut resampler, &input, 7), input);
}

#[test]
fn decimation_of_a_ramp_averages_each_group() {
    let mut resampler = Resampler::new(48_000, 16_000);
    let input: Vec<i16> = (0..30i16).collect();
    let out = run_in_chunks(&mut resampler, &input, 30);

    assert_eq!(out.len(), 10);
    // Each output is the mean of three consecutive ramp samples, i.e.
    // (3k) + (3k+1) + (3k+2) / 3 == 3k + 1.
    let expected: Vec<i16> = (0..10i16).map(|k| 3 * k + 1).collect();
    assert_eq!(out, expected);
}

#[test]
fn decimation_produces_a_third_of_the_samples() {
    let mut resampler = Resampler::new(48_000, 16_000);
    let input = sine(48_000, 100.0);
    let out = run_in_chunks(&mut resampler, &input, 1_024);
    assert_eq!(out.len(), 16_000);
}

#[test]
fn decimation_is_independent_of_the_chunking() {
    let cases: Vec<usize> = vec![
        1,
        2,
        7,
        480,
        1_024,
    ];
    for chunk in cases {
        let input = sine(9_600, 73.0);
    
        let mut reference = Resampler::new(48_000, 16_000);
        let expected = run_in_chunks(&mut reference, &input, input.len());
    
        let mut resampler = Resampler::new(48_000, 16_000);
        assert_eq!(run_in_chunks(&mut resampler, &input, chunk), expected);
    }
}

#[test]
fn decimation_carries_a_partial_group_across_chunks() {
    // Four samples split 3/1 must still average the *first three*.
    let mut resampler = Resampler::new(48_000, 16_000);
    let mut out = Vec::new();
    resampler.process(&[3, 6], &mut out);
    assert!(out.is_empty());
    resampler.process(&[9, 100], &mut out);
    assert_eq!(out, vec![6]);
}

#[test]
fn resetting_a_decimator_drops_the_partial_group() {
    let mut resampler = Resampler::new(48_000, 16_000);
    let mut out = Vec::new();
    resampler.process(&[3, 6], &mut out);
    resampler.reset();
    resampler.process(&[9, 9, 9], &mut out);
    assert_eq!(out, vec![9]);
}

#[test]
fn linear_resampling_of_one_second_produces_the_target_rate() {
    let mut resampler = Resampler::new(44_100, 16_000);
    let input = sine(44_100, 147.0);
    let out = run_in_chunks(&mut resampler, &input, 441);

    // Output k sits at k * 44100/16000 input samples; the last one which
    // fits inside 44100 samples is k = 15999.
    assert_eq!(out.len(), 16_000);
}

#[test]
fn linear_resampling_produces_the_expected_number_of_samples() {
    let cases: Vec<(u32, u32, usize, usize)> = vec![
        (8_000, 16_000, 8_000, 15_999),
        (22_050, 16_000, 22_050, 16_000),
        (44_100, 16_000, 4_410, 1_600),
    ];
    for (input_rate, output_rate, input_len, expected_len) in cases {
        let mut resampler = Resampler::new(input_rate, output_rate);
        let input = sine(input_len, 61.0);
        let out = run_in_chunks(&mut resampler, &input, 128);
        assert_eq!(out.len(), expected_len);
    }
}

#[test]
fn linear_resampling_is_independent_of_the_chunking() {
    let cases: Vec<usize> = vec![
        1,
        2,
        3,
        147,
        441,
        1_024,
        4_096,
    ];
    for chunk in cases {
        let input = sine(44_100, 137.0);
    
        let mut reference = Resampler::new(44_100, 16_000);
        let expected = run_in_chunks(&mut reference, &input, input.len());
    
        let mut resampler = Resampler::new(44_100, 16_000);
        let actual = run_in_chunks(&mut resampler, &input, chunk);
    
        assert_eq!(actual.len(), expected.len());
        assert_eq!(actual, expected);
    }
}

#[test]
fn linear_resampling_interpolates_between_neighbouring_samples() {
    // 3 kHz -> 2 kHz: outputs land at input positions 0, 1.5, 3, 4.5, ...
    let mut resampler = Resampler::new(3_000, 2_000);
    let out = run_in_chunks(&mut resampler, &[0, 100, 200, 300, 400, 600], 6);
    assert_eq!(out, vec![0, 150, 300, 500]);
}

#[test]
fn linear_upsampling_repeats_and_interpolates() {
    // 2 kHz -> 4 kHz: outputs land at input positions 0, 0.5, 1, 1.5, ...
    let mut resampler = Resampler::new(2_000, 4_000);
    let out = run_in_chunks(&mut resampler, &[0, 100, 200], 3);
    assert_eq!(out, vec![0, 50, 100, 150, 200]);
}

#[test]
fn resampled_samples_are_within_one_of_the_exact_value() {
    let input: Vec<i16> = (0..400i32).map(|i| (i * 7919 % 65536 - 32768) as i16).collect();
    for (input_rate, output_rate) in [(44_100u32, 16_000u32), (11_025, 48_000), (7, 16_777_213)] {
        let len = if output_rate > 100_000 { 2 } else { input.len() };
        let mut resampler = LinearResampler::new(input_rate, output_rate);
        let mut out = Vec::new();
        resampler.process(&input[..len], &mut out);
        for (k, sample) in out.iter().enumerate() {
            let source = k as i64 * i64::from(input_rate);
            let position = (source / i64::from(output_rate)) as usize;
            let fraction = source % i64::from(output_rate);
            let before = i64::from(input[position]);
            if fraction == 0 {
                assert_eq!(i64::from(*sample), before);
                continue;
            }
            let after = i64::from(input[position + 1]);
            let off = (i64::from(*sample) - before) * i64::from(output_rate)
                - (after - before) * fraction;
            assert!(off.abs() < i64::from(output_rate), "{k}");
        }
    }
}

#[test]
fn linear_resampling_tracks_a_ramp_monotonically() {
    let mut resampler = Resampler::new(44_100, 16_000);
    let input: Vec<i16> = (0..4_410).map(|i| i as i16 / 8).collect();
    let out = run_in_chunks(&mut resampler, &input, 333);

    assert!(out.windows(2).all(|w| w[1] >= w[0]));
    assert_eq!(out.first().copied(), Some(0));
}

#[test]
fn resetting_a_linear_resampler_restarts_the_position() {
    let mut resampler = Resampler::new(44_100, 16_000);
    let input = sine(2_048, 91.0);

    let mut first = Vec::new();
    resampler.process(&input, &mut first);
    resampler.reset();

    let mut second = Vec::new();
    resampler.process(&input, &mut second);

    assert_eq!(first, second);
}

#[test]
fn empty_chunks_are_ignored() {
    let mut resampler = Resampler::new(44_100, 16_000);
    let mut out = Vec::new();
    resampler.process(&[], &mut out);
    resampler.process(&[500; 64], &mut out);
    resampler.process(&[], &mut out);
    assert!(!out.is_empty());
}

/// What interpolation gives in the machine's own floating point arithmetic.
fn native(before: i16, after: i16, fraction: u32, rate: u32) -> i16 {
    let t = fraction as f32 / rate as f32;
    (before as f32 + (after as f32 - before as f32) * t).round() as i16
}

#[test]
fn interpolation_agrees_with_the_machines_arithmetic() {
    let mut state: u64 = 0x1234_5678_9abc_def1;
    let mut next = || {
        state ^= state << 13;
        state ^= state >> 7;
        state ^= state << 17;
        state
    };
    for round in 0..60_000u64 {
        let before = next() as i16;
        let after = next() as i16;
        let rate = match round % 4 {
            0 => 16_000,
            1 => 48_000,
            2 => (next() as u32).max(2),
            _ => (next() % 1_000) as u32 + 2,
        };
        let fraction = (next() % (rate as u64 - 1)) as u32 + 1;
        let sample = interpolate(before, after, fraction, rate);
        assert_eq!(
            sample,
            native(before, after, fraction, rate),
            "between {before} and {after} at {fraction}/{rate}"
        );
        assert!(before.min(after) <= sample && sample <= before.max(after));
    }
}

#[test]
fn a_decimator_of_factor_zero_passes_samples_on() {
    let mut decimator = Decimator::new(0);
    let mut out = Vec::new();
    decimator.process(&[5, -7], &mut out);
    assert_eq!(out, vec![5, -7]);
}

#[test]
fn averages_round_towards_zero() {
    let mut decimator = Decimator::new(3);
    let mut out = Vec::new();
    decimator.process(&[-1, -1, 0, 1, 1, 0, -32_768, -32_768, -32_768], &mut out);
    assert_eq!(out, vec![0, 0, -32_768]);
    decimator.process(&[7], &mut out);
    decimator.reset();
    decimator.process(&[3, 3, 4], &mut out);
    assert_eq!(out, vec![0, 0, -32_768, 3]);
}

#[test]
fn an_output_rate_of_zero_is_treated_as_one() {
    let mut linear = LinearResampler::new(2, 0);
    let mut out = Vec::new();
    linear.process(&[10, 20, 30, 40, 50], &mut out);
    assert_eq!(out, vec![10, 30, 50]);
}
