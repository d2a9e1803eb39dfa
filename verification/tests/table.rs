use wavetable::fixed::ONE;
use wavetable::settings::{ConfigError, WaveTableSettings};
use wavetable::table::{SampleError, WaveTable};

fn fixed(x: f64) -> i32 {
    (x * 65536.0).round() as i32
}

fn factor(x: f64) -> u32 {
    (x * 65536.0).round() as u32
}

fn position(x: f64) -> u64 {
    (x * 65536.0).round() as u64
}

fn table(waveform_length: usize, dimension_count: usize, waveforms_per_dimension: usize) -> WaveTable {
    WaveTable::new(WaveTableSettings {
        waveform_length,
        dimension_count,
        waveforms_per_dimension,
        base_frequency: 440 << 16,
    })
    .unwrap()
}

/// A table whose stored samples are all different: slot `i` holds `1000 + i`.
fn numbered_table(waveform_length: usize, dimension_count: usize, waveforms_per_dimension: usize) -> WaveTable {
    let mut t = table(waveform_length, dimension_count, waveforms_per_dimension);
    for (i, s) in t.samples_mut().iter_mut().enumerate() {
        *s = 1000 + i as i32;
    }
    t
}

#[test]
fn new_table_is_zero_filled_and_sized_by_its_settings() {
    let t = table(4, 3, 2);
    assert_eq!(t.samples().len(), 24);
    assert!(t.samples().iter().all(|&s| s == 0));
    assert_eq!(t.settings().waveform_length, 4);
    assert_eq!(t.settings().dimension_count, 3);
    assert_eq!(t.settings().waveforms_per_dimension, 2);
    assert_eq!(t.settings().base_frequency, 440 << 16);
}

#[test]
fn new_table_refuses_invalid_settings() {
    let bad = |wl, dc, wpd, bf| {
        WaveTable::new(WaveTableSettings {
            waveform_length: wl,
            dimension_count: dc,
            waveforms_per_dimension: wpd,
            base_frequency: bf,
        })
        .err()
    };
    assert_eq!(bad(1, 1, 1, 1), Some(ConfigError::WaveformTooShort));
    assert_eq!(bad(2, 0, 1, 1), Some(ConfigError::NoDimensions));
    assert_eq!(bad(2, 1, 0, 1), Some(ConfigError::NoWaveforms));
    assert_eq!(bad(2, 1, 1, 0), Some(ConfigError::ZeroBaseFrequency));
    assert_eq!(bad(usize::MAX, 2, 1, 1), Some(ConfigError::TableTooLarge));
    assert_eq!(bad(2, 1, 1, 1), None);
}

#[test]
fn samples_written_in_place_are_read_back() {
    let mut t = table(4, 1, 2);
    t.samples_mut()[5] = 77;
    assert_eq!(t.samples(), &[0, 0, 0, 0, 0, 77, 0, 0]);
    assert_eq!(t.samples_mut().len(), 8);
}

#[test]
fn end_to_end_half_way_between_two_waveforms() {
    let mut t = table(4, 1, 2);
    for s in &mut t.samples_mut()[4..8] {
        *s = fixed(1.0);
    }
    assert_eq!(t.samples(), &[0, 0, 0, 0, 65536, 65536, 65536, 65536]);
    for unused in [0, 1, ONE, 999_999, u32::MAX] {
        assert_eq!(t.get_sample(position(0.0), &[factor(0.5), unused]), Ok(fixed(0.5)));
    }
    assert_eq!(t.get_sample(0, &[32768, 0]), Ok(32768));
}

#[test]
fn boundary_factors_give_the_stored_sample() {
    let t = numbered_table(4, 2, 3);
    for p in 0..3u64 {
        for select0 in [0, ONE] {
            for select1 in [0, ONE] {
                for blend in [0, ONE] {
                    let d = if blend == ONE { 1 } else { 0 };
                    let select = if d == 0 { select0 } else { select1 };
                    let w = if select == 0 { 0 } else { 2 };
                    let expected = t.samples()[d * 12 + w * 4 + p as usize];
                    for unused in [0, 12345, u32::MAX] {
                        let mixes = [select0, unused, select1, blend];
                        assert_eq!(t.get_sample(p * 65536, &mixes), Ok(expected));
                    }
                }
            }
        }
    }
}

#[test]
fn boundary_factors_with_three_dimensions_pick_the_last_full_blend() {
    let t = numbered_table(4, 3, 2);
    // blend of dimension 1 is one, blend of dimension 2 is zero: dimension 1 survives.
    assert_eq!(t.get_sample(2 * 65536, &[0, 0, ONE, ONE, 0, 0]), Ok(1000 + 8 + 4 + 2));
    // blend of dimension 2 is one: dimension 2 survives whatever came before.
    assert_eq!(t.get_sample(65536, &[0, 0, ONE, ONE, 0, ONE]), Ok(1000 + 16 + 1));
    // no blend is one: dimension 0 survives.
    assert_eq!(t.get_sample(0, &[ONE, 0, ONE, 0, ONE, 0]), Ok(1000 + 4));
}

#[test]
fn interpolation_inside_a_waveform() {
    let mut t = table(4, 1, 1);
    t.samples_mut().copy_from_slice(&[fixed(0.0), fixed(1.0), fixed(-1.0), fixed(0.5)]);
    assert_eq!(t.get_sample(position(0.0), &[0, 0]), Ok(fixed(0.0)));
    assert_eq!(t.get_sample(position(0.5), &[0, 0]), Ok(fixed(0.5)));
    assert_eq!(t.get_sample(position(0.25), &[0, 0]), Ok(fixed(0.25)));
    assert_eq!(t.get_sample(position(1.0), &[0, 0]), Ok(fixed(1.0)));
    assert_eq!(t.get_sample(position(1.5), &[0, 0]), Ok(fixed(0.0)));
    assert_eq!(t.get_sample(position(1.75), &[0, 0]), Ok(fixed(-0.5)));
    assert_eq!(t.get_sample(position(2.0), &[0, 0]), Ok(fixed(-1.0)));
    assert_eq!(t.get_sample(position(2.5), &[0, 0]), Ok(fixed(-0.25)));
    // the last valid position, one step below waveform_length - 1:
    // (1 * -65536 + 65535 * 32768) / 65536 = 32766.5, rounded down
    assert_eq!(t.get_sample(3 * 65536 - 1, &[0, 0]), Ok(32766));
}

#[test]
fn interpolation_between_waveforms() {
    let mut t = table(2, 1, 3);
    t.samples_mut().copy_from_slice(&[0, 0, 100, 100, 400, 400]);
    assert_eq!(t.get_sample(0, &[0, 0]), Ok(0));
    assert_eq!(t.get_sample(0, &[factor(0.25), 0]), Ok(50));
    assert_eq!(t.get_sample(0, &[factor(0.5), 0]), Ok(100));
    assert_eq!(t.get_sample(0, &[factor(0.75), 0]), Ok(250));
    assert_eq!(t.get_sample(0, &[ONE, 0]), Ok(400));
}

#[test]
fn interpolation_across_dimensions() {
    let mut t = table(2, 3, 1);
    t.samples_mut().copy_from_slice(&[0, 0, 1000, 1000, 3000, 3000]);
    // dimension 0 alone
    assert_eq!(t.get_sample(0, &[0, 0, 0, 0, 0, 0]), Ok(0));
    // half of dimension 1 blended in
    assert_eq!(t.get_sample(0, &[0, 0, 0, factor(0.5), 0, 0]), Ok(500));
    // then a quarter of dimension 2 blended into that
    assert_eq!(t.get_sample(0, &[0, 0, 0, factor(0.5), 0, factor(0.25)]), Ok(1125));
    // a full blend replaces the accumulator
    assert_eq!(t.get_sample(0, &[0, 0, 0, factor(0.5), 0, ONE]), Ok(3000));
}

#[test]
fn all_three_levels_together() {
    let mut t = table(3, 2, 2);
    t.samples_mut().copy_from_slice(&[
        0, 1000, 2000, // dimension 0, waveform 0
        4000, 5000, 6000, // dimension 0, waveform 1
        -1000, -2000, -3000, // dimension 1, waveform 0
        -5000, -6000, -7000, // dimension 1, waveform 1
    ]);
    // position 0.5: waveforms give 500, 4500, -1500, -5500
    // select 0.5 in dimension 0: 2500; select 0.25 in dimension 1: -2500
    // blend 0.5: 0
    let mixes = [factor(0.5), 0, factor(0.25), factor(0.5)];
    assert_eq!(t.get_sample(position(0.5), &mixes), Ok(0));
    // blend 0.25: 0.75 * 2500 + 0.25 * -2500 = 1250
    let mixes = [factor(0.5), 0, factor(0.25), factor(0.25)];
    assert_eq!(t.get_sample(position(0.5), &mixes), Ok(1250));
}

#[test]
fn mix_vector_of_wrong_length_is_refused() {
    let t = table(4, 2, 2);
    assert_eq!(t.get_sample(0, &[]), Err(SampleError::MixLengthMismatch));
    assert_eq!(t.get_sample(0, &[0, 0]), Err(SampleError::MixLengthMismatch));
    assert_eq!(t.get_sample(0, &[0, 0, 0]), Err(SampleError::MixLengthMismatch));
    assert_eq!(t.get_sample(0, &[0, 0, 0, 0, 0]), Err(SampleError::MixLengthMismatch));
    assert_eq!(t.get_sample(0, &[0, 0, 0, 0]), Ok(0));
}

#[test]
fn position_at_or_past_the_last_sample_is_refused() {
    let t = table(4, 1, 2);
    assert_eq!(t.get_sample(3 * 65536 - 1, &[0, 0]), Ok(0));
    assert_eq!(t.get_sample(3 * 65536, &[0, 0]), Err(SampleError::PositionOutOfRange));
    assert_eq!(t.get_sample(4 * 65536, &[0, 0]), Err(SampleError::PositionOutOfRange));
    assert_eq!(t.get_sample(u64::MAX, &[0, 0]), Err(SampleError::PositionOutOfRange));
}

#[test]
fn factor_above_one_is_refused() {
    let t = table(4, 2, 2);
    assert_eq!(t.get_sample(0, &[ONE + 1, 0, 0, 0]), Err(SampleError::FactorOutOfRange));
    assert_eq!(t.get_sample(0, &[0, 0, ONE + 1, 0]), Err(SampleError::FactorOutOfRange));
    assert_eq!(t.get_sample(0, &[0, 0, 0, ONE + 1]), Err(SampleError::FactorOutOfRange));
    assert_eq!(t.get_sample(0, &[0, 0, 0, u32::MAX]), Err(SampleError::FactorOutOfRange));
    // the blend slot of dimension 0 is never read
    assert_eq!(t.get_sample(0, &[0, ONE + 1, 0, 0]), Ok(0));
    assert_eq!(t.get_sample(0, &[ONE, u32::MAX, ONE, ONE]), Ok(0));
}

#[test]
fn sample_errors_are_reported_in_order() {
    let t = table(4, 1, 2);
    assert_eq!(t.get_sample(u64::MAX, &[ONE + 1]), Err(SampleError::MixLengthMismatch));
    assert_eq!(t.get_sample(u64::MAX, &[ONE + 1, 0]), Err(SampleError::PositionOutOfRange));
    assert_eq!(t.get_sample(0, &[ONE + 1, 0]), Err(SampleError::FactorOutOfRange));
}

#[test]
fn single_waveform_ignores_the_select_factor() {
    let mut t = table(3, 1, 1);
    t.samples_mut().copy_from_slice(&[10, 20, 30]);
    for select in [0, 1, ONE / 2, ONE] {
        assert_eq!(t.get_sample(65536, &[select, 0]), Ok(20));
    }
}
