use whisper_plus::voice_activity::{has_speech, segment_speech, PADDING, SILENCE_THRESHOLD, WINDOW};

const LOUD: i32 = 100_000_000;

fn buffer(windows: &[bool]) -> Vec<i32> {
    let mut out = Vec::new();
    for loud in windows {
        for _ in 0..WINDOW {
            out.push(if *loud { LOUD } else { 0 });
        }
    }
    out
}

#[test]
fn energy_must_exceed_the_threshold() {
    assert!(!has_speech(&[10], 100));
    assert!(has_speech(&[11], 100));
    assert!(has_speech(&[-11], 100));
    assert!(has_speech(&[10, 12], 121));
    assert!(!has_speech(&[10, 12], 122));
    assert!(!has_speech(&[], 0));
    assert!(!has_speech(&[0, 0, 0], 0));
    assert!(has_speech(&[0, 1, 0], 0));
}

#[test]
fn extreme_samples_do_not_overflow() {
    let window = vec![i32::MIN; 4096];
    assert!(!has_speech(&window, u64::MAX));
    assert!(has_speech(&window, (1u64 << 62) - 1));
    assert!(!has_speech(&window, 1u64 << 62));
    let window = vec![i32::MAX; 3];
    assert!(has_speech(&window, 4_611_686_014_132_420_608));
    assert!(!has_speech(&window, 4_611_686_014_132_420_609));
}

#[test]
fn threshold_is_a_hundred_thousandth_of_full_scale_squared() {
    assert_eq!(SILENCE_THRESHOLD as u128 * 100_000, 1_048_576_000u128 * 1_048_576_000u128);
    assert_eq!(WINDOW, 1600);
    assert_eq!(PADDING, 2 * WINDOW);
}

#[test]
fn silence_gives_the_whole_buffer() {
    assert_eq!(segment_speech(&vec![0; 5000]), vec![(0, 5000)]);
    assert_eq!(segment_speech(&Vec::new()), vec![(0, 0)]);
}

#[test]
fn a_run_of_speech_is_padded_on_both_sides() {
    let samples = buffer(&[false, false, false, true, true, false, false, false, false, false]);
    assert_eq!(segment_speech(&samples), vec![(1600, 11200)]);
}

#[test]
fn padding_is_cut_to_the_buffer() {
    let samples = buffer(&[true, false, false]);
    assert_eq!(segment_speech(&samples), vec![(0, 4800)]);
    let samples = buffer(&[false, true, false]);
    assert_eq!(segment_speech(&samples), vec![(0, 4800)]);
}

#[test]
fn speech_that_lasts_to_the_end_closes_at_the_end() {
    let samples = buffer(&[false, false, false, false, false, false, false, false, true, true]);
    assert_eq!(segment_speech(&samples), vec![(9600, 16000)]);
}

#[test]
fn separate_runs_give_separate_regions() {
    let mut windows = vec![false; 20];
    windows[2] = true;
    windows[12] = true;
    windows[13] = true;
    let samples = buffer(&windows);
    assert_eq!(segment_speech(&samples), vec![(0, 8000), (16000, 25600)]);
}

#[test]
fn last_window_may_be_short() {
    let mut samples = buffer(&[false, false]);
    samples.extend(vec![LOUD; 10]);
    assert_eq!(segment_speech(&samples), vec![(0, 3210)]);
    let mut samples = buffer(&[true]);
    samples.extend(vec![0; 10]);
    assert_eq!(segment_speech(&samples), vec![(0, 1610)]);
}

#[test]
fn quiet_noise_is_silence() {
    // amplitude 0.003 of full scale: mean square 0.000009, below the threshold
    let quiet = vec![3_145_728; 3200];
    assert_eq!(segment_speech(&quiet), vec![(0, 3200)]);
    // amplitude 0.004: mean square 0.000016, above it
    let audible = vec![4_194_304; 3200];
    assert_eq!(segment_speech(&audible), vec![(0, 3200)]);
    let mut mixed = vec![3_145_728; 8000];
    mixed.extend(vec![4_194_304; 1600]);
    mixed.extend(vec![3_145_728; 8000]);
    assert_eq!(segment_speech(&mixed), vec![(4800, 12800)]);
}

#[test]
fn regions_lie_within_the_buffer() {
    let mut windows = vec![false; 31];
    for i in [0, 5, 6, 7, 15, 30] {
        windows[i] = true;
    }
    let samples = buffer(&windows);
    let regions = segment_speech(&samples);
    assert!(!regions.is_empty());
    for (a, b) in regions {
        assert!(a <= b && b <= samples.len());
    }
}
