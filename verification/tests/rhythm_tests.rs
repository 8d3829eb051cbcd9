use audio_ai::audio_analysis::AnalysisResult;
use audio_ai::rhythm::extract_rhythm_pattern;
use audio_ai::stats::{mean, spread_root, square_sum, sum};
use audio_ai::wide::{isqrt_wide, le_wide, mul_wide, sub_wide, Wide};

fn onsets(times: Vec<u32>) -> AnalysisResult {
    AnalysisResult { pitch_hz: vec![], tempo_bpm: None, onsets: times, spectral_centroid: vec![], streaming: None }
}

#[test]
fn even_spacing_is_perfectly_stable() {
    let rhythm = extract_rhythm_pattern(&onsets((0..10).map(|i| i * 500).collect()));
    assert_eq!(rhythm.inter_onset_intervals, vec![500; 9]);
    assert_eq!(rhythm.avg_interval, 500);
    assert_eq!(rhythm.tempo_stability, 1_000_000);
}

#[test]
fn no_onsets_have_no_stability() {
    let rhythm = extract_rhythm_pattern(&onsets(vec![]));
    assert!(rhythm.onset_times.is_empty());
    assert!(rhythm.inter_onset_intervals.is_empty());
    assert_eq!(rhythm.avg_interval, 0);
    assert_eq!(rhythm.tempo_stability, 0);
}

#[test]
fn one_interval_has_a_mean_but_no_stability() {
    let rhythm = extract_rhythm_pattern(&onsets(vec![250, 1_000]));
    assert_eq!(rhythm.inter_onset_intervals, vec![750]);
    assert_eq!(rhythm.avg_interval, 750);
    assert_eq!(rhythm.tempo_stability, 0);
}

#[test]
fn uneven_spacing_lowers_the_stability() {
    // intervals 400 and 600: mean 500, variance 10000, deviation 100
    let rhythm = extract_rhythm_pattern(&onsets(vec![0, 400, 1_000]));
    assert_eq!(rhythm.onset_times, vec![0, 400, 1_000]);
    assert_eq!(rhythm.inter_onset_intervals, vec![400, 600]);
    assert_eq!(rhythm.avg_interval, 500);
    // 1 / (1 + 100/500) = 500 / 600
    assert_eq!(rhythm.tempo_stability, 833_333);
}

#[test]
fn onsets_at_one_time_have_no_stability() {
    let rhythm = extract_rhythm_pattern(&onsets(vec![700, 700, 700]));
    assert_eq!(rhythm.inter_onset_intervals, vec![0, 0]);
    assert_eq!(rhythm.avg_interval, 0);
    assert_eq!(rhythm.tempo_stability, 0);
}

#[test]
fn onsets_out_of_order_leave_no_interval_between_them() {
    let rhythm = extract_rhythm_pattern(&onsets(vec![0, 900, 300, 600]));
    assert_eq!(rhythm.inter_onset_intervals, vec![900, 0, 300]);
    assert_eq!(rhythm.avg_interval, 400);
}

#[test]
fn whole_number_statistics() {
    assert_eq!(mean(&vec![]), 0);
    assert_eq!(mean(&vec![1, 2]), 1);
    assert_eq!(mean(&vec![u32::MAX, u32::MAX, u32::MAX]), u32::MAX);
    assert_eq!(sum(&vec![]), 0);
    assert_eq!(sum(&vec![400, 600]), 1_000);
    assert_eq!(square_sum(&vec![400, 600]), 520_000);
    assert_eq!(square_sum(&vec![u32::MAX, u32::MAX]), 2 * (u32::MAX as u128).pow(2));
    // twice the sum of squares less the square of the sum: 40 000
    assert_eq!(spread_root(&vec![400, 600]), 200);
    assert_eq!(spread_root(&vec![]), 0);
    assert_eq!(spread_root(&vec![7]), 0);
    assert_eq!(spread_root(&vec![500, 500, 500]), 0);
    assert_eq!(spread_root(&vec![500, 501]), 1);
    assert_eq!(spread_root(&vec![0, u32::MAX]), u32::MAX as u128);
}

#[test]
fn numbers_of_256_bits() {
    let product = mul_wide(u128::MAX, u128::MAX);
    assert_eq!((product.hi, product.lo), (u128::MAX - 1, 1));
    let product = mul_wide(0x1_0000_0000_0000_0000, 0x1_0000_0000_0000_0000);
    assert_eq!((product.hi, product.lo), (1, 0));
    let product = mul_wide(123_456_789_012_345_678_901_234_567_890, 987_654_321);
    assert_eq!((product.hi, product.lo), (0, 121_932_631_124_828_532_112_482_853_211_126_352_690));
    let product = mul_wide(0xffff_ffff_ffff_ffff_ffff, 0x1_0000_0000_0000_0000_0001);
    assert_eq!((product.hi, product.lo), (0xffff_ffff, u128::MAX));
    assert!(le_wide(Wide { hi: 1, lo: 0 }, Wide { hi: 1, lo: 0 }));
    assert!(le_wide(Wide { hi: 0, lo: u128::MAX }, Wide { hi: 1, lo: 0 }));
    assert!(!le_wide(Wide { hi: 1, lo: 1 }, Wide { hi: 1, lo: 0 }));
    let difference = sub_wide(Wide { hi: 2, lo: 5 }, Wide { hi: 0, lo: 7 });
    assert_eq!((difference.hi, difference.lo), (1, u128::MAX - 1));
    let difference = sub_wide(Wide { hi: 2, lo: 7 }, Wide { hi: 1, lo: 5 });
    assert_eq!((difference.hi, difference.lo), (1, 2));
    assert_eq!(isqrt_wide(Wide { hi: 0, lo: 0 }), 0);
    assert_eq!(isqrt_wide(Wide { hi: 0, lo: 3 }), 1);
    assert_eq!(isqrt_wide(Wide { hi: 0, lo: 9_999 }), 99);
    assert_eq!(isqrt_wide(Wide { hi: 0, lo: 10_000 }), 100);
    assert_eq!(isqrt_wide(Wide { hi: 1, lo: 0 }), 0x1_0000_0000_0000_0000);
    assert_eq!(isqrt_wide(Wide { hi: 0, lo: u128::MAX }), 0xffff_ffff_ffff_ffff);
    assert_eq!(isqrt_wide(Wide { hi: u128::MAX - 1, lo: 0 }), u128::MAX - 1);
    assert_eq!(isqrt_wide(Wide { hi: u128::MAX - 1, lo: 1 }), u128::MAX);
    assert_eq!(isqrt_wide(Wide { hi: u128::MAX, lo: u128::MAX }), u128::MAX);
}

#[test]
fn nearly_even_spacing_is_not_perfectly_stable() {
    // intervals 500 and 501: deviation half a millisecond over a mean of 500.5
    let rhythm = extract_rhythm_pattern(&onsets(vec![0, 500, 1_001]));
    assert_eq!(rhythm.tempo_stability, 999_001);
    // intervals 10, 11, 10, 11: 1 / (1 + 0.5 / 10.5) = 0.9545...
    let rhythm = extract_rhythm_pattern(&onsets(vec![0, 10, 21, 31, 42]));
    assert_eq!(rhythm.avg_interval, 10);
    assert_eq!(rhythm.tempo_stability, 954_545);
    // two onsets leave one interval and no stability
    let rhythm = extract_rhythm_pattern(&onsets(vec![0, 1_100]));
    assert_eq!(rhythm.tempo_stability, 0);
    // intervals under a millisecond apart in the mean still count
    let rhythm = extract_rhythm_pattern(&onsets(vec![0, 0, 1, 1]));
    assert_eq!(rhythm.inter_onset_intervals, vec![0, 1, 0]);
    assert_eq!(rhythm.avg_interval, 0);
    // sum 1, squares 1: 1 / (1 + sqrt(3 - 1)), the root rounded down to 1
    assert_eq!(rhythm.tempo_stability, 500_000);
}
