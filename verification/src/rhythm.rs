//! The rhythm of a performance: the spacing of its onsets and how steady it
//! is.

use vstd::prelude::*;
use crate::audio_analysis::AnalysisResult;
use crate::comparison::{RhythmPattern, RhythmView, FULL_SCORE};
use crate::stats::{
    all_equal, int_sqrt, lemma_int_sqrt_exists, lemma_seq_mean_bound, lemma_seq_sum_bound,
    lemma_spread_below_squared_sum, lemma_spread_nonnegative, lemma_spread_zero_iff_equal, mean,
    seq_mean, seq_spread, seq_sum, spread_root, sum,
};

verus! {

/// The time from the onset `earlier` to the onset `later`; none where they
/// are out of order.
pub open spec fn interval_between(earlier: u32, later: u32) -> u32 {
    if later >= earlier {
        (later - earlier) as u32
    } else {
        0
    }
}

/// The intervals between neighbouring onsets; none for fewer than two
/// onsets.
pub open spec fn onset_intervals(onsets: Seq<u32>) -> Seq<u32> {
    if onsets.len() < 2 {
        Seq::empty()
    } else {
        Seq::new(
            (onsets.len() - 1) as nat,
            |i: int| interval_between(onsets[i], onsets[i + 1]),
        )
    }
}

/// How steady the intervals are, from 0 to `FULL_SCORE`.
///
/// For two intervals or more with a positive sum it is `1 / (1 + cv)`, where
/// `cv` is the standard deviation over the mean. With `S` the sum of the
/// intervals, `Q` the sum of their squares and `n` their number, the mean is
/// `S / n` and the deviation `sqrt(n * Q - S * S) / n`, so that it is
/// `S / (S + sqrt(n * Q - S * S))`. The root is rounded down to a whole
/// number, and so is the result in millionths. Otherwise it is 0.
pub open spec fn tempo_stability_of(intervals: Seq<u32>) -> int {
    let total = seq_sum(intervals);
    if total > 0 && intervals.len() > 1 {
        FULL_SCORE * total / (total + int_sqrt(seq_spread(intervals)))
    } else {
        0
    }
}

/// The rhythm of a performance with the given onsets: the onsets, the
/// intervals between them, the mean interval, and how steady they are.
pub open spec fn rhythm_of(onsets: Seq<u32>) -> RhythmView {
    let intervals = onset_intervals(onsets);
    RhythmView {
        onset_times: onsets,
        inter_onset_intervals: intervals,
        avg_interval: seq_mean(intervals) as u32,
        tempo_stability: tempo_stability_of(intervals) as u32,
    }
}

/// The stability of any intervals is a score.
pub proof fn lemma_tempo_stability_bound(intervals: Seq<u32>)
    ensures
        0 <= tempo_stability_of(intervals) <= FULL_SCORE,
{
    let total = seq_sum(intervals);
    if total > 0 && intervals.len() > 1 {
        lemma_spread_nonnegative(intervals);
        lemma_int_sqrt_exists(seq_spread(intervals));
        let root = int_sqrt(seq_spread(intervals));
        assert(0 <= (FULL_SCORE * total) / (total + root) <= FULL_SCORE) by (nonlinear_arith)
            requires
                total > 0,
                root >= 0,
        ;
    }
}

/// The stability is perfect exactly when there are two intervals or more,
/// not all of them zero, and all of the same length.
pub proof fn lemma_perfectly_stable_iff_equal(intervals: Seq<u32>)
    ensures
        (tempo_stability_of(intervals) == FULL_SCORE) == (intervals.len() >= 2 && seq_sum(
            intervals,
        ) > 0 && all_equal(intervals)),
{
    let total = seq_sum(intervals);
    if total > 0 && intervals.len() > 1 {
        let spread = seq_spread(intervals);
        lemma_spread_nonnegative(intervals);
        lemma_spread_zero_iff_equal(intervals);
        lemma_int_sqrt_exists(spread);
        let root = int_sqrt(spread);
        if root == 0 {
            assert(spread == 0) by (nonlinear_arith)
                requires
                    root == 0,
                    0 <= spread < (root + 1) * (root + 1),
            ;
            assert((FULL_SCORE * total) / (total + 0) == FULL_SCORE) by (nonlinear_arith)
                requires
                    total > 0,
            ;
        } else {
            assert(spread >= 1) by (nonlinear_arith)
                requires
                    root >= 1,
                    root * root <= spread,
            ;
            assert((FULL_SCORE * total) / (total + root) < FULL_SCORE) by (nonlinear_arith)
                requires
                    total > 0,
                    root >= 1,
            ;
        }
    }
}

/// There is no stability at all exactly when there are fewer than two
/// intervals or all of them are zero; this for up to a million million
/// intervals, beyond which a stability may be less than a millionth.
pub proof fn lemma_unstable_iff_degenerate(intervals: Seq<u32>)
    requires
        intervals.len() <= 999_999 * 999_999,
    ensures
        (tempo_stability_of(intervals) == 0) == (intervals.len() < 2 || seq_sum(intervals) == 0),
{
    let total = seq_sum(intervals);
    lemma_seq_sum_bound(intervals);
    if total > 0 && intervals.len() > 1 {
        let spread = seq_spread(intervals);
        let n = intervals.len() as int;
        lemma_spread_nonnegative(intervals);
        lemma_spread_below_squared_sum(intervals);
        lemma_int_sqrt_exists(spread);
        let root = int_sqrt(spread);
        // root^2 <= spread <= n * total^2 <= (999_999 * total)^2
        assert(root <= 999_999 * total) by (nonlinear_arith)
            requires
                root >= 0,
                total > 0,
                root * root <= spread,
                spread <= n * (total * total),
                n <= 999_999 * 999_999,
        ;
        assert((FULL_SCORE * total) / (total + root) >= 1) by (nonlinear_arith)
            requires
                total > 0,
                0 <= root <= 999_999 * total,
                FULL_SCORE == 1_000_000,
        ;
    }
}

/// The rhythm of a recording, from its onsets.
pub fn extract_rhythm_pattern(analysis: &AnalysisResult) -> (pattern: RhythmPattern)
    ensures
        pattern@ == rhythm_of(analysis.onsets@),
        pattern.tempo_stability <= FULL_SCORE,
        analysis.onsets@.len() < 3 ==> pattern.tempo_stability == 0,
        pattern.tempo_stability == FULL_SCORE <==> pattern.inter_onset_intervals@.len() >= 2
            && seq_sum(pattern.inter_onset_intervals@) > 0 && all_equal(
            pattern.inter_onset_intervals@,
        ),
        pattern.inter_onset_intervals@.len() <= 999_999 * 999_999 ==> (pattern.tempo_stability == 0
            <==> pattern.inter_onset_intervals@.len() < 2 || seq_sum(
            pattern.inter_onset_intervals@,
        ) == 0),
{
    let n: usize = analysis.onsets.len();
    let mut onset_times: Vec<u32> = Vec::new();
    let mut i: usize = 0;
    while i < n
        invariant
            n == analysis.onsets.len(),
            0 <= i <= n,
            onset_times@ == analysis.onsets@.take(i as int),
        decreases n - i,
    {
        onset_times.push(analysis.onsets[i]);
        proof {
            assert(onset_times@ =~= analysis.onsets@.take(i + 1));
        }
        i = i + 1;
    }
    proof {
        assert(analysis.onsets@.take(n as int) =~= analysis.onsets@);
    }
    let mut intervals: Vec<u32> = Vec::new();
    let mut j: usize = 1;
    while j < n
        invariant
            n == analysis.onsets.len(),
            1 <= j,
            j <= n || j == 1,
            intervals@.len() == j - 1,
            forall|k: int|
                0 <= k < j - 1 ==> #[trigger] intervals@[k] == interval_between(
                    analysis.onsets@[k],
                    analysis.onsets@[k + 1],
                ),
        decreases n - j,
    {
        let earlier: u32 = analysis.onsets[j - 1];
        let later: u32 = analysis.onsets[j];
        let gap: u32 = if later >= earlier {
            later - earlier
        } else {
            0
        };
        intervals.push(gap);
        j = j + 1;
    }
    proof {
        assert(intervals@ =~= onset_intervals(analysis.onsets@));
        lemma_seq_mean_bound(intervals@);
        lemma_perfectly_stable_iff_equal(intervals@);
        if intervals@.len() <= 999_999 * 999_999 {
            lemma_unstable_iff_degenerate(intervals@);
        }
    }
    let avg_interval: u32 = mean(&intervals);
    let total: u128 = sum(&intervals);
    let tempo_stability: u32 = if total > 0 && intervals.len() > 1 {
        let root: u128 = spread_root(&intervals);
        proof {
            assert(total * FULL_SCORE <= usize::MAX * u32::MAX * FULL_SCORE) by (nonlinear_arith)
                requires
                    total <= intervals@.len() * u32::MAX,
                    intervals@.len() <= usize::MAX,
            ;
        }
        let stability: u128 = (FULL_SCORE as u128) * total / (total + root);
        assert(stability <= FULL_SCORE) by (nonlinear_arith)
            requires
                stability == (FULL_SCORE * total) / (total + root),
                total > 0,
                root >= 0,
        ;
        stability as u32
    } else {
        0
    };
    RhythmPattern { onset_times, inter_onset_intervals: intervals, avg_interval, tempo_stability }
}

/// The sum of equal values is their number times the value.
proof fn lemma_sum_of_equal(values: Seq<u32>, value: u32)
    requires
        forall|i: int| 0 <= i < values.len() ==> values[i] == value,
    ensures
        seq_sum(values) == values.len() * value,
    decreases values.len(),
{
    if values.len() > 0 {
        lemma_sum_of_equal(values.drop_last(), value);
        assert((values.len() - 1) * value + value == values.len() * value) by (nonlinear_arith);
    }
}

/// Intervals that are all the same positive length, two of them or more, are
/// perfectly steady.
pub proof fn lemma_equal_intervals_are_stable(intervals: Seq<u32>, spacing: u32)
    requires
        intervals.len() >= 2,
        spacing > 0,
        forall|i: int| 0 <= i < intervals.len() ==> intervals[i] == spacing,
    ensures
        seq_mean(intervals) == spacing,
        tempo_stability_of(intervals) == FULL_SCORE,
{
    let n = intervals.len() as int;
    lemma_sum_of_equal(intervals, spacing);
    assert((n * spacing) / n == spacing) by (nonlinear_arith)
        requires
            n > 0,
    ;
    assert(n * spacing > 0) by (nonlinear_arith)
        requires
            n > 0,
            spacing > 0,
    ;
    assert(all_equal(intervals));
    lemma_perfectly_stable_iff_equal(intervals);
}

/// Onsets at an even positive spacing, three of them or more, make a
/// perfectly steady rhythm.
pub proof fn lemma_even_onsets_are_stable(onsets: Seq<u32>, spacing: u32)
    requires
        onsets.len() >= 3,
        spacing > 0,
        forall|i: int| 0 <= i < onsets.len() - 1 ==> onsets[i + 1] == #[trigger] onsets[i] + spacing,
    ensures
        seq_mean(onset_intervals(onsets)) == spacing,
        tempo_stability_of(onset_intervals(onsets)) == FULL_SCORE,
{
    lemma_equal_intervals_are_stable(onset_intervals(onsets), spacing);
}

/// Fewer than three onsets leave fewer than two intervals, and no
/// stability.
pub proof fn lemma_few_onsets_are_unstable(onsets: Seq<u32>)
    requires
        onsets.len() < 3,
    ensures
        tempo_stability_of(onset_intervals(onsets)) == 0,
{
}

} // verus!
