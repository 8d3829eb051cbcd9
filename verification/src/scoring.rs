//! Alignment of a played performance with its reference, and its scores.
//!
//! Each reference note is answered by the played note that starts nearest to
//! it in time, the first of them where several are as near, if that note
//! starts within the window. One played note may answer several reference
//! notes.

use vstd::prelude::*;
use crate::comparison::{
    note_views, pitch_error_views, string_views, timing_error_views, ComparisonMetrics,
    MetricsView, NoteSequence, NoteView, PitchError, PitchErrorView, RhythmPattern, RhythmView,
    TimingError, TimingErrorView, FULL_SCORE,
};
use crate::pitch::{pitch_difference_cents, spec_pitch_difference_cents};
use crate::text::{append_seconds, seconds_label};

verus! {

/// The furthest that an answer may start from its reference note, in
/// milliseconds.
pub const MATCH_WINDOW: u32 = 500;

/// The furthest that an answer may lie from the pitch of its reference note
/// and count as correct, in cents.
pub const PITCH_TOLERANCE: i32 = 50;

/// The furthest that an answer may start from its reference note without a
/// timing error, in milliseconds.
pub const TIMING_TOLERANCE: u32 = 50;

/// The least interval by which a difference of tempo is measured, in
/// milliseconds.
pub const TEMPO_FLOOR: u32 = 100;

/// The time between two moments.
pub open spec fn time_gap(a: u32, b: u32) -> int {
    if a >= b {
        a - b
    } else {
        b - a
    }
}

/// Among the first `n` played notes, the index of the one that starts
/// nearest to `time`, the first of them where several are as near.
pub open spec fn nearest_among(played: Seq<NoteView>, time: u32, n: int) -> int
    decreases n,
{
    if n <= 1 {
        0
    } else {
        let best = nearest_among(played, time, n - 1);
        if time_gap(played[n - 1].start_time, time) < time_gap(played[best].start_time, time) {
            n - 1
        } else {
            best
        }
    }
}

/// The index of the played note that starts nearest to `time`.
pub open spec fn nearest_note(played: Seq<NoteView>, time: u32) -> int {
    nearest_among(played, time, played.len() as int)
}

/// The index of the played note that answers a reference note starting at
/// `time`: the nearest one, where it starts within the window.
pub open spec fn answer_to(played: Seq<NoteView>, time: u32) -> Option<int> {
    let nearest = nearest_note(played, time);
    if played.len() > 0 && time_gap(played[nearest].start_time, time) <= MATCH_WINDOW {
        Some(nearest)
    } else {
        None
    }
}

/// The cents from the pitch of a reference note up to that of its answer.
pub open spec fn pitch_offset(reference: NoteView, answer: NoteView) -> int {
    spec_pitch_difference_cents(reference.avg_pitch_hz, answer.avg_pitch_hz)
}

/// Whether an answer is at the pitch of its reference note.
pub open spec fn is_pitch_correct(reference: NoteView, answer: NoteView) -> bool {
    -PITCH_TOLERANCE <= pitch_offset(reference, answer) <= PITCH_TOLERANCE
}

/// Among the first `n` reference notes, the number that are answered at the
/// right pitch.
pub open spec fn correct_among(reference: Seq<NoteView>, played: Seq<NoteView>, n: int) -> int
    decreases n,
{
    if n <= 0 {
        0
    } else {
        let before = correct_among(reference, played, n - 1);
        match answer_to(played, reference[n - 1].start_time) {
            Some(j) => if is_pitch_correct(reference[n - 1], played[j]) {
                before + 1
            } else {
                before
            },
            None => before,
        }
    }
}

/// The record of a reference note that `answer` answers at the wrong pitch.
pub open spec fn pitch_error_of(reference: NoteView, answer: NoteView) -> PitchErrorView {
    PitchErrorView {
        time: reference.start_time,
        expected_note: reference.note_name,
        played_note: answer.note_name,
        cent_difference: pitch_offset(reference, answer) as i32,
    }
}

/// The pitch errors among the first `n` reference notes, in their order.
pub open spec fn pitch_errors_among(
    reference: Seq<NoteView>,
    played: Seq<NoteView>,
    n: int,
) -> Seq<PitchErrorView>
    decreases n,
{
    if n <= 0 {
        Seq::empty()
    } else {
        let before = pitch_errors_among(reference, played, n - 1);
        match answer_to(played, reference[n - 1].start_time) {
            Some(j) => if is_pitch_correct(reference[n - 1], played[j]) {
                before
            } else {
                before.push(pitch_error_of(reference[n - 1], played[j]))
            },
            None => before,
        }
    }
}

/// The share of the reference notes that are answered at the right pitch;
/// zero where either performance has no note.
pub open spec fn note_accuracy_of(reference: Seq<NoteView>, played: Seq<NoteView>) -> int {
    if reference.len() == 0 || played.len() == 0 {
        0
    } else {
        correct_among(reference, played, reference.len() as int) * FULL_SCORE / (
        reference.len() as int)
    }
}

/// The pitch errors of a comparison; none where either performance has no
/// note.
pub open spec fn pitch_errors_of(reference: Seq<NoteView>, played: Seq<NoteView>) -> Seq<
    PitchErrorView,
> {
    if reference.len() == 0 || played.len() == 0 {
        Seq::empty()
    } else {
        pitch_errors_among(reference, played, reference.len() as int)
    }
}

/// The cents of the errors, each without its sign, summed.
pub open spec fn absolute_cents(errors: Seq<PitchErrorView>) -> int
    decreases errors.len(),
{
    if errors.len() == 0 {
        0
    } else {
        let c = errors.last().cent_difference as int;
        absolute_cents(errors.drop_last()) + (if c < 0 {
            -c
        } else {
            c
        })
    }
}

/// What is left of a perfect score after a penalty.
pub open spec fn score_less(penalty: int) -> int {
    if penalty >= FULL_SCORE {
        0
    } else if penalty <= 0 {
        FULL_SCORE as int
    } else {
        FULL_SCORE - penalty
    }
}

/// The accuracy of pitch: perfect without errors, else one less a hundredth
/// of the mean error in cents, and no less than zero.
pub open spec fn pitch_accuracy_of(errors: Seq<PitchErrorView>) -> int {
    if errors.len() == 0 {
        FULL_SCORE as int
    } else {
        score_less(absolute_cents(errors) * 10_000 / (errors.len() as int))
    }
}

/// Among the first `n` reference notes, the gaps in time between each
/// answered note and its answer, summed.
pub open spec fn answered_gaps(reference: Seq<NoteView>, played: Seq<NoteView>, n: int) -> int
    decreases n,
{
    if n <= 0 {
        0
    } else {
        let before = answered_gaps(reference, played, n - 1);
        match answer_to(played, reference[n - 1].start_time) {
            Some(j) => before + time_gap(played[j].start_time, reference[n - 1].start_time),
            None => before,
        }
    }
}

/// The record of a reference note that `answer` answers off its time.
pub open spec fn timing_error_of(reference: NoteView, answer: NoteView) -> TimingErrorView {
    TimingErrorView {
        note: reference.note_name,
        expected_time: reference.start_time,
        played_time: answer.start_time,
        ms_difference: time_gap(answer.start_time, reference.start_time) as u32,
    }
}

/// The timing errors among the first `n` reference notes, in their order.
pub open spec fn timing_errors_among(
    reference: Seq<NoteView>,
    played: Seq<NoteView>,
    n: int,
) -> Seq<TimingErrorView>
    decreases n,
{
    if n <= 0 {
        Seq::empty()
    } else {
        let before = timing_errors_among(reference, played, n - 1);
        match answer_to(played, reference[n - 1].start_time) {
            Some(j) => if time_gap(played[j].start_time, reference[n - 1].start_time)
                > TIMING_TOLERANCE {
                before.push(timing_error_of(reference[n - 1], played[j]))
            } else {
                before
            },
            None => before,
        }
    }
}

/// The accuracy of timing: one less the mean gap over the window, the mean
/// taken over all reference notes; zero where either performance has no
/// note.
pub open spec fn timing_accuracy_of(reference: Seq<NoteView>, played: Seq<NoteView>) -> int {
    if reference.len() == 0 || played.len() == 0 {
        0
    } else {
        score_less(
            answered_gaps(reference, played, reference.len() as int) * (FULL_SCORE / MATCH_WINDOW)
                / (reference.len() as int),
        )
    }
}

/// The timing errors of a comparison; none where either performance has no
/// note.
pub open spec fn timing_errors_of(reference: Seq<NoteView>, played: Seq<NoteView>) -> Seq<
    TimingErrorView,
> {
    if reference.len() == 0 || played.len() == 0 {
        Seq::empty()
    } else {
        timing_errors_among(reference, played, reference.len() as int)
    }
}

/// How alike two tempos are: one less the difference of the mean intervals
/// over the reference's, which counts as 100 ms at the least.
pub open spec fn tempo_similarity(reference: u32, played: u32) -> int {
    let base = if reference > TEMPO_FLOOR {
        reference
    } else {
        TEMPO_FLOOR
    };
    score_less(time_gap(reference, played) * FULL_SCORE / (base as int))
}

/// How alike two stabilities are: one less their difference.
pub open spec fn stability_similarity(reference: u32, played: u32) -> int {
    score_less(time_gap(reference, played))
}

/// The accuracy of rhythm: six parts likeness of tempo and four parts
/// likeness of stability; zero where either rhythm has no interval.
pub open spec fn rhythm_accuracy_of(reference: RhythmView, played: RhythmView) -> int {
    if reference.inter_onset_intervals.len() == 0 || played.inter_onset_intervals.len() == 0 {
        0
    } else {
        (6 * tempo_similarity(reference.avg_interval, played.avg_interval) + 4
            * stability_similarity(reference.tempo_stability, played.tempo_stability)) / 10
    }
}

/// Whether `other` may stand for `note`: it has the same name and starts
/// within the window.
pub open spec fn is_counterpart(note: NoteView, other: NoteView) -> bool {
    time_gap(other.start_time, note.start_time) <= MATCH_WINDOW && other.note_name
        == note.note_name
}

/// Whether any of `others` may stand for `note`.
pub open spec fn has_counterpart(note: NoteView, others: Seq<NoteView>) -> bool {
    exists|j: int| 0 <= j < others.len() && is_counterpart(note, #[trigger] others[j])
}

/// How a note is listed: its name and its start in seconds, as in
/// `A4 at 0.50s`.
pub open spec fn note_label(note: NoteView) -> Seq<char> {
    note.note_name + seq![' ', 'a', 't', ' '] + seconds_label(note.start_time) + seq!['s']
}

/// Among the first `n` of `notes`, the labels of those that none of `others`
/// may stand for, in their order.
pub open spec fn unanswered_among(notes: Seq<NoteView>, others: Seq<NoteView>, n: int) -> Seq<
    Seq<char>,
>
    decreases n,
{
    if n <= 0 {
        Seq::empty()
    } else {
        let before = unanswered_among(notes, others, n - 1);
        if has_counterpart(notes[n - 1], others) {
            before
        } else {
            before.push(note_label(notes[n - 1]))
        }
    }
}

/// The reference notes that no played note may stand for.
pub open spec fn missed_notes_of(reference: Seq<NoteView>, played: Seq<NoteView>) -> Seq<
    Seq<char>,
> {
    unanswered_among(reference, played, reference.len() as int)
}

/// The played notes that no reference note may stand for.
pub open spec fn extra_notes_of(reference: Seq<NoteView>, played: Seq<NoteView>) -> Seq<
    Seq<char>,
> {
    unanswered_among(played, reference, played.len() as int)
}

/// The overall similarity: 30 parts accuracy of notes, 25 of pitch, 25 of
/// timing and 20 of rhythm.
pub open spec fn overall_similarity_of(note: int, pitch: int, timing: int, rhythm: int) -> int {
    (30 * note + 25 * pitch + 25 * timing + 20 * rhythm) / 100
}

/// The report of the comparison of the notes `played`, with the rhythm
/// `played_rhythm`, against the notes `reference` with the rhythm
/// `reference_rhythm`.
pub open spec fn comparison_of(
    reference: Seq<NoteView>,
    played: Seq<NoteView>,
    reference_rhythm: RhythmView,
    played_rhythm: RhythmView,
) -> MetricsView {
    let pitch_errors = pitch_errors_of(reference, played);
    let note_accuracy = note_accuracy_of(reference, played);
    let pitch_accuracy = pitch_accuracy_of(pitch_errors);
    let timing_accuracy = timing_accuracy_of(reference, played);
    let rhythm_accuracy = rhythm_accuracy_of(reference_rhythm, played_rhythm);
    MetricsView {
        pitch_accuracy: pitch_accuracy as u32,
        rhythm_accuracy: rhythm_accuracy as u32,
        timing_accuracy: timing_accuracy as u32,
        note_accuracy: note_accuracy as u32,
        overall_similarity: overall_similarity_of(
            note_accuracy,
            pitch_accuracy,
            timing_accuracy,
            rhythm_accuracy,
        ) as u32,
        missed_notes: missed_notes_of(reference, played),
        extra_notes: extra_notes_of(reference, played),
        pitch_errors,
        timing_errors: timing_errors_of(reference, played),
    }
}

/// The nearest note is one of the notes, none is nearer, and none before it
/// is as near.
pub proof fn lemma_nearest_among(played: Seq<NoteView>, time: u32, n: int)
    requires
        1 <= n <= played.len(),
    ensures
        0 <= nearest_among(played, time, n) < n,
        forall|k: int|
            0 <= k < n ==> time_gap(played[nearest_among(played, time, n)].start_time, time)
                <= time_gap(#[trigger] played[k].start_time, time),
        forall|k: int|
            0 <= k < nearest_among(played, time, n) ==> time_gap(
                played[nearest_among(played, time, n)].start_time,
                time,
            ) < time_gap(#[trigger] played[k].start_time, time),
    decreases n,
{
    if n > 1 {
        lemma_nearest_among(played, time, n - 1);
    }
}

/// The gap between two moments, in milliseconds.
fn gap_between(a: u32, b: u32) -> (gap: u32)
    ensures
        gap == time_gap(a, b),
{
    if a >= b {
        a - b
    } else {
        b - a
    }
}

/// The index of the played note that starts nearest to `time`.
fn nearest(played: &Vec<NoteSequence>, time: u32) -> (best: usize)
    requires
        played.len() > 0,
    ensures
        best == nearest_note(note_views(played@), time),
        best < played.len(),
{
    let ghost views = note_views(played@);
    let mut best: usize = 0;
    let mut k: usize = 1;
    while k < played.len()
        invariant
            1 <= k <= played.len(),
            views == note_views(played@),
            best < k,
            best == nearest_among(views, time, k as int),
        decreases played.len() - k,
    {
        if gap_between(played[k].start_time, time) < gap_between(played[best].start_time, time) {
            best = k;
        }
        k = k + 1;
    }
    best
}

/// The index of the played note that answers a reference note starting at
/// `time`.
fn find_answer(played: &Vec<NoteSequence>, time: u32) -> (answer: Option<usize>)
    ensures
        answer is Some == answer_to(note_views(played@), time) is Some,
        answer matches Some(j) ==> answer_to(note_views(played@), time) == Some(j as int) && j
            < played.len(),
{
    if played.len() == 0 {
        return None;
    }
    let best: usize = nearest(played, time);
    if gap_between(played[best].start_time, time) <= MATCH_WINDOW {
        Some(best)
    } else {
        None
    }
}

/// Scores the notes: the share of reference notes answered at the right
/// pitch, and a record of each that is answered at a wrong one.
pub fn compare_note_sequences(reference: &Vec<NoteSequence>, player: &Vec<NoteSequence>) -> (r: (
    u32,
    Vec<PitchError>,
))
    ensures
        r.0 == note_accuracy_of(note_views(reference@), note_views(player@)),
        r.0 <= FULL_SCORE,
        pitch_error_views(r.1@) == pitch_errors_of(note_views(reference@), note_views(player@)),
{
    let mut pitch_errors: Vec<PitchError> = Vec::new();
    if reference.len() == 0 || player.len() == 0 {
        assert(pitch_error_views(pitch_errors@) =~= Seq::empty());
        return (0, pitch_errors);
    }
    let ghost rv = note_views(reference@);
    let ghost pv = note_views(player@);
    let n: usize = reference.len();
    let mut correct: usize = 0;
    let mut i: usize = 0;
    assert(pitch_error_views(pitch_errors@) =~= Seq::empty());
    while i < n
        invariant
            n == reference.len(),
            0 <= i <= n,
            rv == note_views(reference@),
            pv == note_views(player@),
            correct <= i,
            correct == correct_among(rv, pv, i as int),
            pitch_error_views(pitch_errors@) == pitch_errors_among(rv, pv, i as int),
        decreases n - i,
    {
        let ref_note = &reference[i];
        match find_answer(player, ref_note.start_time) {
            Some(j) => {
                let player_note = &player[j];
                let cents: i32 = pitch_difference_cents(
                    ref_note.avg_pitch_hz,
                    player_note.avg_pitch_hz,
                );
                if -PITCH_TOLERANCE <= cents && cents <= PITCH_TOLERANCE {
                    correct = correct + 1;
                } else {
                    let error = PitchError {
                        time: ref_note.start_time,
                        expected_note: ref_note.note_name.clone(),
                        played_note: player_note.note_name.clone(),
                        cent_difference: cents,
                    };
                    let ghost before = pitch_errors@;
                    pitch_errors.push(error);
                    assert(pitch_error_views(pitch_errors@) =~= pitch_error_views(before).push(
                        pitch_error_of(rv[i as int], pv[j as int]),
                    ));
                }
            },
            None => {},
        }
        i = i + 1;
    }
    let accuracy: u128 = (correct as u128) * (FULL_SCORE as u128) / (n as u128);
    assert(accuracy <= FULL_SCORE) by (nonlinear_arith)
        requires
            accuracy == (correct * FULL_SCORE) / (n as int),
            0 <= correct <= n,
            n > 0,
    ;
    (accuracy as u32, pitch_errors)
}

/// A perfect score less `penalty`, and no less than zero.
fn score_after(penalty: u128) -> (score: u32)
    ensures
        score == score_less(penalty as int),
        score <= FULL_SCORE,
{
    if penalty >= FULL_SCORE as u128 {
        0
    } else {
        FULL_SCORE - penalty as u32
    }
}

/// The cents of the errors, each without its sign, are at most 2^31 each.
proof fn lemma_absolute_cents_bound(errors: Seq<PitchErrorView>)
    ensures
        0 <= absolute_cents(errors) <= errors.len() * 0x8000_0000,
    decreases errors.len(),
{
    if errors.len() > 0 {
        lemma_absolute_cents_bound(errors.drop_last());
        assert((errors.len() - 1) * 0x8000_0000 + 0x8000_0000 == errors.len() * 0x8000_0000)
            by (nonlinear_arith);
    }
}

/// Scores the pitch from the errors found: perfect without errors, else one
/// less a hundredth of the mean error in cents.
pub fn calculate_pitch_accuracy(pitch_errors: &Vec<PitchError>) -> (accuracy: u32)
    ensures
        accuracy == pitch_accuracy_of(pitch_error_views(pitch_errors@)),
        accuracy <= FULL_SCORE,
{
    let n: usize = pitch_errors.len();
    if n == 0 {
        return FULL_SCORE;
    }
    let ghost views = pitch_error_views(pitch_errors@);
    let mut total: u128 = 0;
    let mut i: usize = 0;
    while i < n
        invariant
            n == pitch_errors.len(),
            0 <= i <= n,
            views == pitch_error_views(pitch_errors@),
            total == absolute_cents(views.take(i as int)),
            total <= i * 0x8000_0000,
        decreases n - i,
    {
        let c: i32 = pitch_errors[i].cent_difference;
        let magnitude: u32 = if c < 0 {
            (-(c as i64)) as u32
        } else {
            c as u32
        };
        proof {
            assert(views.take(i + 1).drop_last() =~= views.take(i as int));
            assert(i * 0x8000_0000 + 0x8000_0000 == (i + 1) * 0x8000_0000) by (nonlinear_arith);
            assert((i + 1) * 0x8000_0000 <= usize::MAX * 0x8000_0000) by (nonlinear_arith)
                requires
                    i + 1 <= usize::MAX,
            ;
        }
        total = total + magnitude as u128;
        i = i + 1;
    }
    proof {
        assert(views.take(n as int) =~= views);
        assert(total * 10_000 <= usize::MAX * 0x8000_0000 * 10_000) by (nonlinear_arith)
            requires
                total <= n * 0x8000_0000,
                n <= usize::MAX,
        ;
    }
    score_after(total * 10_000 / (n as u128))
}

/// The gaps of the answered notes are at most the window each.
proof fn lemma_answered_gaps_bound(reference: Seq<NoteView>, played: Seq<NoteView>, n: int)
    requires
        0 <= n <= reference.len(),
    ensures
        0 <= answered_gaps(reference, played, n) <= n * MATCH_WINDOW,
    decreases n,
{
    if n > 0 {
        lemma_answered_gaps_bound(reference, played, n - 1);
        assert((n - 1) * MATCH_WINDOW + MATCH_WINDOW == n * MATCH_WINDOW) by (nonlinear_arith);
    }
}

/// Scores the timing: one less the mean gap between a reference note and
/// its answer over the window, and a record of each answer that is more than
/// 50 ms off.
pub fn compare_timing(reference: &Vec<NoteSequence>, player: &Vec<NoteSequence>) -> (r: (
    u32,
    Vec<TimingError>,
))
    ensures
        r.0 == timing_accuracy_of(note_views(reference@), note_views(player@)),
        r.0 <= FULL_SCORE,
        timing_error_views(r.1@) == timing_errors_of(note_views(reference@), note_views(player@)),
{
    let mut timing_errors: Vec<TimingError> = Vec::new();
    assert(timing_error_views(timing_errors@) =~= Seq::empty());
    if reference.len() == 0 || player.len() == 0 {
        return (0, timing_errors);
    }
    let ghost rv = note_views(reference@);
    let ghost pv = note_views(player@);
    let n: usize = reference.len();
    let mut total: u128 = 0;
    let mut i: usize = 0;
    while i < n
        invariant
            n == reference.len(),
            0 <= i <= n,
            rv == note_views(reference@),
            pv == note_views(player@),
            total == answered_gaps(rv, pv, i as int),
            timing_error_views(timing_errors@) == timing_errors_among(rv, pv, i as int),
        decreases n - i,
    {
        proof {
            lemma_answered_gaps_bound(rv, pv, i as int);
            lemma_answered_gaps_bound(rv, pv, i + 1);
            assert((i + 1) * MATCH_WINDOW <= usize::MAX * MATCH_WINDOW) by (nonlinear_arith)
                requires
                    i + 1 <= usize::MAX,
            ;
        }
        let ref_note = &reference[i];
        match find_answer(player, ref_note.start_time) {
            Some(j) => {
                let player_note = &player[j];
                let gap: u32 = gap_between(player_note.start_time, ref_note.start_time);
                total = total + gap as u128;
                if gap > TIMING_TOLERANCE {
                    let error = TimingError {
                        note: ref_note.note_name.clone(),
                        expected_time: ref_note.start_time,
                        played_time: player_note.start_time,
                        ms_difference: gap,
                    };
                    let ghost before = timing_errors@;
                    timing_errors.push(error);
                    assert(timing_error_views(timing_errors@) =~= timing_error_views(before).push(
                        timing_error_of(rv[i as int], pv[j as int]),
                    ));
                }
            },
            None => {},
        }
        i = i + 1;
    }
    proof {
        lemma_answered_gaps_bound(rv, pv, n as int);
        assert(total * 2000 <= usize::MAX * MATCH_WINDOW * 2000) by (nonlinear_arith)
            requires
                total <= n * MATCH_WINDOW,
                n <= usize::MAX,
        ;
    }
    let accuracy: u32 = score_after(total * (FULL_SCORE / MATCH_WINDOW) as u128 / (n as u128));
    (accuracy, timing_errors)
}

/// Scores the rhythm: six parts likeness of tempo, four parts likeness of
/// stability.
pub fn compare_rhythm(reference: &RhythmPattern, player: &RhythmPattern) -> (accuracy: u32)
    ensures
        accuracy == rhythm_accuracy_of(reference@, player@),
        accuracy <= FULL_SCORE,
{
    if reference.inter_onset_intervals.len() == 0 || player.inter_onset_intervals.len() == 0 {
        return 0;
    }
    let tempo_diff: u32 = gap_between(reference.avg_interval, player.avg_interval);
    let base: u32 = if reference.avg_interval > TEMPO_FLOOR {
        reference.avg_interval
    } else {
        TEMPO_FLOOR
    };
    assert(tempo_diff * FULL_SCORE <= u32::MAX * FULL_SCORE) by (nonlinear_arith)
        requires
            tempo_diff <= u32::MAX,
    ;
    let tempo: u32 = score_after((tempo_diff as u128) * (FULL_SCORE as u128) / (base as u128));
    let stability: u32 = score_after(
        gap_between(reference.tempo_stability, player.tempo_stability) as u128,
    );
    (6 * tempo + 4 * stability) / 10
}

/// The label under which a note is listed.
fn label_of(note: &NoteSequence) -> (label: String)
    ensures
        label@ == note_label(note@),
{
    let mut label = note.note_name.clone();
    proof {
        reveal_strlit(" at ");
        reveal_strlit("s");
    }
    label.append(" at ");
    append_seconds(&mut label, note.start_time);
    label.append("s");
    assert(label@ =~= note_label(note@));
    label
}

/// Whether any of `others` may stand for `note`.
fn find_counterpart(note: &NoteSequence, others: &Vec<NoteSequence>) -> (found: bool)
    ensures
        found == has_counterpart(note@, note_views(others@)),
{
    let ghost views = note_views(others@);
    let mut k: usize = 0;
    while k < others.len()
        invariant
            0 <= k <= others.len(),
            views == note_views(others@),
            forall|j: int| 0 <= j < k ==> !is_counterpart(note@, #[trigger] views[j]),
        decreases others.len() - k,
    {
        let other = &others[k];
        if gap_between(other.start_time, note.start_time) <= MATCH_WINDOW && other.note_name
            == note.note_name {
            assert(is_counterpart(note@, views[k as int]));
            return true;
        }
        k = k + 1;
    }
    false
}

/// The labels of those of `notes` that none of `others` may stand for.
fn unanswered(notes: &Vec<NoteSequence>, others: &Vec<NoteSequence>) -> (labels: Vec<String>)
    ensures
        string_views(labels@) == unanswered_among(
            note_views(notes@),
            note_views(others@),
            notes.len() as int,
        ),
{
    let ghost nv = note_views(notes@);
    let ghost ov = note_views(others@);
    let mut labels: Vec<String> = Vec::new();
    assert(string_views(labels@) =~= Seq::empty());
    let mut i: usize = 0;
    while i < notes.len()
        invariant
            0 <= i <= notes.len(),
            nv == note_views(notes@),
            ov == note_views(others@),
            string_views(labels@) == unanswered_among(nv, ov, i as int),
        decreases notes.len() - i,
    {
        if !find_counterpart(&notes[i], others) {
            let ghost before = labels@;
            labels.push(label_of(&notes[i]));
            assert(string_views(labels@) =~= string_views(before).push(note_label(nv[i as int])));
        }
        i = i + 1;
    }
    labels
}

/// Lists the notes that went amiss: first the reference notes that no played
/// note of the same name starts within the window of, then the played notes
/// that no reference note does.
pub fn find_note_differences(reference: &Vec<NoteSequence>, player: &Vec<NoteSequence>) -> (r: (
    Vec<String>,
    Vec<String>,
))
    ensures
        string_views(r.0@) == missed_notes_of(note_views(reference@), note_views(player@)),
        string_views(r.1@) == extra_notes_of(note_views(reference@), note_views(player@)),
{
    (unanswered(reference, player), unanswered(player, reference))
}

/// The overall similarity of four scores is a score.
pub proof fn lemma_overall_similarity_bound(note: int, pitch: int, timing: int, rhythm: int)
    requires
        0 <= note <= FULL_SCORE,
        0 <= pitch <= FULL_SCORE,
        0 <= timing <= FULL_SCORE,
        0 <= rhythm <= FULL_SCORE,
    ensures
        0 <= overall_similarity_of(note, pitch, timing, rhythm) <= FULL_SCORE,
{
}

/// Compares the notes and the rhythm of a played performance with those of
/// its reference.
pub fn compare_sequences(
    reference: &Vec<NoteSequence>,
    player: &Vec<NoteSequence>,
    reference_rhythm: &RhythmPattern,
    player_rhythm: &RhythmPattern,
) -> (metrics: ComparisonMetrics)
    ensures
        metrics@ == comparison_of(
            note_views(reference@),
            note_views(player@),
            reference_rhythm@,
            player_rhythm@,
        ),
        metrics.pitch_accuracy <= FULL_SCORE,
        metrics.rhythm_accuracy <= FULL_SCORE,
        metrics.timing_accuracy <= FULL_SCORE,
        metrics.note_accuracy <= FULL_SCORE,
        metrics.overall_similarity <= FULL_SCORE,
{
    let (note_accuracy, pitch_errors) = compare_note_sequences(reference, player);
    let (timing_accuracy, timing_errors) = compare_timing(reference, player);
    let rhythm_accuracy: u32 = compare_rhythm(reference_rhythm, player_rhythm);
    let pitch_accuracy: u32 = calculate_pitch_accuracy(&pitch_errors);
    let (missed_notes, extra_notes) = find_note_differences(reference, player);
    let overall_similarity: u32 = (30 * note_accuracy + 25 * pitch_accuracy + 25 * timing_accuracy
        + 20 * rhythm_accuracy) / 100;
    ComparisonMetrics {
        pitch_accuracy,
        rhythm_accuracy,
        timing_accuracy,
        note_accuracy,
        overall_similarity,
        missed_notes,
        extra_notes,
        pitch_errors,
        timing_errors,
    }
}

/// Notes of which no two start at the same time.
pub open spec fn distinct_starts(notes: Seq<NoteView>) -> bool {
    forall|i: int, j: int|
        0 <= i < j < notes.len() ==> (#[trigger] notes[i]).start_time != (
        #[trigger] notes[j]).start_time
}

/// Among notes that start at different times, each is the nearest to its
/// own start, and so its own answer.
pub proof fn lemma_own_answer(notes: Seq<NoteView>, i: int)
    requires
        distinct_starts(notes),
        0 <= i < notes.len(),
    ensures
        answer_to(notes, notes[i].start_time) == Some(i),
{
    let time = notes[i].start_time;
    lemma_nearest_among(notes, time, notes.len() as int);
    let b = nearest_note(notes, time);
    assert(time_gap(notes[b].start_time, time) <= time_gap(notes[i].start_time, time));
    if b < i {
        assert(notes[b].start_time != notes[i].start_time);
    } else if i < b {
        assert(notes[i].start_time != notes[b].start_time);
    }
}

/// A performance compared with itself, where no two of its notes start at
/// the same time: every note is answered by itself, at its own pitch and
/// time.
proof fn lemma_self_among(notes: Seq<NoteView>, n: int)
    requires
        distinct_starts(notes),
        0 <= n <= notes.len(),
    ensures
        correct_among(notes, notes, n) == n,
        pitch_errors_among(notes, notes, n) == Seq::<PitchErrorView>::empty(),
        answered_gaps(notes, notes, n) == 0,
        timing_errors_among(notes, notes, n) == Seq::<TimingErrorView>::empty(),
    decreases n,
{
    if n > 0 {
        lemma_self_among(notes, n - 1);
        lemma_own_answer(notes, n - 1);
    }
}

/// Every note may stand for itself, so a performance compared with itself
/// has no note amiss.
proof fn lemma_self_unanswered(notes: Seq<NoteView>, n: int)
    requires
        0 <= n <= notes.len(),
    ensures
        unanswered_among(notes, notes, n) == Seq::<Seq<char>>::empty(),
    decreases n,
{
    if n > 0 {
        lemma_self_unanswered(notes, n - 1);
        assert(is_counterpart(notes[n - 1], notes[n - 1]));
    }
}

/// A performance compared with itself misses no note and has none extra.
pub proof fn lemma_nothing_amiss_with_itself(notes: Seq<NoteView>, rhythm: RhythmView)
    ensures
        comparison_of(notes, notes, rhythm, rhythm).missed_notes.len() == 0,
        comparison_of(notes, notes, rhythm, rhythm).extra_notes.len() == 0,
{
    lemma_self_unanswered(notes, notes.len() as int);
}

/// A performance of at least one note, no two starting at the same time,
/// compared with itself: notes, pitch and timing are perfect and without
/// errors. Where its rhythm has an interval, the rhythm and the overall
/// similarity are perfect too; where it has none, the accuracy of rhythm is
/// zero and the overall similarity is four fifths.
pub proof fn lemma_compared_with_itself(notes: Seq<NoteView>, rhythm: RhythmView)
    requires
        notes.len() > 0,
        distinct_starts(notes),
    ensures
        ({
            let metrics = comparison_of(notes, notes, rhythm, rhythm);
            &&& metrics.note_accuracy == FULL_SCORE
            &&& metrics.pitch_accuracy == FULL_SCORE
            &&& metrics.timing_accuracy == FULL_SCORE
            &&& metrics.pitch_errors.len() == 0
            &&& metrics.timing_errors.len() == 0
            &&& metrics.missed_notes.len() == 0
            &&& metrics.extra_notes.len() == 0
            &&& rhythm.inter_onset_intervals.len() > 0 ==> metrics.rhythm_accuracy == FULL_SCORE
                && metrics.overall_similarity == FULL_SCORE
            &&& rhythm.inter_onset_intervals.len() == 0 ==> metrics.rhythm_accuracy == 0
                && metrics.overall_similarity == 800_000
        }),
{
    let n = notes.len() as int;
    lemma_self_among(notes, n);
    lemma_self_unanswered(notes, n);
    assert(n * FULL_SCORE / n == FULL_SCORE) by (nonlinear_arith)
        requires
            n > 0,
    ;
    assert(0 * (FULL_SCORE / MATCH_WINDOW) / n == 0) by (nonlinear_arith)
        requires
            n > 0,
    ;
    if rhythm.inter_onset_intervals.len() > 0 {
        let base: int = if rhythm.avg_interval > TEMPO_FLOOR {
            rhythm.avg_interval as int
        } else {
            TEMPO_FLOOR as int
        };
        assert(0 * FULL_SCORE / base == 0) by (nonlinear_arith)
            requires
                base > 0,
        ;
    }
}

} // verus!
