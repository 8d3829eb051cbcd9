//! What holds of a comparison when a note is left out of the played
//! performance.

use vstd::prelude::*;
use crate::comparison::{NoteView, RhythmView, FULL_SCORE};
use crate::scoring::{
    answer_to, answered_gaps, comparison_of, correct_among, distinct_starts, has_counterpart,
    is_counterpart, is_pitch_correct, lemma_compared_with_itself, lemma_nearest_among,
    lemma_own_answer, nearest_note, note_accuracy_of, note_label, pitch_accuracy_of,
    pitch_errors_of, rhythm_accuracy_of, score_less, time_gap, timing_accuracy_of,
    unanswered_among, MATCH_WINDOW,
};

verus! {

/// The place in `notes.remove(k)` of the note at `i` in `notes`, for an `i`
/// other than `k`.
pub open spec fn place_without(k: int, i: int) -> int {
    if i < k {
        i
    } else {
        i - 1
    }
}

/// Leaving a note out keeps the starts of the others distinct.
proof fn lemma_remove_keeps_distinct(notes: Seq<NoteView>, k: int)
    requires
        distinct_starts(notes),
        0 <= k < notes.len(),
    ensures
        distinct_starts(notes.remove(k)),
{
    let rest = notes.remove(k);
    assert forall|i: int, j: int| 0 <= i < j < rest.len() implies (#[trigger] rest[i]).start_time
        != (#[trigger] rest[j]).start_time by {
        let a = if i < k {
            i
        } else {
            i + 1
        };
        let b = if j < k {
            j
        } else {
            j + 1
        };
        assert(rest[i] == notes[a]);
        assert(rest[j] == notes[b]);
        assert(notes[a].start_time != notes[b].start_time);
    }
}

/// With the note at `k` left out, every other note is still answered by
/// itself.
proof fn lemma_others_answer_themselves(notes: Seq<NoteView>, k: int, i: int)
    requires
        distinct_starts(notes),
        0 <= k < notes.len(),
        0 <= i < notes.len(),
        i != k,
    ensures
        answer_to(notes.remove(k), notes[i].start_time) == Some(place_without(k, i)),
        notes.remove(k)[place_without(k, i)] == notes[i],
{
    lemma_remove_keeps_distinct(notes, k);
    lemma_own_answer(notes.remove(k), place_without(k, i));
}

/// With the note at `k` left out, what answers it starts at another time.
proof fn lemma_left_out_answer_is_off(notes: Seq<NoteView>, k: int)
    requires
        distinct_starts(notes),
        0 <= k < notes.len(),
    ensures
        answer_to(notes.remove(k), notes[k].start_time) matches Some(j) ==> 0 <= j
            < notes.remove(k).len() && time_gap(
            notes.remove(k)[j].start_time,
            notes[k].start_time,
        ) >= 1,
{
    let rest = notes.remove(k);
    if rest.len() > 0 {
        lemma_nearest_among(rest, notes[k].start_time, rest.len() as int);
        let j = nearest_note(rest, notes[k].start_time);
        let b = if j < k {
            j
        } else {
            j + 1
        };
        assert(rest[j] == notes[b]);
        if b < k {
            assert(notes[b].start_time != notes[k].start_time);
        } else {
            assert(notes[k].start_time != notes[b].start_time);
        }
    }
}

/// Whether the note at `k` of `notes` is answered at its own pitch once it
/// is left out of the played performance.
pub open spec fn left_out_answered_right(notes: Seq<NoteView>, k: int) -> bool {
    match answer_to(notes.remove(k), notes[k].start_time) {
        Some(j) => is_pitch_correct(notes[k], notes.remove(k)[j]),
        None => false,
    }
}

/// The time between the note at `k` and what answers it once it is left
/// out; zero where nothing does.
pub open spec fn left_out_gap(notes: Seq<NoteView>, k: int) -> int {
    match answer_to(notes.remove(k), notes[k].start_time) {
        Some(j) => time_gap(notes.remove(k)[j].start_time, notes[k].start_time),
        None => 0,
    }
}

/// The counts of a comparison with the note at `k` left out, among the first
/// `n` reference notes.
proof fn lemma_counts_without(notes: Seq<NoteView>, k: int, n: int)
    requires
        distinct_starts(notes),
        0 <= k < notes.len(),
        0 <= n <= notes.len(),
    ensures
        correct_among(notes, notes.remove(k), n) == (if n <= k {
            n
        } else if left_out_answered_right(notes, k) {
            n
        } else {
            n - 1
        }),
        answered_gaps(notes, notes.remove(k), n) == (if n <= k {
            0
        } else {
            left_out_gap(notes, k)
        }),
    decreases n,
{
    if n > 0 {
        lemma_counts_without(notes, k, n - 1);
        if n - 1 != k {
            lemma_others_answer_themselves(notes, k, n - 1);
            lemma_same_pitch_is_correct(notes[n - 1]);
        }
    }
}

/// A note is at its own pitch.
proof fn lemma_same_pitch_is_correct(note: NoteView)
    ensures
        is_pitch_correct(note, note),
{
}

/// With the note at `k` left out, the first `n` reference notes hold one
/// that nothing may stand for, that note, if none of the others may.
proof fn lemma_missed_without(notes: Seq<NoteView>, k: int, n: int)
    requires
        0 <= k < notes.len(),
        0 <= n <= notes.len(),
        !has_counterpart(notes[k], notes.remove(k)),
    ensures
        unanswered_among(notes, notes.remove(k), n) == (if n <= k {
            Seq::<Seq<char>>::empty()
        } else {
            seq![note_label(notes[k])]
        }),
    decreases n,
{
    if n > 0 {
        lemma_missed_without(notes, k, n - 1);
        if n - 1 != k {
            let rest = notes.remove(k);
            assert(rest[place_without(k, n - 1)] == notes[n - 1]);
            assert(is_counterpart(notes[n - 1], rest[place_without(k, n - 1)]));
        } else {
            assert(Seq::<Seq<char>>::empty().push(note_label(notes[k])) =~= seq![
                note_label(notes[k]),
            ]);
        }
    }
}

/// With the note at `k` left out, every played note has a reference note to
/// stand for it: itself.
proof fn lemma_extra_without(notes: Seq<NoteView>, k: int, n: int)
    requires
        0 <= k < notes.len(),
        0 <= n <= notes.len() - 1,
    ensures
        unanswered_among(notes.remove(k), notes, n) == Seq::<Seq<char>>::empty(),
    decreases n,
{
    if n > 0 {
        lemma_extra_without(notes, k, n - 1);
        let b = if n - 1 < k {
            n - 1
        } else {
            n
        };
        assert(notes.remove(k)[n - 1] == notes[b]);
        assert(is_counterpart(notes.remove(k)[n - 1], notes[b]));
    }
}

/// A note left out of the played performance, that none of the other notes
/// may stand for, is the one note missed, and no note is extra.
pub proof fn lemma_left_out_note_is_missed(
    notes: Seq<NoteView>,
    k: int,
    reference_rhythm: RhythmView,
    played_rhythm: RhythmView,
)
    requires
        0 <= k < notes.len(),
        !has_counterpart(notes[k], notes.remove(k)),
    ensures
        comparison_of(notes, notes.remove(k), reference_rhythm, played_rhythm).missed_notes
            == seq![note_label(notes[k])],
        comparison_of(notes, notes.remove(k), reference_rhythm, played_rhythm).extra_notes.len()
            == 0,
{
    lemma_missed_without(notes, k, notes.len() as int);
    lemma_extra_without(notes, k, notes.len() - 1);
}

/// Every score of a comparison lies between zero and one.
pub proof fn lemma_scores_bound(
    reference: Seq<NoteView>,
    played: Seq<NoteView>,
    reference_rhythm: RhythmView,
    played_rhythm: RhythmView,
)
    ensures
        0 <= note_accuracy_of(reference, played) <= FULL_SCORE,
        0 <= pitch_accuracy_of(pitch_errors_of(reference, played)) <= FULL_SCORE,
        0 <= timing_accuracy_of(reference, played) <= FULL_SCORE,
        0 <= rhythm_accuracy_of(reference_rhythm, played_rhythm) <= FULL_SCORE,
{
    let n = reference.len() as int;
    lemma_correct_among_bound(reference, played, n);
    if n > 0 {
        let c = correct_among(reference, played, n);
        assert(0 <= c * FULL_SCORE / n <= FULL_SCORE) by (nonlinear_arith)
            requires
                0 <= c <= n,
                n > 0,
        ;
    }
}

/// No more reference notes are answered right than there are.
proof fn lemma_correct_among_bound(reference: Seq<NoteView>, played: Seq<NoteView>, n: int)
    requires
        0 <= n <= reference.len(),
    ensures
        0 <= correct_among(reference, played, n) <= n,
    decreases n,
{
    if n > 0 {
        lemma_correct_among_bound(reference, played, n - 1);
    }
}

/// Leaving one note out of the played performance never raises the overall
/// similarity above that of the performance compared with itself, and lowers
/// it where the performance has at most 2000 notes, or where the note left
/// out is not answered at its own pitch by another.
pub proof fn lemma_left_out_note_lowers_similarity(
    notes: Seq<NoteView>,
    k: int,
    reference_rhythm: RhythmView,
    played_rhythm: RhythmView,
)
    requires
        distinct_starts(notes),
        0 <= k < notes.len(),
    ensures
        comparison_of(notes, notes.remove(k), reference_rhythm, played_rhythm).overall_similarity
            <= comparison_of(notes, notes, reference_rhythm, reference_rhythm).overall_similarity,
        notes.len() <= 2000 || !left_out_answered_right(notes, k) ==> comparison_of(
            notes,
            notes.remove(k),
            reference_rhythm,
            played_rhythm,
        ).overall_similarity < comparison_of(
            notes,
            notes,
            reference_rhythm,
            reference_rhythm,
        ).overall_similarity,
{
    let rest = notes.remove(k);
    let n = notes.len() as int;
    lemma_compared_with_itself(notes, reference_rhythm);
    lemma_scores_bound(notes, rest, reference_rhythm, played_rhythm);
    lemma_counts_without(notes, k, n);
    lemma_left_out_answer_is_off(notes, k);
    let na = note_accuracy_of(notes, rest);
    let pa = pitch_accuracy_of(pitch_errors_of(notes, rest));
    let ta = timing_accuracy_of(notes, rest);
    let ra = rhythm_accuracy_of(reference_rhythm, played_rhythm);
    if notes.len() <= 2000 || !left_out_answered_right(notes, k) {
        if rest.len() == 0 {
            assert(na == 0);
        } else if !left_out_answered_right(notes, k) {
            assert(na == (n - 1) * FULL_SCORE / n);
            assert((n - 1) * FULL_SCORE / n < FULL_SCORE) by (nonlinear_arith)
                requires
                    n > 0,
            ;
        } else {
            let g = left_out_gap(notes, k);
            assert(1 <= g <= MATCH_WINDOW);
            let penalty = g * (FULL_SCORE / MATCH_WINDOW) / n;
            assert(penalty >= 1) by (nonlinear_arith)
                requires
                    penalty == g * 2000 / n,
                    g >= 1,
                    0 < n <= 2000,
            ;
            assert(ta == score_less(penalty));
        }
        assert(30 * na + 25 * pa + 25 * ta < 80 * FULL_SCORE);
    }
}

} // verus!
