//! The lines of a written report: notes, errors and scores as text, and the
//! statistics of the pitch of a recording.

use vstd::prelude::*;
use crate::comparison::{
    NoteSequence, NoteView, PitchError, PitchErrorView, TimingError, TimingErrorView, FULL_SCORE,
};
use crate::pitch::{
    hz_to_note_name, lemma_higher_is_no_flatter, pitch_difference_cents, spec_hz_to_note_name,
    spec_pitch_difference_cents,
};
use crate::scoring::score_less;
use crate::stats::{
    highest, int_sqrt, lemma_mean_between, lemma_min_max, lowest, mean, seq_max, seq_mean,
    seq_min, seq_spread, seq_sum, spread_root, sum,
};
use crate::text::{
    append_seconds, fixed_label, format_fixed, format_signed_fixed, seconds_label,
    signed_fixed_label,
};

verus! {

/// The most errors of a kind that a report lists.
pub const LISTED_ERRORS: usize = 10;

/// A score written as a percentage with one decimal: `850_000` is `85.0%`.
pub open spec fn percent_label(score: u32) -> Seq<char> {
    fixed_label(score as nat, 4, 1) + "%"@
}

/// A score as a percentage with one decimal.
pub fn format_percent(score: u32) -> (label: String)
    ensures
        label@ == percent_label(score),
{
    let mut label = format_fixed(score as u64, 4, 1);
    label.append("%");
    label
}

/// A time written in seconds with two decimals and the unit: `500` is
/// `0.50s`.
pub open spec fn timed_label(ms: u32) -> Seq<char> {
    seconds_label(ms) + "s"@
}

/// A time in seconds with two decimals and the unit.
pub fn format_time(ms: u32) -> (label: String)
    ensures
        label@ == timed_label(ms),
{
    let mut label = String::new();
    append_seconds(&mut label, ms);
    label.append("s");
    assert(label@ =~= timed_label(ms));
    label
}

/// A note as a report lists it: its name, its start in seconds with two
/// decimals and its duration in seconds with three.
#[derive(Debug, Clone)]
pub struct NoteLine {
    pub note: String,
    pub time: String,
    pub duration: String,
}

/// The view of a `NoteLine`: its fields, each string as its characters.
pub struct NoteLineView {
    pub note: Seq<char>,
    pub time: Seq<char>,
    pub duration: Seq<char>,
}

impl View for NoteLine {
    type V = NoteLineView;

    open spec fn view(&self) -> NoteLineView {
        NoteLineView { note: self.note@, time: self.time@, duration: self.duration@ }
    }
}

/// The line of a note.
pub open spec fn note_line(note: NoteView) -> NoteLineView {
    NoteLineView {
        note: note.note_name,
        time: seconds_label(note.start_time),
        duration: fixed_label(note.duration as nat, 3, 3),
    }
}

/// Writes the line of a note.
pub fn describe_note(note: &NoteSequence) -> (line: NoteLine)
    ensures
        line@ == note_line(note@),
{
    NoteLine {
        note: note.note_name.clone(),
        time: format_fixed(note.start_time as u64, 3, 2),
        duration: format_fixed(note.duration as u64, 3, 3),
    }
}

/// A pitch error as a report lists it: the time with its unit, the two
/// names, and the cents with their sign and one decimal.
#[derive(Debug, Clone)]
pub struct PitchErrorLine {
    pub time: String,
    pub expected: String,
    pub played: String,
    pub cents_off: String,
}

/// The view of a `PitchErrorLine`: its fields, each string as its characters.
pub struct PitchErrorLineView {
    pub time: Seq<char>,
    pub expected: Seq<char>,
    pub played: Seq<char>,
    pub cents_off: Seq<char>,
}

impl View for PitchErrorLine {
    type V = PitchErrorLineView;

    open spec fn view(&self) -> PitchErrorLineView {
        PitchErrorLineView {
            time: self.time@,
            expected: self.expected@,
            played: self.played@,
            cents_off: self.cents_off@,
        }
    }
}

/// The line of a pitch error.
pub open spec fn pitch_error_line(error: PitchErrorView) -> PitchErrorLineView {
    PitchErrorLineView {
        time: timed_label(error.time),
        expected: error.expected_note,
        played: error.played_note,
        cents_off: signed_fixed_label(error.cent_difference as int, 0, 1),
    }
}

/// Writes the line of a pitch error.
pub fn describe_pitch_error(error: &PitchError) -> (line: PitchErrorLine)
    ensures
        line@ == pitch_error_line(error@),
{
    PitchErrorLine {
        time: format_time(error.time),
        expected: error.expected_note.clone(),
        played: error.played_note.clone(),
        cents_off: format_signed_fixed(error.cent_difference as i64, 0, 1),
    }
}

/// A timing error as a report lists it: the name, the two times with their
/// unit, and the milliseconds between them with one decimal.
#[derive(Debug, Clone)]
pub struct TimingErrorLine {
    pub note: String,
    pub expected_time: String,
    pub played_time: String,
    pub ms_late: String,
}

/// The view of a `TimingErrorLine`: its fields, each string as its characters.
pub struct TimingErrorLineView {
    pub note: Seq<char>,
    pub expected_time: Seq<char>,
    pub played_time: Seq<char>,
    pub ms_late: Seq<char>,
}

impl View for TimingErrorLine {
    type V = TimingErrorLineView;

    open spec fn view(&self) -> TimingErrorLineView {
        TimingErrorLineView {
            note: self.note@,
            expected_time: self.expected_time@,
            played_time: self.played_time@,
            ms_late: self.ms_late@,
        }
    }
}

/// The line of a timing error.
pub open spec fn timing_error_line(error: TimingErrorView) -> TimingErrorLineView {
    TimingErrorLineView {
        note: error.note,
        expected_time: timed_label(error.expected_time),
        played_time: timed_label(error.played_time),
        ms_late: fixed_label(error.ms_difference as nat, 0, 1),
    }
}

/// Writes the line of a timing error.
pub fn describe_timing_error(error: &TimingError) -> (line: TimingErrorLine)
    ensures
        line@ == timing_error_line(error@),
{
    TimingErrorLine {
        note: error.note.clone(),
        expected_time: format_time(error.expected_time),
        played_time: format_time(error.played_time),
        ms_late: format_fixed(error.ms_difference as u64, 0, 1),
    }
}

/// The number of errors that a report lists of `count`: all of them up to
/// ten.
pub open spec fn listed_count(count: nat) -> nat {
    if count < LISTED_ERRORS {
        count
    } else {
        LISTED_ERRORS as nat
    }
}

/// Lists the notes of a performance, a line for each.
pub fn list_notes(notes: &Vec<NoteSequence>) -> (lines: Vec<NoteLine>)
    ensures
        lines@.len() == notes@.len(),
        forall|i: int| 0 <= i < lines@.len() ==> (#[trigger] lines@[i])@ == note_line(notes@[i]@),
{
    let mut lines: Vec<NoteLine> = Vec::new();
    let mut i: usize = 0;
    while i < notes.len()
        invariant
            0 <= i <= notes.len(),
            lines@.len() == i,
            forall|k: int| 0 <= k < i ==> (#[trigger] lines@[k])@ == note_line(notes@[k]@),
        decreases notes.len() - i,
    {
        lines.push(describe_note(&notes[i]));
        i = i + 1;
    }
    lines
}

/// Lists the first ten pitch errors, a line for each.
pub fn list_pitch_errors(errors: &Vec<PitchError>) -> (lines: Vec<PitchErrorLine>)
    ensures
        lines@.len() == listed_count(errors@.len()),
        forall|i: int|
            0 <= i < lines@.len() ==> (#[trigger] lines@[i])@ == pitch_error_line(errors@[i]@),
{
    let mut lines: Vec<PitchErrorLine> = Vec::new();
    let mut i: usize = 0;
    while i < errors.len() && i < LISTED_ERRORS
        invariant
            0 <= i <= errors.len(),
            i <= LISTED_ERRORS,
            lines@.len() == i,
            forall|k: int| 0 <= k < i ==> (#[trigger] lines@[k])@ == pitch_error_line(errors@[k]@),
        decreases errors.len() - i,
    {
        lines.push(describe_pitch_error(&errors[i]));
        i = i + 1;
    }
    lines
}

/// Lists the first ten timing errors, a line for each.
pub fn list_timing_errors(errors: &Vec<TimingError>) -> (lines: Vec<TimingErrorLine>)
    ensures
        lines@.len() == listed_count(errors@.len()),
        forall|i: int|
            0 <= i < lines@.len() ==> (#[trigger] lines@[i])@ == timing_error_line(errors@[i]@),
{
    let mut lines: Vec<TimingErrorLine> = Vec::new();
    let mut i: usize = 0;
    while i < errors.len() && i < LISTED_ERRORS
        invariant
            0 <= i <= errors.len(),
            i <= LISTED_ERRORS,
            lines@.len() == i,
            forall|k: int|
                0 <= k < i ==> (#[trigger] lines@[k])@ == timing_error_line(errors@[k]@),
        decreases errors.len() - i,
    {
        lines.push(describe_timing_error(&errors[i]));
        i = i + 1;
    }
    lines
}

/// The statistics of the frequencies of a recording.
#[derive(Debug, Clone)]
pub struct PitchStatistics {
    pub average_hz: u32,
    pub average_note: String,
    pub min_hz: u32,
    pub min_note: String,
    pub max_hz: u32,
    pub max_note: String,
    /// The semitones from the least frequency up to the greatest.
    pub pitch_range_semitones: i32,
    /// From 0 to `FULL_SCORE`: how little the frequencies vary.
    pub pitch_stability: u32,
}

/// The view of a `PitchStatistics`: its fields, each string as its characters.
pub struct PitchStatisticsView {
    pub average_hz: u32,
    pub average_note: Seq<char>,
    pub min_hz: u32,
    pub min_note: Seq<char>,
    pub max_hz: u32,
    pub max_note: Seq<char>,
    pub pitch_range_semitones: i32,
    pub pitch_stability: u32,
}

impl View for PitchStatistics {
    type V = PitchStatisticsView;

    open spec fn view(&self) -> PitchStatisticsView {
        PitchStatisticsView {
            average_hz: self.average_hz,
            average_note: self.average_note@,
            min_hz: self.min_hz,
            min_note: self.min_note@,
            max_hz: self.max_hz,
            max_note: self.max_note@,
            pitch_range_semitones: self.pitch_range_semitones,
            pitch_stability: self.pitch_stability,
        }
    }
}

/// The semitones from `low` up to `high`: their distance in cents over a
/// hundred, rounded to the nearest.
pub open spec fn range_semitones(low: u32, high: u32) -> int {
    (spec_pitch_difference_cents(low, high) + 50) / 100
}

/// How little the frequencies vary: one less the standard deviation over
/// the mean, no less than zero, and zero where the frequencies sum to zero.
/// With `S` the sum of the frequencies, `Q` the sum of their squares and `n`
/// their number, the deviation over the mean is `sqrt(n * Q - S * S) / S`;
/// the root is rounded down to a whole number, and so is the quotient in
/// millionths.
pub open spec fn pitch_stability_of(pitch_hz: Seq<u32>) -> int {
    let total = seq_sum(pitch_hz);
    if total > 0 {
        score_less(int_sqrt(seq_spread(pitch_hz)) * FULL_SCORE / total)
    } else {
        0
    }
}

/// The statistics of frequencies of which there is one at the least.
pub open spec fn pitch_statistics_of(pitch_hz: Seq<u32>) -> PitchStatisticsView {
    let average = seq_mean(pitch_hz) as u32;
    let low = seq_min(pitch_hz);
    let high = seq_max(pitch_hz);
    PitchStatisticsView {
        average_hz: average,
        average_note: spec_hz_to_note_name(average),
        min_hz: low,
        min_note: spec_hz_to_note_name(low),
        max_hz: high,
        max_note: spec_hz_to_note_name(high),
        pitch_range_semitones: range_semitones(low, high) as i32,
        pitch_stability: pitch_stability_of(pitch_hz) as u32,
    }
}

/// Takes the statistics of the frequencies of a recording; none where it
/// has no frequency.
pub fn pitch_statistics(pitch_hz: &Vec<u32>) -> (statistics: Option<PitchStatistics>)
    ensures
        pitch_hz@.len() == 0 ==> statistics is None,
        pitch_hz@.len() > 0 ==> statistics is Some && statistics.unwrap()@ == pitch_statistics_of(
            pitch_hz@,
        ),
        statistics matches Some(found) ==> found.min_hz <= found.average_hz <= found.max_hz
            && found.pitch_range_semitones >= 0 && found.pitch_stability <= FULL_SCORE,
{
    if pitch_hz.len() == 0 {
        return None;
    }
    let average: u32 = mean(pitch_hz);
    let low: u32 = lowest(pitch_hz);
    let high: u32 = highest(pitch_hz);
    proof {
        lemma_min_max(pitch_hz@);
        lemma_mean_between(pitch_hz@);
        lemma_higher_is_no_flatter(low, high);
    }
    let cents: i32 = pitch_difference_cents(low, high);
    // floor((cents + 50) / 100), taken on a non-negative numerator
    let semitones: i32 = (cents + 50 + 100_000) / 100 - 1_000;
    let total: u128 = sum(pitch_hz);
    let stability: u32 = if total > 0 {
        let root: u128 = spread_root(pitch_hz);
        proof {
            assert(root * FULL_SCORE < 0x1_0000_0000_0000_0000_0000_0000 * FULL_SCORE)
                by (nonlinear_arith)
                requires
                    root < 0x1_0000_0000_0000_0000_0000_0000,
            ;
        }
        let penalty: u128 = root * (FULL_SCORE as u128) / total;
        if penalty >= FULL_SCORE as u128 {
            0
        } else {
            FULL_SCORE - penalty as u32
        }
    } else {
        0
    };
    Some(
        PitchStatistics {
            average_hz: average,
            average_note: hz_to_note_name(average),
            min_hz: low,
            min_note: hz_to_note_name(low),
            max_hz: high,
            max_note: hz_to_note_name(high),
            pitch_range_semitones: semitones,
            pitch_stability: stability,
        },
    )
}

} // verus!
