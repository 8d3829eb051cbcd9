//! The notes of a performance, its rhythm, and the report of a comparison.
//!
//! Times and durations are whole milliseconds, frequencies whole millihertz,
//! pitch distances whole cents, and every score is in millionths of one, so
//! that `1_000_000` is a perfect score.

use vstd::prelude::*;
use crate::audio_analysis::AnalysisResult;
pub use crate::pitch::{hz_to_midi, hz_to_note_name, midi_to_note_name, pitch_difference_cents};
pub use crate::rhythm::extract_rhythm_pattern;
use crate::rhythm::rhythm_of;
use crate::scoring::{compare_sequences, comparison_of, lemma_compared_with_itself};
pub use crate::segment::extract_note_sequence;
use crate::segment::{segmented_notes, standard_config};
use crate::segment_laws::{lemma_segmented_notes_start_apart, sample_times_ascend};

verus! {

/// The score that stands for one: a perfect match.
pub const FULL_SCORE: u32 = 1_000_000;

/// One note of a performance.
#[derive(Debug, Clone)]
pub struct NoteSequence {
    pub note_name: String,
    pub midi_note: u8,
    pub start_time: u32,
    pub duration: u32,
    pub avg_pitch_hz: u32,
}

/// The view of a `NoteSequence`: its fields, each string as its characters.
pub struct NoteView {
    pub note_name: Seq<char>,
    pub midi_note: u8,
    pub start_time: u32,
    pub duration: u32,
    pub avg_pitch_hz: u32,
}

impl View for NoteSequence {
    type V = NoteView;

    open spec fn view(&self) -> NoteView {
        NoteView {
            note_name: self.note_name@,
            midi_note: self.midi_note,
            start_time: self.start_time,
            duration: self.duration,
            avg_pitch_hz: self.avg_pitch_hz,
        }
    }
}

/// The onsets of a performance and what their spacing says of its tempo.
#[derive(Debug, Clone)]
pub struct RhythmPattern {
    pub onset_times: Vec<u32>,
    pub inter_onset_intervals: Vec<u32>,
    pub avg_interval: u32,
    /// From 0, unstable, to `FULL_SCORE`, perfectly regular.
    pub tempo_stability: u32,
}

/// The view of a `RhythmPattern`: its fields, each string as its characters.
pub struct RhythmView {
    pub onset_times: Seq<u32>,
    pub inter_onset_intervals: Seq<u32>,
    pub avg_interval: u32,
    pub tempo_stability: u32,
}

impl View for RhythmPattern {
    type V = RhythmView;

    open spec fn view(&self) -> RhythmView {
        RhythmView {
            onset_times: self.onset_times@,
            inter_onset_intervals: self.inter_onset_intervals@,
            avg_interval: self.avg_interval,
            tempo_stability: self.tempo_stability,
        }
    }
}

/// A reference note that was answered at the wrong pitch.
#[derive(Debug, Clone)]
pub struct PitchError {
    pub time: u32,
    pub expected_note: String,
    pub played_note: String,
    /// The cents from the expected pitch up to the played one.
    pub cent_difference: i32,
}

/// The view of a `PitchError`: its fields, each string as its characters.
pub struct PitchErrorView {
    pub time: u32,
    pub expected_note: Seq<char>,
    pub played_note: Seq<char>,
    pub cent_difference: i32,
}

impl View for PitchError {
    type V = PitchErrorView;

    open spec fn view(&self) -> PitchErrorView {
        PitchErrorView {
            time: self.time,
            expected_note: self.expected_note@,
            played_note: self.played_note@,
            cent_difference: self.cent_difference,
        }
    }
}

/// A reference note that was answered too early or too late.
#[derive(Debug, Clone)]
pub struct TimingError {
    pub note: String,
    pub expected_time: u32,
    pub played_time: u32,
    pub ms_difference: u32,
}

/// The view of a `TimingError`: its fields, each string as its characters.
pub struct TimingErrorView {
    pub note: Seq<char>,
    pub expected_time: u32,
    pub played_time: u32,
    pub ms_difference: u32,
}

impl View for TimingError {
    type V = TimingErrorView;

    open spec fn view(&self) -> TimingErrorView {
        TimingErrorView {
            note: self.note@,
            expected_time: self.expected_time,
            played_time: self.played_time,
            ms_difference: self.ms_difference,
        }
    }
}

/// The report of a comparison of a played performance with its reference.
#[derive(Debug)]
pub struct ComparisonMetrics {
    pub pitch_accuracy: u32,
    pub rhythm_accuracy: u32,
    pub timing_accuracy: u32,
    pub note_accuracy: u32,
    pub overall_similarity: u32,
    pub missed_notes: Vec<String>,
    pub extra_notes: Vec<String>,
    pub pitch_errors: Vec<PitchError>,
    pub timing_errors: Vec<TimingError>,
}

/// The view of a `ComparisonMetrics`: its fields, each string as its characters.
pub struct MetricsView {
    pub pitch_accuracy: u32,
    pub rhythm_accuracy: u32,
    pub timing_accuracy: u32,
    pub note_accuracy: u32,
    pub overall_similarity: u32,
    pub missed_notes: Seq<Seq<char>>,
    pub extra_notes: Seq<Seq<char>>,
    pub pitch_errors: Seq<PitchErrorView>,
    pub timing_errors: Seq<TimingErrorView>,
}

/// The views of the notes of a vector.
pub open spec fn note_views(notes: Seq<NoteSequence>) -> Seq<NoteView> {
    notes.map_values(|n: NoteSequence| n@)
}

/// The strings of a vector, each as its characters.
pub open spec fn string_views(strings: Seq<String>) -> Seq<Seq<char>> {
    strings.map_values(|s: String| s@)
}

/// The views of the pitch errors of a vector.
pub open spec fn pitch_error_views(errors: Seq<PitchError>) -> Seq<PitchErrorView> {
    errors.map_values(|e: PitchError| e@)
}

/// The views of the timing errors of a vector.
pub open spec fn timing_error_views(errors: Seq<TimingError>) -> Seq<TimingErrorView> {
    errors.map_values(|e: TimingError| e@)
}

impl View for ComparisonMetrics {
    type V = MetricsView;

    open spec fn view(&self) -> MetricsView {
        MetricsView {
            pitch_accuracy: self.pitch_accuracy,
            rhythm_accuracy: self.rhythm_accuracy,
            timing_accuracy: self.timing_accuracy,
            note_accuracy: self.note_accuracy,
            overall_similarity: self.overall_similarity,
            missed_notes: string_views(self.missed_notes@),
            extra_notes: string_views(self.extra_notes@),
            pitch_errors: pitch_error_views(self.pitch_errors@),
            timing_errors: timing_error_views(self.timing_errors@),
        }
    }
}

/// The report of the comparison of two recordings, the played one against
/// its reference: each is segmented into notes with the usual tuning, its
/// rhythm is taken from its onsets, and notes and rhythms are compared.
pub open spec fn recordings_compared(
    reference_pitch_hz: Seq<u32>,
    reference_onsets: Seq<u32>,
    player_pitch_hz: Seq<u32>,
    player_onsets: Seq<u32>,
) -> MetricsView {
    comparison_of(
        segmented_notes(standard_config(), reference_pitch_hz, reference_onsets),
        segmented_notes(standard_config(), player_pitch_hz, player_onsets),
        rhythm_of(reference_onsets),
        rhythm_of(player_onsets),
    )
}

/// Compares a played recording with its reference.
pub fn compare_recordings(reference: &AnalysisResult, player: &AnalysisResult) -> (metrics:
    ComparisonMetrics)
    ensures
        metrics@ == recordings_compared(
            reference.pitch_hz@,
            reference.onsets@,
            player.pitch_hz@,
            player.onsets@,
        ),
        metrics.pitch_accuracy <= FULL_SCORE,
        metrics.rhythm_accuracy <= FULL_SCORE,
        metrics.timing_accuracy <= FULL_SCORE,
        metrics.note_accuracy <= FULL_SCORE,
        metrics.overall_similarity <= FULL_SCORE,
{
    let ref_notes = extract_note_sequence(reference);
    let player_notes = extract_note_sequence(player);
    let ref_rhythm = extract_rhythm_pattern(reference);
    let player_rhythm = extract_rhythm_pattern(player);
    compare_sequences(&ref_notes, &player_notes, &ref_rhythm, &player_rhythm)
}

/// A recording compared with itself, where the times of its samples never
/// go back and it has a note and two onsets or more: every score is perfect,
/// no note is missed and none is extra.
pub proof fn lemma_recording_compared_with_itself(pitch_hz: Seq<u32>, onsets: Seq<u32>)
    requires
        sample_times_ascend(standard_config(), pitch_hz, onsets),
        segmented_notes(standard_config(), pitch_hz, onsets).len() > 0,
        onsets.len() >= 2,
    ensures
        ({
            let metrics = recordings_compared(pitch_hz, onsets, pitch_hz, onsets);
            &&& metrics.overall_similarity == FULL_SCORE
            &&& metrics.note_accuracy == FULL_SCORE
            &&& metrics.pitch_accuracy == FULL_SCORE
            &&& metrics.timing_accuracy == FULL_SCORE
            &&& metrics.rhythm_accuracy == FULL_SCORE
            &&& metrics.missed_notes.len() == 0
            &&& metrics.extra_notes.len() == 0
        }),
{
    lemma_segmented_notes_start_apart(standard_config(), pitch_hz, onsets);
    lemma_compared_with_itself(
        segmented_notes(standard_config(), pitch_hz, onsets),
        rhythm_of(onsets),
    );
}

} // verus!
