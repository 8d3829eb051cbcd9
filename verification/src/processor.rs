//! What a written report on an analysis holds: the instructions that head
//! it, the summary of what went amiss, and the figures of a recording.

use vstd::prelude::*;
use crate::audio_analysis::{AnalysisResult, NoteEvent};
use crate::comparison::{ComparisonMetrics, MetricsView};
use crate::pitch::{
    append_octave, hz_to_midi, no_note_name, note_name, octave_label, pitch_class_name,
    pitch_class_str, semitones_above_a4, semitones_from_a4, spec_hz_to_midi,
    spec_hz_to_note_name,
};
use crate::segment::{sample_time, standard_config, time_of_sample, SegmenterConfig};
use crate::stats::{highest, lowest, mean, seq_max, seq_mean, seq_min};
use crate::text::{append_decimal, append_fixed, decimal, fixed_label};

verus! {

/// The overall similarity from which a performance is excellent.
pub const EXCELLENT_FROM: u32 = 900_000;

/// The overall similarity from which a performance is good.
pub const GOOD_FROM: u32 = 750_000;

/// The overall similarity from which a performance is fair.
pub const FAIR_FROM: u32 = 500_000;

/// The score under which an accuracy is remarked upon.
pub const REMARK_UNDER: u32 = 700_000;

/// The instructions that head a report with a comparison.
pub open spec fn comparison_instructions() -> Seq<char> {
    "You are analyzing a student's guitar performance compared to a reference recording. The 'comparison' section provides detailed metrics about accuracy. Focus on:\n1. Overall similarity score and what it means\n2. Specific errors in pitch, timing, and rhythm\n3. Missed or extra notes\n4. Constructive feedback on how to improve\n5. Positive reinforcement for what was done well\n\nUse the note sequences and rhythm patterns to understand the musical context. Be specific about which notes or sections need work."@
}

/// The instructions that head a report on one recording.
pub open spec fn single_instructions() -> Seq<char> {
    "You are analyzing a guitar recording. Use the provided statistics and patterns to:\n1. Identify the musical content (notes, rhythm, tempo)\n2. Assess the overall quality and technique\n3. Provide constructive feedback\n4. Suggest areas for improvement\n\nConsider pitch stability, rhythm consistency, and note accuracy."@
}

/// The instructions that head a report.
pub fn generate_instructions(has_comparison: bool) -> (instructions: String)
    ensures
        instructions@ == (if has_comparison {
            comparison_instructions()
        } else {
            single_instructions()
        }),
{
    if has_comparison {
        String::from_str(
            "You are analyzing a student's guitar performance compared to a reference recording. The 'comparison' section provides detailed metrics about accuracy. Focus on:\n1. Overall similarity score and what it means\n2. Specific errors in pitch, timing, and rhythm\n3. Missed or extra notes\n4. Constructive feedback on how to improve\n5. Positive reinforcement for what was done well\n\nUse the note sequences and rhythm patterns to understand the musical context. Be specific about which notes or sections need work.",
        )
    } else {
        String::from_str(
            "You are analyzing a guitar recording. Use the provided statistics and patterns to:\n1. Identify the musical content (notes, rhythm, tempo)\n2. Assess the overall quality and technique\n3. Provide constructive feedback\n4. Suggest areas for improvement\n\nConsider pitch stability, rhythm consistency, and note accuracy.",
        )
    }
}

/// A score written as a whole percentage, without the sign: `666_666` is
/// `67`.
pub open spec fn whole_percent(score: u32) -> Seq<char> {
    fixed_label(score as nat, 4, 0)
}

/// The verdict on an overall similarity.
pub open spec fn verdict(overall_similarity: u32) -> Seq<char> {
    if overall_similarity >= EXCELLENT_FROM {
        "Excellent performance! Very close to the reference."@
    } else if overall_similarity >= GOOD_FROM {
        "Good performance with minor errors."@
    } else if overall_similarity >= FAIR_FROM {
        "Fair performance. Several areas need improvement."@
    } else {
        "Needs significant practice. Many errors detected."@
    }
}

/// The remark on a score under seven tenths: `opening`, the score as a whole
/// percentage, and `closing`, after a space. A higher score is not remarked
/// upon.
pub open spec fn score_remark(score: u32, opening: Seq<char>, closing: Seq<char>) -> Seq<char> {
    if score < REMARK_UNDER {
        " "@ + opening + whole_percent(score) + closing
    } else {
        Seq::empty()
    }
}

/// The remark on `count` notes gone amiss: `opening`, the count and
/// `closing`, after a space. No note is not remarked upon.
pub open spec fn count_remark(count: nat, opening: Seq<char>, closing: Seq<char>) -> Seq<char> {
    if count > 0 {
        " "@ + opening + decimal(count) + closing
    } else {
        Seq::empty()
    }
}

/// The summary of a comparison in words: the verdict on the overall
/// similarity, then a remark on each accuracy under seven tenths, in the
/// order notes, pitch, timing, rhythm, then the number of missed notes and
/// the number of extra notes, where there are any.
pub open spec fn error_summary(metrics: MetricsView) -> Seq<char> {
    verdict(metrics.overall_similarity) + score_remark(
        metrics.note_accuracy,
        "Note accuracy is low ("@,
        "%). Focus on playing the correct notes."@,
    ) + score_remark(
        metrics.pitch_accuracy,
        "Pitch accuracy needs work ("@,
        "%). Notes are out of tune."@,
    ) + score_remark(
        metrics.timing_accuracy,
        "Timing is off ("@,
        "%). Practice with a metronome."@,
    ) + score_remark(
        metrics.rhythm_accuracy,
        "Rhythm accuracy needs improvement ("@,
        "%)."@,
    ) + count_remark(
        metrics.missed_notes.len(),
        "Missed "@,
        " note(s). Make sure to play all notes in the piece."@,
    ) + count_remark(
        metrics.extra_notes.len(),
        "Played "@,
        " extra note(s) not in the reference."@,
    )
}

/// Appends the remark on a score, where it is under seven tenths.
fn append_score_remark(out: &mut String, score: u32, opening: &str, closing: &str)
    ensures
        final(out)@ == old(out)@ + score_remark(score, opening@, closing@),
{
    if score < REMARK_UNDER {
        out.append(" ");
        out.append(opening);
        append_fixed(out, score as u64, 4, 0);
        out.append(closing);
    }
    assert(final(out)@ =~= old(out)@ + score_remark(score, opening@, closing@));
}

/// Appends the remark on a number of notes, where it is not zero.
fn append_count_remark(out: &mut String, count: usize, opening: &str, closing: &str)
    ensures
        final(out)@ == old(out)@ + count_remark(count as nat, opening@, closing@),
{
    if count > 0 {
        out.append(" ");
        out.append(opening);
        append_decimal(out, count as u64);
        out.append(closing);
    }
    assert(final(out)@ =~= old(out)@ + count_remark(count as nat, opening@, closing@));
}

/// Sums a comparison up in words.
pub fn generate_error_summary(metrics: &ComparisonMetrics) -> (summary: String)
    ensures
        summary@ == error_summary(metrics@),
{
    let mut summary = if metrics.overall_similarity >= EXCELLENT_FROM {
        String::from_str("Excellent performance! Very close to the reference.")
    } else if metrics.overall_similarity >= GOOD_FROM {
        String::from_str("Good performance with minor errors.")
    } else if metrics.overall_similarity >= FAIR_FROM {
        String::from_str("Fair performance. Several areas need improvement.")
    } else {
        String::from_str("Needs significant practice. Many errors detected.")
    };
    append_score_remark(
        &mut summary,
        metrics.note_accuracy,
        "Note accuracy is low (",
        "%). Focus on playing the correct notes.",
    );
    append_score_remark(
        &mut summary,
        metrics.pitch_accuracy,
        "Pitch accuracy needs work (",
        "%). Notes are out of tune.",
    );
    append_score_remark(
        &mut summary,
        metrics.timing_accuracy,
        "Timing is off (",
        "%). Practice with a metronome.",
    );
    append_score_remark(
        &mut summary,
        metrics.rhythm_accuracy,
        "Rhythm accuracy needs improvement (",
        "%).",
    );
    append_count_remark(
        &mut summary,
        metrics.missed_notes.len(),
        "Missed ",
        " note(s). Make sure to play all notes in the piece.",
    );
    append_count_remark(
        &mut summary,
        metrics.extra_notes.len(),
        "Played ",
        " extra note(s) not in the reference.",
    );
    summary
}

/// The length of a chunk of a long recording, in milliseconds.
pub const CHUNK_LENGTH: u32 = 10_000;

/// The note written beside a frequency in the listing of samples: the pitch
/// class of the nearest semitone and its octave, the octave of C4 being
/// four. It is the name of the MIDI note wherever the frequency has one, and
/// goes on through the octaves below and above. A frequency of zero has the
/// name `N/A`.
pub open spec fn spec_hz_to_note(hz: u32) -> Seq<char> {
    if hz == 0 {
        no_note_name()
    } else {
        let from_c4 = semitones_above_a4(hz as int) + 9;
        pitch_class_name(from_c4 % 12) + octave_label(4 + from_c4 / 12)
    }
}

/// The note written beside a frequency in millihertz in the listing of
/// samples.
pub fn hz_to_note(hz: u32) -> (note: String)
    ensures
        note@ == spec_hz_to_note(hz),
{
    if hz == 0 {
        proof {
            reveal_strlit("N/A");
            assert("N/A"@ =~= no_note_name());
        }
        return String::from_str("N/A");
    }
    let from_c4: i32 = semitones_from_a4(hz) + 9;
    // remainder and quotient rounded down, taken on a non-negative numerator
    let class: u8 = ((from_c4 + 240) % 12) as u8;
    let octave: i32 = 4 + (from_c4 + 240) / 12 - 20;
    let mut note = String::from_str(pitch_class_str(class));
    append_octave(&mut note, octave);
    note
}

/// A frequency that has a MIDI note is listed under the name of that note.
pub proof fn lemma_listed_under_note_name(hz: u32)
    ensures
        spec_hz_to_midi(hz) matches Some(midi) ==> spec_hz_to_note(hz) == note_name(midi),
        spec_hz_to_midi(hz) matches Some(midi) ==> spec_hz_to_note(hz) == spec_hz_to_note_name(hz),
{
}

/// The fret written beside a frequency: the pitch class of its MIDI note as
/// a number, or `x` where it has no MIDI note.
pub open spec fn spec_hz_to_tab(hz: u32) -> Seq<char> {
    match spec_hz_to_midi(hz) {
        Some(midi) => "fret "@ + decimal((midi % 12) as nat),
        None => "x"@,
    }
}

/// The fret written beside a frequency in millihertz.
pub fn hz_to_tab(hz: u32) -> (tab: String)
    ensures
        tab@ == spec_hz_to_tab(hz),
{
    match hz_to_midi(hz) {
        Some(midi) => {
            let mut tab = String::from_str("fret ");
            append_decimal(&mut tab, (midi % 12) as u64);
            tab
        },
        None => String::from_str("x"),
    }
}

/// One line of the listing of samples.
#[derive(Debug, Clone)]
pub struct PitchRecord {
    pub time: u32,
    pub pitch_hz: u32,
    pub note: String,
    pub midi: Option<u8>,
    pub tab: String,
}

/// The view of a `PitchRecord`: its fields, each string as its characters.
pub struct PitchRecordView {
    pub time: u32,
    pub pitch_hz: u32,
    pub note: Seq<char>,
    pub midi: Option<u8>,
    pub tab: Seq<char>,
}

impl View for PitchRecord {
    type V = PitchRecordView;

    open spec fn view(&self) -> PitchRecordView {
        PitchRecordView {
            time: self.time,
            pitch_hz: self.pitch_hz,
            note: self.note@,
            midi: self.midi,
            tab: self.tab@,
        }
    }
}

/// The views of the records of a vector.
pub open spec fn pitch_record_views(records: Seq<PitchRecord>) -> Seq<PitchRecordView> {
    records.map_values(|r: PitchRecord| r@)
}

/// The line of the listing for the frequency `hz` at the time `time`.
pub open spec fn pitch_record(time: u32, hz: u32) -> PitchRecordView {
    PitchRecordView {
        time,
        pitch_hz: hz,
        note: spec_hz_to_note(hz),
        midi: spec_hz_to_midi(hz),
        tab: spec_hz_to_tab(hz),
    }
}

/// The line of the listing for a frequency in millihertz at a time.
pub fn describe_pitch(time: u32, hz: u32) -> (record: PitchRecord)
    ensures
        record@ == pitch_record(time, hz),
{
    PitchRecord { time, pitch_hz: hz, note: hz_to_note(hz), midi: hz_to_midi(hz), tab: hz_to_tab(hz) }
}

/// The listing of the samples of a recording: one line for each, at the
/// time of its onset, or at ten milliseconds a sample where it has none.
pub open spec fn sample_records(pitch_hz: Seq<u32>, onsets: Seq<u32>) -> Seq<PitchRecordView> {
    Seq::new(
        pitch_hz.len(),
        |i: int| pitch_record(sample_time(standard_config(), onsets, i), pitch_hz[i]),
    )
}

/// Lists the samples of a recording.
pub fn describe_samples(result: &AnalysisResult) -> (records: Vec<PitchRecord>)
    ensures
        pitch_record_views(records@) == sample_records(result.pitch_hz@, result.onsets@),
{
    let config = SegmenterConfig::standard();
    let mut records: Vec<PitchRecord> = Vec::new();
    let mut i: usize = 0;
    while i < result.pitch_hz.len()
        invariant
            0 <= i <= result.pitch_hz.len(),
            config == standard_config(),
            records@.len() == i,
            forall|k: int|
                0 <= k < i ==> (#[trigger] records@[k])@ == pitch_record(
                    sample_time(standard_config(), result.onsets@, k),
                    result.pitch_hz@[k],
                ),
        decreases result.pitch_hz.len() - i,
    {
        let time: u32 = time_of_sample(&config, &result.onsets, i);
        records.push(describe_pitch(time, result.pitch_hz[i]));
        i = i + 1;
    }
    assert(pitch_record_views(records@) =~= sample_records(result.pitch_hz@, result.onsets@));
    records
}

/// The listing of the pitches detected in a live analysis: one line for
/// each, at its own time.
pub open spec fn event_records(notes: Seq<NoteEvent>) -> Seq<PitchRecordView> {
    Seq::new(notes.len(), |i: int| pitch_record(notes[i].time, notes[i].pitch_hz))
}

/// Lists the pitches detected in a live analysis.
pub fn describe_events(notes: &Vec<NoteEvent>) -> (records: Vec<PitchRecord>)
    ensures
        pitch_record_views(records@) == event_records(notes@),
{
    let mut records: Vec<PitchRecord> = Vec::new();
    let mut i: usize = 0;
    while i < notes.len()
        invariant
            0 <= i <= notes.len(),
            records@.len() == i,
            forall|k: int|
                0 <= k < i ==> (#[trigger] records@[k])@ == pitch_record(
                    notes@[k].time,
                    notes@[k].pitch_hz,
                ),
        decreases notes.len() - i,
    {
        records.push(describe_pitch(notes[i].time, notes[i].pitch_hz));
        i = i + 1;
    }
    assert(pitch_record_views(records@) =~= event_records(notes@));
    records
}

/// The mean, the least and the greatest of the frequencies of a recording.
#[derive(Debug, Clone, Copy)]
pub struct PitchSummary {
    pub average: u32,
    pub lowest: u32,
    pub highest: u32,
}

/// The summary of the frequencies; none where there is no frequency.
pub open spec fn pitch_summary(pitch_hz: Seq<u32>) -> Option<PitchSummary> {
    if pitch_hz.len() == 0 {
        None
    } else {
        Some(
            PitchSummary {
                average: seq_mean(pitch_hz) as u32,
                lowest: seq_min(pitch_hz),
                highest: seq_max(pitch_hz),
            },
        )
    }
}

/// Sums up the frequencies of a recording.
pub fn summarize_pitch(pitch_hz: &Vec<u32>) -> (summary: Option<PitchSummary>)
    ensures
        summary == pitch_summary(pitch_hz@),
{
    if pitch_hz.len() == 0 {
        None
    } else {
        Some(
            PitchSummary {
                average: mean(pitch_hz),
                lowest: lowest(pitch_hz),
                highest: highest(pitch_hz),
            },
        )
    }
}

/// The mean of the values; none where there is no value.
pub fn average_of(values: &Vec<u32>) -> (average: Option<u32>)
    ensures
        values@.len() == 0 ==> average is None,
        values@.len() > 0 ==> average == Some(seq_mean(values@) as u32),
{
    if values.len() == 0 {
        None
    } else {
        Some(mean(values))
    }
}

/// The one piece that is known by its figures.
pub open spec fn known_piece() -> Seq<char> {
    "Crazy Train - Ozzy Osbourne (solo) Randy Rhodes"@
}

/// Whether the figures are those of the known piece: a mean frequency
/// between 400 Hz and 500 Hz, neither included, and a tempo above 100 beats
/// per minute.
pub open spec fn is_known_piece(average_pitch: Option<u32>, tempo_bpm: Option<u32>) -> bool {
    &&& average_pitch matches Some(average)
    &&& 400_000 < average < 500_000
    &&& tempo_bpm matches Some(tempo)
    &&& tempo > 100_000
}

/// Names the piece that is played, where the figures tell it.
pub fn identify_piece(average_pitch: Option<u32>, tempo_bpm: Option<u32>) -> (piece: Option<
    String,
>)
    ensures
        piece is Some == is_known_piece(average_pitch, tempo_bpm),
        piece matches Some(title) ==> title@ == known_piece(),
{
    match (average_pitch, tempo_bpm) {
        (Some(average), Some(tempo)) => {
            if 400_000 < average && average < 500_000 && tempo > 100_000 {
                Some(String::from_str("Crazy Train - Ozzy Osbourne (solo) Randy Rhodes"))
            } else {
                None
            }
        },
        _ => None,
    }
}

/// One chunk of a long recording: its bounds in time and the onsets that
/// fall in it, by their place among the onsets.
#[derive(Debug, Clone)]
pub struct Chunk {
    pub start: u32,
    pub end: u32,
    pub onset_indices: Vec<usize>,
}

/// Among the first `n` onsets, the places of those from `start` up to, and
/// without, `end`.
pub open spec fn indices_within(onsets: Seq<u32>, start: int, end: int, n: int) -> Seq<usize>
    decreases n,
{
    if n <= 0 {
        Seq::empty()
    } else {
        let before = indices_within(onsets, start, end, n - 1);
        if start <= onsets[n - 1] < end {
            before.push((n - 1) as usize)
        } else {
            before
        }
    }
}

/// The number of chunks of a recording: as many chunks of ten seconds as
/// start before its last onset.
pub open spec fn chunk_count(onsets: Seq<u32>) -> int {
    if onsets.len() == 0 {
        0
    } else {
        (onsets.last() + CHUNK_LENGTH - 1) / (CHUNK_LENGTH as int)
    }
}

/// Where chunk `c` of a recording ends: ten seconds after its start, or at
/// the last onset where that comes first.
pub open spec fn chunk_end(onsets: Seq<u32>, c: int) -> int {
    if (c + 1) * CHUNK_LENGTH < onsets.last() {
        (c + 1) * CHUNK_LENGTH
    } else {
        onsets.last() as int
    }
}

/// Whether `chunk` is chunk `c` of the recording with these onsets.
pub open spec fn is_chunk(onsets: Seq<u32>, c: int, chunk: Chunk) -> bool {
    &&& chunk.start == c * CHUNK_LENGTH
    &&& chunk.end == chunk_end(onsets, c)
    &&& chunk.onset_indices@ == indices_within(
        onsets,
        chunk.start as int,
        chunk.end as int,
        onsets.len() as int,
    )
}

/// The places of the onsets from `start` up to, and without, `end`.
fn onsets_within(onsets: &Vec<u32>, start: u32, end: u32) -> (indices: Vec<usize>)
    ensures
        indices@ == indices_within(onsets@, start as int, end as int, onsets.len() as int),
{
    let mut indices: Vec<usize> = Vec::new();
    let mut i: usize = 0;
    while i < onsets.len()
        invariant
            0 <= i <= onsets.len(),
            indices@ == indices_within(onsets@, start as int, end as int, i as int),
        decreases onsets.len() - i,
    {
        if start <= onsets[i] && onsets[i] < end {
            indices.push(i);
        }
        i = i + 1;
    }
    indices
}

/// Cuts a recording into chunks of ten seconds, from zero up to its last
/// onset. An onset at the very end of the last chunk falls in none.
pub fn chunk_onsets(onsets: &Vec<u32>) -> (chunks: Vec<Chunk>)
    ensures
        chunks@.len() == chunk_count(onsets@),
        forall|c: int| 0 <= c < chunks@.len() ==> is_chunk(onsets@, c, #[trigger] chunks@[c]),
{
    let mut chunks: Vec<Chunk> = Vec::new();
    if onsets.len() == 0 {
        return chunks;
    }
    let last: u32 = onsets[onsets.len() - 1];
    let mut start: u64 = 0;
    while start < last as u64
        invariant
            onsets.len() > 0,
            last == onsets@.last(),
            start == chunks@.len() * CHUNK_LENGTH,
            chunks@.len() <= chunk_count(onsets@),
            start < last + CHUNK_LENGTH,
            forall|c: int| 0 <= c < chunks@.len() ==> is_chunk(onsets@, c, #[trigger] chunks@[c]),
        decreases last + CHUNK_LENGTH - start,
    {
        let end: u32 = if start + (CHUNK_LENGTH as u64) < last as u64 {
            (start + CHUNK_LENGTH as u64) as u32
        } else {
            last
        };
        let chunk = Chunk {
            start: start as u32,
            end,
            onset_indices: onsets_within(onsets, start as u32, end),
        };
        assert(is_chunk(onsets@, chunks@.len() as int, chunk));
        chunks.push(chunk);
        start = start + CHUNK_LENGTH as u64;
    }
    chunks
}

} // verus!
