//! Segmentation of a stream of pitch samples into notes.
//!
//! The segmenter is a state machine with two states: no note open, or one
//! note open that gathers the samples that continue it. A sample without a
//! pitch changes nothing. A sample within the tolerated distance of the open
//! note's MIDI number continues it; any other closes it and opens the next.
//! A closed note is kept where it lasted long enough.

use vstd::prelude::*;
use crate::audio_analysis::AnalysisResult;
use crate::comparison::{note_views, NoteSequence, NoteView};
use crate::pitch::{hz_to_midi, midi_to_note_name, note_name, spec_hz_to_midi};
use crate::stats::{mean, seq_mean};

verus! {

/// What the segmenter can be tuned by.
#[derive(Debug, Clone, Copy)]
pub struct SegmenterConfig {
    /// The most semitones by which a sample may leave the MIDI number that
    /// opened a note and still continue it.
    pub midi_threshold: u8,
    /// The shortest note that is kept, in milliseconds.
    pub min_duration: u32,
    /// The spacing of the times given to samples that have no onset of their
    /// own, in milliseconds.
    pub fallback_hop: u32,
}

/// The usual tuning: one semitone, 100 ms, and 10 ms between samples.
pub open spec fn standard_config() -> SegmenterConfig {
    SegmenterConfig { midi_threshold: 1, min_duration: 100, fallback_hop: 10 }
}

impl SegmenterConfig {
    /// The usual tuning.
    pub fn standard() -> (config: Self)
        ensures
            config == standard_config(),
    {
        SegmenterConfig { midi_threshold: 1, min_duration: 100, fallback_hop: 10 }
    }
}

/// The note that is open: the MIDI number that opened it, the time at which
/// it opened, and the samples gathered so far.
pub struct OpenNote {
    pub midi: u8,
    pub start: u32,
    pub pitches: Seq<u32>,
}

/// The state of a segmentation: the open note, if one is open, and the
/// notes that were closed and kept.
pub struct SegmenterModel {
    pub open: Option<OpenNote>,
    pub emitted: Seq<NoteView>,
}

/// The state before any sample.
pub open spec fn initial_model() -> SegmenterModel {
    SegmenterModel { open: None, emitted: Seq::empty() }
}

/// The distance between two MIDI numbers.
pub open spec fn midi_distance(a: u8, b: u8) -> int {
    if a >= b {
        a - b
    } else {
        b - a
    }
}

/// What closing `note` at the time `end` adds to the notes: the note itself
/// where it lasted `min_duration` or longer, and nothing otherwise. Its name
/// and number are those that opened it, its pitch the mean of its samples.
pub open spec fn closed_note(config: SegmenterConfig, note: OpenNote, end: u32) -> Seq<NoteView> {
    if end - note.start >= config.min_duration {
        seq![
            NoteView {
                note_name: note_name(note.midi),
                midi_note: note.midi,
                start_time: note.start,
                duration: (end - note.start) as u32,
                avg_pitch_hz: seq_mean(note.pitches) as u32,
            },
        ]
    } else {
        Seq::empty()
    }
}

/// The state after the sample `pitch_hz` at the time `time`.
pub open spec fn segmenter_step(
    config: SegmenterConfig,
    model: SegmenterModel,
    pitch_hz: u32,
    time: u32,
) -> SegmenterModel {
    match spec_hz_to_midi(pitch_hz) {
        None => model,
        Some(midi) => {
            let fresh = OpenNote { midi, start: time, pitches: seq![pitch_hz] };
            match model.open {
                None => SegmenterModel { open: Some(fresh), emitted: model.emitted },
                Some(note) => {
                    if midi_distance(midi, note.midi) <= config.midi_threshold {
                        SegmenterModel {
                            open: Some(
                                OpenNote {
                                    midi: note.midi,
                                    start: note.start,
                                    pitches: note.pitches.push(pitch_hz),
                                },
                            ),
                            emitted: model.emitted,
                        }
                    } else {
                        SegmenterModel {
                            open: Some(fresh),
                            emitted: model.emitted + closed_note(config, note, time),
                        }
                    }
                },
            }
        },
    }
}

/// The state after a run of samples, each a frequency and its time.
pub open spec fn segmenter_run(
    config: SegmenterConfig,
    model: SegmenterModel,
    samples: Seq<(u32, u32)>,
) -> SegmenterModel
    decreases samples.len(),
{
    if samples.len() == 0 {
        model
    } else {
        let before = segmenter_run(config, model, samples.drop_last());
        segmenter_step(config, before, samples.last().0, samples.last().1)
    }
}

/// The notes of a segmentation that ends at the time `end`: those kept so
/// far, and the open note where it lasted long enough. Without an end the
/// open note is dropped.
pub open spec fn segmenter_finish(
    config: SegmenterConfig,
    model: SegmenterModel,
    end: Option<u32>,
) -> Seq<NoteView> {
    match (model.open, end) {
        (Some(note), Some(end)) => model.emitted + closed_note(config, note, end),
        _ => model.emitted,
    }
}

/// The time of sample `i`: its own onset where there is one, else `i` hops
/// from zero, and no more than a time can hold.
pub open spec fn sample_time(config: SegmenterConfig, onsets: Seq<u32>, i: int) -> u32 {
    if i < onsets.len() {
        onsets[i]
    } else if i * config.fallback_hop > u32::MAX {
        u32::MAX
    } else {
        (i * config.fallback_hop) as u32
    }
}

/// The samples of a recording: each frequency with its time.
pub open spec fn timed_samples(
    config: SegmenterConfig,
    pitch_hz: Seq<u32>,
    onsets: Seq<u32>,
) -> Seq<(u32, u32)> {
    Seq::new(pitch_hz.len(), |i: int| (pitch_hz[i], sample_time(config, onsets, i)))
}

/// The notes of a recording. A recording without a pitch sample or without
/// an onset has none; otherwise the samples are run from the initial state
/// and the segmentation ends at the last onset.
pub open spec fn segmented_notes(
    config: SegmenterConfig,
    pitch_hz: Seq<u32>,
    onsets: Seq<u32>,
) -> Seq<NoteView> {
    if pitch_hz.len() == 0 || onsets.len() == 0 {
        Seq::empty()
    } else {
        segmenter_finish(
            config,
            segmenter_run(config, initial_model(), timed_samples(config, pitch_hz, onsets)),
            Some(onsets.last()),
        )
    }
}

/// Running two chunks one after the other is running them joined: a
/// segmentation may be fed piece by piece.
pub proof fn lemma_run_in_chunks(
    config: SegmenterConfig,
    model: SegmenterModel,
    first: Seq<(u32, u32)>,
    second: Seq<(u32, u32)>,
)
    ensures
        segmenter_run(config, model, first + second) == segmenter_run(
            config,
            segmenter_run(config, model, first),
            second,
        ),
    decreases second.len(),
{
    if second.len() == 0 {
        assert(first + second =~= first);
    } else {
        lemma_run_in_chunks(config, model, first, second.drop_last());
        assert((first + second).drop_last() =~= first + second.drop_last());
    }
}

/// A segmentation in progress.
pub struct NoteSegmenter {
    config: SegmenterConfig,
    current_midi: Option<u8>,
    current_start: u32,
    current_pitches: Vec<u32>,
    notes: Vec<NoteSequence>,
}

impl NoteSegmenter {
    /// The state of the segmentation.
    pub closed spec fn model(&self) -> SegmenterModel {
        SegmenterModel {
            open: match self.current_midi {
                Some(midi) => Some(
                    OpenNote {
                        midi,
                        start: self.current_start,
                        pitches: self.current_pitches@,
                    },
                ),
                None => None,
            },
            emitted: note_views(self.notes@),
        }
    }

    /// The tuning of the segmentation.
    pub closed spec fn config(&self) -> SegmenterConfig {
        self.config
    }

    /// A segmentation that has seen no sample.
    pub fn new(config: SegmenterConfig) -> (segmenter: Self)
        ensures
            segmenter.config() == config,
            segmenter.model() == initial_model(),
    {
        let segmenter = NoteSegmenter {
            config,
            current_midi: None,
            current_start: 0,
            current_pitches: Vec::new(),
            notes: Vec::new(),
        };
        assert(note_views(segmenter.notes@) =~= Seq::empty());
        segmenter
    }

    /// Closes the open note at the time `end`, keeping it where it lasted
    /// long enough.
    fn close(&mut self, midi: u8, end: u32)
        requires
            old(self).current_midi == Some(midi),
        ensures
            final(self).config == old(self).config,
            final(self).current_midi == old(self).current_midi,
            final(self).current_start == old(self).current_start,
            final(self).current_pitches == old(self).current_pitches,
            note_views(final(self).notes@) == note_views(old(self).notes@) + closed_note(
                old(self).config,
                old(self).model().open.unwrap(),
                end,
            ),
    {
        if end >= self.current_start && end - self.current_start >= self.config.min_duration {
            let note = NoteSequence {
                note_name: midi_to_note_name(midi),
                midi_note: midi,
                start_time: self.current_start,
                duration: end - self.current_start,
                avg_pitch_hz: mean(&self.current_pitches),
            };
            self.notes.push(note);
            assert(note_views(self.notes@) =~= note_views(old(self).notes@) + closed_note(
                old(self).config,
                old(self).model().open.unwrap(),
                end,
            ));
        } else {
            assert(note_views(self.notes@) =~= note_views(old(self).notes@) + closed_note(
                old(self).config,
                old(self).model().open.unwrap(),
                end,
            ));
        }
    }

    /// Takes one sample: a frequency in millihertz, zero where no pitch was
    /// detected, and its time.
    pub fn feed(&mut self, pitch_hz: u32, time: u32)
        ensures
            final(self).config() == old(self).config(),
            final(self).model() == segmenter_step(
                old(self).config(),
                old(self).model(),
                pitch_hz,
                time,
            ),
    {
        match hz_to_midi(pitch_hz) {
            None => {},
            Some(midi) => {
                match self.current_midi {
                    None => {
                        self.current_pitches.clear();
                        self.current_pitches.push(pitch_hz);
                        self.current_midi = Some(midi);
                        self.current_start = time;
                        assert(self.current_pitches@ =~= seq![pitch_hz]);
                    },
                    Some(open_midi) => {
                        let distance: u8 = if midi >= open_midi {
                            midi - open_midi
                        } else {
                            open_midi - midi
                        };
                        if distance <= self.config.midi_threshold {
                            self.current_pitches.push(pitch_hz);
                        } else {
                            self.close(open_midi, time);
                            self.current_pitches.clear();
                            self.current_pitches.push(pitch_hz);
                            self.current_midi = Some(midi);
                            self.current_start = time;
                            assert(self.current_pitches@ =~= seq![pitch_hz]);
                        }
                    },
                }
            },
        }
    }

    /// Takes a chunk of samples, the frequencies and the time of each.
    pub fn feed_chunk(&mut self, pitch_hz: &Vec<u32>, times: &Vec<u32>)
        requires
            pitch_hz.len() == times.len(),
        ensures
            final(self).config() == old(self).config(),
            final(self).model() == segmenter_run(
                old(self).config(),
                old(self).model(),
                pitch_hz@.zip_with(times@),
            ),
    {
        let ghost samples = pitch_hz@.zip_with(times@);
        let n: usize = pitch_hz.len();
        let mut i: usize = 0;
        while i < n
            invariant
                n == pitch_hz.len(),
                n == times.len(),
                0 <= i <= n,
                samples == pitch_hz@.zip_with(times@),
                self.config() == old(self).config(),
                self.model() == segmenter_run(
                    old(self).config(),
                    old(self).model(),
                    samples.take(i as int),
                ),
            decreases n - i,
        {
            proof {
                assert(samples.take(i + 1).drop_last() =~= samples.take(i as int));
            }
            self.feed(pitch_hz[i], times[i]);
            i = i + 1;
        }
        proof {
            assert(samples.take(n as int) =~= samples);
        }
    }

    /// Ends the segmentation at the time `end` and hands out its notes. The
    /// note that is still open is kept where it lasted long enough; without
    /// an end it is dropped.
    pub fn finish(self, end: Option<u32>) -> (notes: Vec<NoteSequence>)
        ensures
            note_views(notes@) == segmenter_finish(self.config(), self.model(), end),
    {
        let mut segmenter = self;
        match (segmenter.current_midi, end) {
            (Some(midi), Some(end)) => {
                segmenter.close(midi, end);
            },
            _ => {},
        }
        segmenter.notes
    }
}

/// The time of sample `i` of a recording.
pub fn time_of_sample(config: &SegmenterConfig, onsets: &Vec<u32>, i: usize) -> (time: u32)
    ensures
        time == sample_time(*config, onsets@, i as int),
{
    if i < onsets.len() {
        onsets[i]
    } else {
        assert(i * config.fallback_hop <= usize::MAX * u32::MAX) by (nonlinear_arith)
            requires
                i <= usize::MAX,
                config.fallback_hop <= u32::MAX,
        ;
        let t: u128 = (i as u128) * (config.fallback_hop as u128);
        if t > u32::MAX as u128 {
            u32::MAX
        } else {
            t as u32
        }
    }
}

/// Segments a recording into notes with a tuning of the caller's choice.
pub fn extract_note_sequence_with(analysis: &AnalysisResult, config: SegmenterConfig) -> (notes:
    Vec<NoteSequence>)
    ensures
        note_views(notes@) == segmented_notes(config, analysis.pitch_hz@, analysis.onsets@),
{
    if analysis.pitch_hz.len() == 0 || analysis.onsets.len() == 0 {
        let notes: Vec<NoteSequence> = Vec::new();
        assert(note_views(notes@) =~= Seq::empty());
        return notes;
    }
    let ghost samples = timed_samples(config, analysis.pitch_hz@, analysis.onsets@);
    let mut segmenter = NoteSegmenter::new(config);
    let n: usize = analysis.pitch_hz.len();
    let mut i: usize = 0;
    while i < n
        invariant
            n == analysis.pitch_hz.len(),
            0 <= i <= n,
            samples == timed_samples(config, analysis.pitch_hz@, analysis.onsets@),
            segmenter.config() == config,
            segmenter.model() == segmenter_run(config, initial_model(), samples.take(i as int)),
        decreases n - i,
    {
        proof {
            assert(samples.take(i + 1).drop_last() =~= samples.take(i as int));
        }
        let time: u32 = time_of_sample(&config, &analysis.onsets, i);
        segmenter.feed(analysis.pitch_hz[i], time);
        i = i + 1;
    }
    proof {
        assert(samples.take(n as int) =~= samples);
    }
    let last: u32 = analysis.onsets[analysis.onsets.len() - 1];
    segmenter.finish(Some(last))
}

/// Segments a recording into notes: samples within one semitone of the
/// note's first continue it, and a note shorter than 100 ms is dropped.
pub fn extract_note_sequence(analysis: &AnalysisResult) -> (notes: Vec<NoteSequence>)
    ensures
        note_views(notes@) == segmented_notes(
            standard_config(),
            analysis.pitch_hz@,
            analysis.onsets@,
        ),
        analysis.pitch_hz@.len() == 0 || analysis.onsets@.len() == 0 ==> notes@.len() == 0,
{
    extract_note_sequence_with(analysis, SegmenterConfig::standard())
}

} // verus!
