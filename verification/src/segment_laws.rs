//! What holds of the notes that a segmentation gives.

use vstd::prelude::*;
use crate::comparison::NoteView;
use crate::pitch::note_name;
use crate::scoring::distinct_starts;
use crate::segment::{
    closed_note, initial_model, sample_time, segmented_notes, segmenter_run, segmenter_step,
    timed_samples, OpenNote, SegmenterConfig, SegmenterModel,
};
use crate::stats::lemma_seq_mean_bound;

verus! {

/// A note as a segmentation gives it: named after its MIDI number, which is
/// one of the 128, and no shorter than the least duration.
pub open spec fn is_segmented_note(config: SegmenterConfig, note: NoteView) -> bool {
    &&& note.note_name == note_name(note.midi_note)
    &&& note.midi_note <= 127
    &&& note.duration >= config.min_duration
    &&& note.start_time + note.duration <= u32::MAX
}

/// A state whose notes, the open one too, are as a segmentation gives them.
pub open spec fn is_segmented_model(config: SegmenterConfig, model: SegmenterModel) -> bool {
    &&& forall|i: int|
        0 <= i < model.emitted.len() ==> is_segmented_note(config, #[trigger] model.emitted[i])
    &&& model.open matches Some(note) ==> note.midi <= 127
}

/// A state whose notes follow one another up to the time `now`: each ends
/// before the next starts, and before the open note does.
pub open spec fn is_in_order(model: SegmenterModel, now: int) -> bool {
    &&& forall|i: int, j: int|
        0 <= i < j < model.emitted.len() ==> (#[trigger] model.emitted[i]).start_time
            + model.emitted[i].duration <= (#[trigger] model.emitted[j]).start_time
    &&& forall|i: int|
        0 <= i < model.emitted.len() ==> (#[trigger] model.emitted[i]).start_time
            + model.emitted[i].duration <= now
    &&& model.open matches Some(note) ==> {
        &&& note.start <= now
        &&& forall|i: int|
            0 <= i < model.emitted.len() ==> (#[trigger] model.emitted[i]).start_time
                + model.emitted[i].duration <= note.start
    }
}

/// Samples whose times never go back.
pub open spec fn times_ascend(samples: Seq<(u32, u32)>) -> bool {
    forall|i: int, j: int|
        0 <= i < j < samples.len() ==> (#[trigger] samples[i]).1 <= (#[trigger] samples[j]).1
}

/// The time of the last sample; zero where there is none.
pub open spec fn last_time(samples: Seq<(u32, u32)>) -> int {
    if samples.len() == 0 {
        0
    } else {
        samples.last().1 as int
    }
}

/// What closing a note gives is as a segmentation gives it.
proof fn lemma_closed_note(config: SegmenterConfig, note: OpenNote, end: u32)
    requires
        note.midi <= 127,
    ensures
        forall|i: int|
            0 <= i < closed_note(config, note, end).len() ==> is_segmented_note(
                config,
                #[trigger] closed_note(config, note, end)[i],
            ),
        forall|i: int|
            0 <= i < closed_note(config, note, end).len() ==> (#[trigger] closed_note(
                config,
                note,
                end,
            )[i]).start_time == note.start && closed_note(config, note, end)[i].start_time
                + closed_note(config, note, end)[i].duration == end,
{
    lemma_seq_mean_bound(note.pitches);
}

/// A sample keeps the notes as a segmentation gives them.
proof fn lemma_step_keeps_segmented(
    config: SegmenterConfig,
    model: SegmenterModel,
    pitch_hz: u32,
    time: u32,
)
    requires
        is_segmented_model(config, model),
    ensures
        is_segmented_model(config, segmenter_step(config, model, pitch_hz, time)),
{
    if let Some(note) = model.open {
        lemma_closed_note(config, note, time);
    }
}

/// A sample that is no earlier than `now` keeps the notes in order.
proof fn lemma_step_keeps_order(
    config: SegmenterConfig,
    model: SegmenterModel,
    pitch_hz: u32,
    time: u32,
    now: int,
)
    requires
        is_segmented_model(config, model),
        is_in_order(model, now),
        now <= time,
    ensures
        is_in_order(segmenter_step(config, model, pitch_hz, time), time as int),
{
    if let Some(note) = model.open {
        lemma_closed_note(config, note, time);
    }
}

/// A run of samples keeps the notes as a segmentation gives them, and in
/// order where the times of the samples never go back.
pub proof fn lemma_run_keeps_segmented(config: SegmenterConfig, samples: Seq<(u32, u32)>)
    ensures
        is_segmented_model(config, segmenter_run(config, initial_model(), samples)),
        times_ascend(samples) ==> is_in_order(
            segmenter_run(config, initial_model(), samples),
            last_time(samples),
        ),
    decreases samples.len(),
{
    if samples.len() > 0 {
        let before = samples.drop_last();
        lemma_run_keeps_segmented(config, before);
        let model = segmenter_run(config, initial_model(), before);
        lemma_step_keeps_segmented(config, model, samples.last().0, samples.last().1);
        if times_ascend(samples) {
            assert(times_ascend(before)) by {
                assert forall|i: int, j: int| 0 <= i < j < before.len() implies (
                #[trigger] before[i]).1 <= (#[trigger] before[j]).1 by {
                    assert(before[i] == samples[i]);
                    assert(before[j] == samples[j]);
                }
            }
            if before.len() > 0 {
                assert(before.last() == samples[before.len() - 1]);
                assert(samples[before.len() - 1].1 <= samples[samples.len() - 1].1);
            }
            lemma_step_keeps_order(
                config,
                model,
                samples.last().0,
                samples.last().1,
                last_time(before),
            );
        }
    }
}

/// Every note of a recording is named after its MIDI number and no shorter
/// than the least duration.
pub proof fn lemma_segmented_notes_are_well_formed(
    config: SegmenterConfig,
    pitch_hz: Seq<u32>,
    onsets: Seq<u32>,
)
    ensures
        forall|i: int|
            0 <= i < segmented_notes(config, pitch_hz, onsets).len() ==> is_segmented_note(
                config,
                #[trigger] segmented_notes(config, pitch_hz, onsets)[i],
            ),
{
    if pitch_hz.len() > 0 && onsets.len() > 0 {
        let samples = timed_samples(config, pitch_hz, onsets);
        lemma_run_keeps_segmented(config, samples);
        let model = segmenter_run(config, initial_model(), samples);
        if let Some(note) = model.open {
            lemma_closed_note(config, note, onsets.last());
        }
    }
}

/// The times of the samples of a recording never go back.
pub open spec fn sample_times_ascend(
    config: SegmenterConfig,
    pitch_hz: Seq<u32>,
    onsets: Seq<u32>,
) -> bool {
    forall|i: int, j: int|
        0 <= i < j < pitch_hz.len() ==> sample_time(config, onsets, i) <= sample_time(
            config,
            onsets,
            j,
        )
}

/// Where the times of its samples never go back and the least duration is
/// not zero, no two notes of a recording start at the same time.
pub proof fn lemma_segmented_notes_start_apart(
    config: SegmenterConfig,
    pitch_hz: Seq<u32>,
    onsets: Seq<u32>,
)
    requires
        config.min_duration > 0,
        sample_times_ascend(config, pitch_hz, onsets),
    ensures
        distinct_starts(segmented_notes(config, pitch_hz, onsets)),
{
    let notes = segmented_notes(config, pitch_hz, onsets);
    if pitch_hz.len() > 0 && onsets.len() > 0 {
        let samples = timed_samples(config, pitch_hz, onsets);
        assert(times_ascend(samples)) by {
            assert forall|i: int, j: int| 0 <= i < j < samples.len() implies (
            #[trigger] samples[i]).1 <= (#[trigger] samples[j]).1 by {
                assert(sample_time(config, onsets, i) <= sample_time(config, onsets, j));
            }
        }
        lemma_run_keeps_segmented(config, samples);
        let model = segmenter_run(config, initial_model(), samples);
        if let Some(note) = model.open {
            lemma_closed_note(config, note, onsets.last());
        }
        assert forall|i: int, j: int| 0 <= i < j < notes.len() implies (
        #[trigger] notes[i]).start_time != (#[trigger] notes[j]).start_time by {
            assert(notes[i] == model.emitted[i]);
            assert(is_segmented_note(config, model.emitted[i]));
            if j < model.emitted.len() {
                assert(notes[j] == model.emitted[j]);
            }
        }
    }
}

/// Where every sample has an onset of its own and the onsets never go back,
/// the times of the samples never go back.
pub proof fn lemma_ascending_onsets(config: SegmenterConfig, pitch_hz: Seq<u32>, onsets: Seq<u32>)
    requires
        pitch_hz.len() <= onsets.len(),
        forall|i: int, j: int| 0 <= i < j < onsets.len() ==> onsets[i] <= onsets[j],
    ensures
        sample_times_ascend(config, pitch_hz, onsets),
{
}

} // verus!
