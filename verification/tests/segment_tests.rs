use audio_ai::audio_analysis::AnalysisResult;
use audio_ai::segment::{extract_note_sequence, extract_note_sequence_with, NoteSegmenter, SegmenterConfig};

fn recording(pitch_hz: Vec<u32>, onsets: Vec<u32>) -> AnalysisResult {
    AnalysisResult { pitch_hz, tempo_bpm: None, onsets, spectral_centroid: vec![], streaming: None }
}

fn summary(notes: &[audio_ai::comparison::NoteSequence]) -> Vec<(String, u8, u32, u32, u32)> {
    notes
        .iter()
        .map(|n| (n.note_name.clone(), n.midi_note, n.start_time, n.duration, n.avg_pitch_hz))
        .collect()
}

#[test]
fn empty_pitch_or_onsets_give_no_notes() {
    assert!(extract_note_sequence(&recording(vec![], vec![])).is_empty());
    assert!(extract_note_sequence(&recording(vec![440_000, 440_000], vec![])).is_empty());
    assert!(extract_note_sequence(&recording(vec![], vec![0, 500])).is_empty());
}

#[test]
fn notes_with_their_times_and_means() {
    let analysis = recording(
        vec![440_000, 440_000, 440_000, 494_000, 494_000, 523_250, 523_250],
        vec![0, 100, 200, 300, 400, 500, 600],
    );
    // C5 is one semitone from B4 and continues it; the note ends at the last
    // onset and its pitch is the mean of its four samples.
    assert_eq!(
        summary(&extract_note_sequence(&analysis)),
        vec![("A4".to_string(), 69, 0, 300, 440_000), ("B4".to_string(), 71, 300, 300, 508_625)]
    );
}

#[test]
fn three_notes_more_than_a_semitone_apart() {
    let analysis = recording(
        vec![440_000, 440_000, 523_251, 523_251, 659_255, 659_255],
        vec![0, 100, 200, 300, 400, 500],
    );
    assert_eq!(
        summary(&extract_note_sequence(&analysis)),
        vec![
            ("A4".to_string(), 69, 0, 200, 440_000),
            ("C5".to_string(), 72, 200, 200, 523_251),
            ("E5".to_string(), 76, 400, 100, 659_255),
        ]
    );
}

#[test]
fn neighbouring_semitone_continues_the_note() {
    // A4, then A#4 (one semitone up: continues), then B4 (two from A4: closes).
    let analysis = recording(vec![440_000, 466_164, 493_883, 493_883], vec![0, 150, 300, 450]);
    assert_eq!(
        summary(&extract_note_sequence(&analysis)),
        vec![
            // named by the pitch that opened it, its pitch the mean of both samples
            ("A4".to_string(), 69, 0, 300, 453_082),
            ("B4".to_string(), 71, 300, 150, 493_883),
        ]
    );
}

#[test]
fn short_notes_are_dropped_and_silence_is_ignored() {
    // A4 for 99 ms is noise; silence neither opens nor closes a note.
    let analysis = recording(
        vec![440_000, 0, 523_251, 0, 0, 523_251, 659_255],
        vec![0, 50, 99, 150, 200, 250, 400],
    );
    assert_eq!(
        summary(&extract_note_sequence(&analysis)),
        vec![("C5".to_string(), 72, 99, 301, 523_251)]
    );
}

#[test]
fn a_note_of_exactly_the_least_duration_is_kept() {
    let analysis = recording(vec![440_000, 523_251], vec![0, 100]);
    assert_eq!(summary(&extract_note_sequence(&analysis)), vec![("A4".to_string(), 69, 0, 100, 440_000)]);
    let analysis = recording(vec![440_000, 523_251], vec![0, 99]);
    assert!(extract_note_sequence(&analysis).is_empty());
}

#[test]
fn samples_past_the_onsets_take_fallback_times() {
    // Two onsets, four samples: samples 2 and 3 are timed 20 ms and 30 ms.
    // The last note ends at the last onset, 500 ms.
    let analysis = recording(vec![440_000, 440_000, 440_000, 523_251], vec![0, 500]);
    // A4 opened at 0 closes at the fallback time 30 ms: too short. C5 opens
    // at 30 and ends at 500.
    assert_eq!(
        summary(&extract_note_sequence(&analysis)),
        vec![("C5".to_string(), 72, 30, 470, 523_251)]
    );
}

#[test]
fn the_tuning_can_be_changed() {
    let analysis = recording(vec![440_000, 466_164, 493_883], vec![0, 50, 100]);
    let strict = SegmenterConfig { midi_threshold: 0, min_duration: 50, fallback_hop: 10 };
    assert_eq!(
        summary(&extract_note_sequence_with(&analysis, strict)),
        vec![("A4".to_string(), 69, 0, 50, 440_000), ("A#4".to_string(), 70, 50, 50, 466_164)]
    );
    let loose = SegmenterConfig { midi_threshold: 2, min_duration: 100, fallback_hop: 10 };
    assert_eq!(
        summary(&extract_note_sequence_with(&analysis, loose)),
        vec![("A4".to_string(), 69, 0, 100, 466_682)]
    );
}

#[test]
fn feeding_in_chunks_gives_the_notes_of_the_whole() {
    let pitch_hz: Vec<u32> = vec![440_000, 440_000, 440_000, 494_000, 494_000, 523_250, 523_250];
    let times: Vec<u32> = vec![0, 100, 200, 300, 400, 500, 600];
    let whole = extract_note_sequence(&recording(pitch_hz.clone(), times.clone()));

    for split in 0..=pitch_hz.len() {
        let mut segmenter = NoteSegmenter::new(SegmenterConfig::standard());
        segmenter.feed_chunk(&pitch_hz[..split].to_vec(), &times[..split].to_vec());
        segmenter.feed_chunk(&pitch_hz[split..].to_vec(), &times[split..].to_vec());
        let notes = segmenter.finish(Some(600));
        assert_eq!(summary(&notes), summary(&whole));
    }

    let mut one_by_one = NoteSegmenter::new(SegmenterConfig::standard());
    for i in 0..pitch_hz.len() {
        one_by_one.feed(pitch_hz[i], times[i]);
    }
    assert_eq!(summary(&one_by_one.finish(Some(600))), summary(&whole));
}

#[test]
fn finishing_without_an_end_drops_the_open_note() {
    let mut segmenter = NoteSegmenter::new(SegmenterConfig::standard());
    segmenter.feed(440_000, 0);
    segmenter.feed(523_251, 300);
    segmenter.feed(523_251, 900);
    assert_eq!(summary(&segmenter.finish(None)), vec![("A4".to_string(), 69, 0, 300, 440_000)]);
}
