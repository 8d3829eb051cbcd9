use audio_ai::audio_analysis::{AnalysisResult, NoteEvent};
use audio_ai::comparison::{ComparisonMetrics, NoteSequence, PitchError, TimingError};
use audio_ai::listing::{
    describe_note, format_percent, format_time, list_notes, list_pitch_errors,
    list_timing_errors, pitch_statistics,
};
use audio_ai::names::{precedence, unique_note_names, Precedence};
use audio_ai::processor::{
    average_of, chunk_onsets, describe_events, describe_samples, generate_error_summary,
    generate_instructions, hz_to_note, hz_to_tab, identify_piece, summarize_pitch,
};
use audio_ai::text::{format_fixed, format_signed_fixed};

fn metrics(overall: u32, note: u32, pitch: u32, timing: u32, rhythm: u32) -> ComparisonMetrics {
    ComparisonMetrics {
        pitch_accuracy: pitch,
        rhythm_accuracy: rhythm,
        timing_accuracy: timing,
        note_accuracy: note,
        overall_similarity: overall,
        missed_notes: vec![],
        extra_notes: vec![],
        pitch_errors: vec![],
        timing_errors: vec![],
    }
}

fn note(name: &str, start_time: u32, duration: u32) -> NoteSequence {
    NoteSequence { note_name: name.to_string(), midi_note: 0, start_time, duration, avg_pitch_hz: 0 }
}

#[test]
fn instructions_depend_on_the_comparison() {
    let with = generate_instructions(true);
    assert!(with.starts_with("You are analyzing a student's guitar performance compared to a reference recording. The 'comparison' section"));
    assert!(with.contains("Focus on:\n1. Overall similarity score and what it means\n2. Specific errors"));
    assert!(with.ends_with("well\n\nUse the note sequences and rhythm patterns to understand the musical context. Be specific about which notes or sections need work."));
    let without = generate_instructions(false);
    assert!(without.starts_with("You are analyzing a guitar recording. Use the provided statistics and patterns to:\n1. Identify"));
    assert!(without.ends_with("4. Suggest areas for improvement\n\nConsider pitch stability, rhythm consistency, and note accuracy."));
}

#[test]
fn summary_gives_the_verdict_alone_for_a_good_performance() {
    assert_eq!(
        generate_error_summary(&metrics(900_000, 700_000, 700_000, 700_000, 700_000)),
        "Excellent performance! Very close to the reference."
    );
    assert_eq!(
        generate_error_summary(&metrics(899_999, 1_000_000, 1_000_000, 1_000_000, 1_000_000)),
        "Good performance with minor errors."
    );
    assert_eq!(
        generate_error_summary(&metrics(750_000, 1_000_000, 1_000_000, 1_000_000, 1_000_000)),
        "Good performance with minor errors."
    );
    assert_eq!(
        generate_error_summary(&metrics(749_999, 1_000_000, 1_000_000, 1_000_000, 1_000_000)),
        "Fair performance. Several areas need improvement."
    );
    assert_eq!(
        generate_error_summary(&metrics(499_999, 1_000_000, 1_000_000, 1_000_000, 1_000_000)),
        "Needs significant practice. Many errors detected."
    );
}

#[test]
fn summary_remarks_on_what_went_amiss() {
    let mut poor = metrics(566_666, 666_666, 0, 666_667, 1_000_000);
    poor.missed_notes = vec!["B4 at 0.50s".to_string()];
    assert_eq!(
        generate_error_summary(&poor),
        "Fair performance. Several areas need improvement. \
         Note accuracy is low (67%). Focus on playing the correct notes. \
         Pitch accuracy needs work (0%). Notes are out of tune. \
         Timing is off (67%). Practice with a metronome. \
         Missed 1 note(s). Make sure to play all notes in the piece."
    );
    let mut other = metrics(400_000, 1_000_000, 1_000_000, 1_000_000, 699_999);
    other.extra_notes = vec!["x".to_string(); 12];
    assert_eq!(
        generate_error_summary(&other),
        "Needs significant practice. Many errors detected. \
         Rhythm accuracy needs improvement (70%). \
         Played 12 extra note(s) not in the reference."
    );
}

#[test]
fn fixed_point_numbers_are_written_rounded() {
    assert_eq!(format_fixed(1_234, 3, 2), "1.23");
    assert_eq!(format_fixed(1_235, 3, 2), "1.24");
    assert_eq!(format_fixed(500, 3, 2), "0.50");
    assert_eq!(format_fixed(999, 3, 2), "1.00");
    assert_eq!(format_fixed(0, 3, 2), "0.00");
    assert_eq!(format_fixed(1_234, 3, 3), "1.234");
    assert_eq!(format_fixed(7, 3, 3), "0.007");
    assert_eq!(format_fixed(100, 0, 1), "100.0");
    assert_eq!(format_fixed(12, 0, 0), "12");
    assert_eq!(format_fixed(15, 1, 0), "2");
    assert_eq!(format_fixed(14, 1, 0), "1");
    assert_eq!(format_fixed(u64::MAX, 0, 9), "18446744073709551615.000000000");
    assert_eq!(format_fixed(u64::MAX, 9, 0), "18446744074");
    assert_eq!(format_signed_fixed(-100, 0, 1), "-100.0");
    assert_eq!(format_signed_fixed(51, 0, 1), "51.0");
    assert_eq!(format_signed_fixed(i64::MIN, 0, 0), "-9223372036854775808");
    assert_eq!(format_percent(850_000), "85.0%");
    assert_eq!(format_percent(666_666), "66.7%");
    assert_eq!(format_percent(999_950), "100.0%");
    assert_eq!(format_percent(0), "0.0%");
    assert_eq!(format_time(1_234), "1.23s");
}

#[test]
fn notes_beside_frequencies() {
    assert_eq!(hz_to_note(440_000), "A4");
    assert_eq!(hz_to_note(261_630), "C4");
    assert_eq!(hz_to_note(523_251), "C5");
    assert_eq!(hz_to_note(130_813), "C3");
    assert_eq!(hz_to_note(196_000), "G3");
    assert_eq!(hz_to_note(220_000), "A3");
    assert_eq!(hz_to_note(246_942), "B3");
    assert_eq!(hz_to_note(8_176), "C-1");
    assert_eq!(hz_to_note(0), "N/A");
    // below and above the MIDI notes the octaves go on
    assert_eq!(hz_to_note(7_717), "B-2");
    assert_eq!(hz_to_note(1), "C-14");
    assert_eq!(hz_to_note(13_289_750), "G#9");
    for midi in 0u8..=127 {
        let hz = (440_000.0 * 2f64.powf((midi as f64 - 69.0) / 12.0)).round() as u32;
        assert_eq!(hz_to_note(hz), audio_ai::pitch::midi_to_note_name(midi));
    }
    assert_eq!(hz_to_tab(440_000), "fret 9");
    assert_eq!(hz_to_tab(261_630), "fret 0");
    assert_eq!(hz_to_tab(493_883), "fret 11");
    assert_eq!(hz_to_tab(0), "x");
    assert_eq!(hz_to_tab(20_000_000), "x");
}

#[test]
fn samples_are_listed_with_their_times() {
    let result = AnalysisResult {
        pitch_hz: vec![440_000, 0, 329_630],
        tempo_bpm: None,
        onsets: vec![0, 250],
        spectral_centroid: vec![],
        streaming: None,
    };
    let records = describe_samples(&result);
    assert_eq!(records.len(), 3);
    assert_eq!(
        (records[0].time, records[0].pitch_hz, records[0].note.as_str(), records[0].midi, records[0].tab.as_str()),
        (0, 440_000, "A4", Some(69), "fret 9")
    );
    let low = AnalysisResult {
        pitch_hz: vec![220_000],
        tempo_bpm: None,
        onsets: vec![0],
        spectral_centroid: vec![],
        streaming: None,
    };
    let listed = describe_samples(&low);
    assert_eq!(
        (listed[0].time, listed[0].note.as_str(), listed[0].midi, listed[0].tab.as_str()),
        (0, "A3", Some(57), "fret 9")
    );
    assert_eq!(
        (records[1].time, records[1].pitch_hz, records[1].note.as_str(), records[1].midi, records[1].tab.as_str()),
        (250, 0, "N/A", None, "x")
    );
    // the third sample has no onset: it is timed at 2 * 10 ms
    assert_eq!(
        (records[2].time, records[2].pitch_hz, records[2].note.as_str(), records[2].midi, records[2].tab.as_str()),
        (20, 329_630, "E4", Some(64), "fret 4")
    );
    let events = describe_events(&vec![NoteEvent { time: 77, pitch_hz: 440_000, confidence: 1_000_000 }]);
    assert_eq!(events.len(), 1);
    assert_eq!((events[0].time, events[0].note.as_str()), (77, "A4"));
}

#[test]
fn figures_of_the_frequencies() {
    assert!(summarize_pitch(&vec![]).is_none());
    let summary = summarize_pitch(&vec![440_000, 261_630, 523_251]).unwrap();
    assert_eq!((summary.average, summary.lowest, summary.highest), (408_293, 261_630, 523_251));
    assert_eq!(average_of(&vec![]), None);
    assert_eq!(average_of(&vec![1_000_000, 2_000_001]), Some(1_500_000));
}

#[test]
fn the_known_piece_is_told_by_pitch_and_tempo() {
    let title = Some("Crazy Train - Ozzy Osbourne (solo) Randy Rhodes".to_string());
    assert_eq!(identify_piece(Some(440_000), Some(120_000)), title);
    assert_eq!(identify_piece(Some(400_001), Some(100_001)), title);
    assert_eq!(identify_piece(Some(400_000), Some(120_000)), None);
    assert_eq!(identify_piece(Some(500_000), Some(120_000)), None);
    assert_eq!(identify_piece(Some(440_000), Some(100_000)), None);
    assert_eq!(identify_piece(Some(440_000), None), None);
    assert_eq!(identify_piece(None, Some(120_000)), None);
}

#[test]
fn a_recording_is_cut_into_chunks_of_ten_seconds() {
    assert!(chunk_onsets(&vec![]).is_empty());
    assert!(chunk_onsets(&vec![0]).is_empty());
    let chunks = chunk_onsets(&vec![0, 5_000, 9_999, 10_000, 15_000, 25_000]);
    let seen: Vec<(u32, u32, Vec<usize>)> =
        chunks.iter().map(|c| (c.start, c.end, c.onset_indices.clone())).collect();
    assert_eq!(
        seen,
        vec![
            (0, 10_000, vec![0, 1, 2]),
            (10_000, 20_000, vec![3, 4]),
            // the last onset ends the last chunk and falls in none
            (20_000, 25_000, vec![]),
        ]
    );
    let chunks = chunk_onsets(&vec![3_000, 10_000]);
    assert_eq!(chunks.len(), 1);
    assert_eq!((chunks[0].start, chunks[0].end), (0, 10_000));
    assert_eq!(chunks[0].onset_indices, vec![0]);
}

#[test]
fn notes_and_errors_are_listed_as_text() {
    let line = describe_note(&note("F#3", 1_234, 567));
    assert_eq!((line.note.as_str(), line.time.as_str(), line.duration.as_str()), ("F#3", "1.23", "0.567"));
    assert_eq!(list_notes(&vec![note("A4", 0, 100), note("B4", 100, 2_000)]).len(), 2);

    let pitch_errors: Vec<PitchError> = (0..12)
        .map(|i| PitchError {
            time: 500 * i,
            expected_note: "A4".to_string(),
            played_note: "G#4".to_string(),
            cent_difference: -100 - i as i32,
        })
        .collect();
    let lines = list_pitch_errors(&pitch_errors);
    assert_eq!(lines.len(), 10);
    assert_eq!(
        (lines[9].time.as_str(), lines[9].expected.as_str(), lines[9].played.as_str(), lines[9].cents_off.as_str()),
        ("4.50s", "A4", "G#4", "-109.0")
    );
    assert_eq!(list_pitch_errors(&pitch_errors[..3].to_vec()).len(), 3);

    let timing_errors = vec![TimingError {
        note: "B4".to_string(),
        expected_time: 500,
        played_time: 600,
        ms_difference: 100,
    }];
    let lines = list_timing_errors(&timing_errors);
    assert_eq!(lines.len(), 1);
    assert_eq!(
        (lines[0].note.as_str(), lines[0].expected_time.as_str(), lines[0].played_time.as_str(), lines[0].ms_late.as_str()),
        ("B4", "0.50s", "0.60s", "100.0")
    );
}

#[test]
fn statistics_of_the_pitch() {
    assert!(pitch_statistics(&vec![]).is_none());
    let statistics = pitch_statistics(&vec![440_000, 466_164, 493_883]).unwrap();
    assert_eq!(statistics.average_hz, 466_682);
    assert_eq!(statistics.average_note, "A#4");
    assert_eq!(statistics.min_hz, 440_000);
    assert_eq!(statistics.min_note, "A4");
    assert_eq!(statistics.max_hz, 493_883);
    assert_eq!(statistics.max_note, "B4");
    assert_eq!(statistics.pitch_range_semitones, 2);
    // one less the deviation, 22.0007 Hz, over the mean, 466.6823 Hz
    assert_eq!(statistics.pitch_stability, 952_858);
    let steady = pitch_statistics(&vec![440_000; 4]).unwrap();
    assert_eq!(steady.pitch_range_semitones, 0);
    assert_eq!(steady.pitch_stability, 1_000_000);
    let silent = pitch_statistics(&vec![0, 0]).unwrap();
    assert_eq!(silent.average_note, "N/A");
    assert_eq!(silent.pitch_stability, 0);
}

#[test]
fn names_are_listed_once_in_dictionary_order() {
    let names = ["B4", "A4", "C5", "A4", "A#3", "A3", "A10", "", "B", "B4", "é", "C-1"];
    let notes: Vec<NoteSequence> = names.iter().map(|n| note(n, 0, 0)).collect();
    let mut expected: Vec<String> = names.iter().map(|n| n.to_string()).collect();
    expected.sort();
    expected.dedup();
    assert_eq!(unique_note_names(&notes), expected);
    assert_eq!(expected, vec!["", "A#3", "A10", "A3", "A4", "B", "B4", "C-1", "C5", "é"]);
    assert!(unique_note_names(&vec![]).is_empty());
    assert_eq!(precedence("A4", "A4"), Precedence::Same);
    assert_eq!(precedence("A", "A4"), Precedence::Before);
    assert_eq!(precedence("B", "A4"), Precedence::After);
    assert_eq!(precedence("A#4", "A4"), Precedence::Before);
}
