use aubio::{Onset, Pitch};
use audio_ai::audio_analysis::{analyze_stream_chunk, NoteEvent, StreamingState};

/// Runs the detectors on a chunk and takes what they find into the state.
fn detect_and_record(
    chunk: &[f32],
    sample_rate: usize,
    state: &mut StreamingState,
    pitch: &mut Pitch,
    onset: &mut Onset,
) -> Option<NoteEvent> {
    let p = pitch.do_result(chunk).ok()?;
    let _onset_val = onset.do_result(chunk).ok()?;
    let millihertz = if p > 0.0 { (p as f64 * 1000.0).round() as u32 } else { 0 };
    analyze_stream_chunk(chunk.len(), sample_rate, state, millihertz)
}

#[test]
fn test_streaming_state_accumulates_notes() {
    let sample_rate = 44100;
    let win_size = 1024;
    let hop_size = 512;

    let mut pitch = Pitch::new(
        aubio::PitchMode::Yin,
        win_size,
        hop_size,
        sample_rate as u32,
    )
    .unwrap();
    pitch.set_unit(aubio::PitchUnit::Hz);
    pitch.set_silence(-40.0);

    let mut onset = Onset::new(
        aubio::OnsetMode::Complex,
        win_size,
        hop_size,
        sample_rate as u32,
    )
    .unwrap();

    let mut state = StreamingState {
        current_time: 0,
        detected_notes: Vec::new(),
        residue: 0,
    };

    // Generate a fake sine wave chunk at 440 Hz (A4)
    let freq = 440.0;
    let chunk: Vec<f32> = (0..hop_size)
        .map(|n| (2.0 * std::f32::consts::PI * freq * n as f32 / sample_rate as f32).sin())
        .collect();

    let note = detect_and_record(&chunk, sample_rate, &mut state, &mut pitch, &mut onset);

    // We expect either a detected note or None depending on aubio internals,
    // but state.current_time should advance
    assert!(state.current_time > 0);
    if let Some(n) = note {
        assert!(n.pitch_hz > 0);
    }
}

#[test]
fn stream_chunk_records_detected_pitch_at_new_time() {
    let mut state = StreamingState { current_time: 1_000, detected_notes: Vec::new(), residue: 0 };
    // 4410 samples at 44.1 kHz are 100 ms
    let event: Option<NoteEvent> = analyze_stream_chunk(4410, 44100, &mut state, 261_630);
    assert_eq!(state.current_time, 1_100);
    let event = event.unwrap();
    assert_eq!(event.time, 1_100);
    assert_eq!(event.pitch_hz, 261_630);
    assert_eq!(event.confidence, 1_000_000);
    assert_eq!(state.detected_notes.len(), 1);
    assert_eq!(state.detected_notes[0].time, 1_100);
    assert_eq!(state.detected_notes[0].pitch_hz, 261_630);
}

#[test]
fn stream_chunk_without_pitch_only_advances_the_clock() {
    let mut state = StreamingState { current_time: 0, detected_notes: Vec::new(), residue: 0 };
    // 512 samples at 44.1 kHz are 11.6 ms: 11 are counted, the rest is carried over
    assert!(analyze_stream_chunk(512, 44100, &mut state, 0).is_none());
    assert_eq!(state.current_time, 11);
    assert_eq!(state.residue, 512_000 - 11 * 44_100);
    assert!(state.detected_notes.is_empty());
}

#[test]
fn stream_clock_stops_at_its_largest_time() {
    let mut state = StreamingState { current_time: u32::MAX - 5, detected_notes: Vec::new(), residue: 0 };
    assert!(analyze_stream_chunk(48_000, 48_000, &mut state, 0).is_none());
    assert_eq!(state.current_time, u32::MAX);
}

#[test]
fn a_chunk_at_no_rate_stops_the_clock() {
    let mut state = StreamingState { current_time: 10, detected_notes: Vec::new(), residue: 0 };
    let event = analyze_stream_chunk(512, 0, &mut state, 440_000).unwrap();
    assert_eq!(state.current_time, u32::MAX);
    assert_eq!(event.time, u32::MAX);
    assert_eq!(state.detected_notes.len(), 1);
}

#[test]
fn the_clock_loses_no_part_of_a_millisecond_between_chunks() {
    let mut state = StreamingState { current_time: 0, detected_notes: Vec::new(), residue: 0 };
    for _ in 0..5 {
        analyze_stream_chunk(512, 44100, &mut state, 0);
    }
    // 2560 samples at 44.1 kHz are 58.05 ms
    assert_eq!(state.current_time, 58);
    for _ in 5..2584 {
        analyze_stream_chunk(512, 44100, &mut state, 0);
    }
    // 2584 chunks are 1 323 008 samples: 30.0002 s
    assert_eq!(state.current_time, 30_000);
    assert_eq!(state.residue, 1_323_008_000 - 30_000 * 44_100);

    // chunks shorter than a millisecond add up
    let mut state = StreamingState { current_time: 7, detected_notes: Vec::new(), residue: 0 };
    for _ in 0..100 {
        analyze_stream_chunk(10, 48_000, &mut state, 0);
    }
    assert_eq!(state.current_time, 7 + 20);
    assert_eq!(state.residue, 40_000);
}
