//! The whole-number scores of the library held against the same formulas
//! worked in floating point, on many recordings.

use audio_ai::audio_analysis::AnalysisResult;
use audio_ai::comparison::{compare_recordings, extract_note_sequence, extract_rhythm_pattern};

struct Random(u64);

impl Random {
    fn next(&mut self) -> u64 {
        self.0 ^= self.0 << 13;
        self.0 ^= self.0 >> 7;
        self.0 ^= self.0 << 17;
        self.0
    }

    fn below(&mut self, bound: u64) -> u64 {
        self.next() % bound
    }
}

/// A note in floating point: name, MIDI number, start and duration in
/// milliseconds, mean pitch in hertz.
#[derive(Debug, Clone)]
struct FloatNote {
    name: String,
    midi: u8,
    start: f64,
    duration: f64,
    pitch: f64,
}

fn float_midi(hz: f64) -> Option<u8> {
    if hz <= 0.0 {
        return None;
    }
    let midi = (69.0 + 12.0 * (hz / 440.0).log2()).round();
    if (0.0..=127.0).contains(&midi) {
        Some(midi as u8)
    } else {
        None
    }
}

fn float_name(midi: u8) -> String {
    let names = ["C", "C#", "D", "D#", "E", "F", "F#", "G", "G#", "A", "A#", "B"];
    format!("{}{}", names[(midi % 12) as usize], (midi / 12) as i32 - 1)
}

fn float_notes(pitch_hz: &[f64], onsets_ms: &[f64]) -> Vec<FloatNote> {
    let mut notes = Vec::new();
    if pitch_hz.is_empty() || onsets_ms.is_empty() {
        return notes;
    }
    let mut open: Option<(u8, f64, Vec<f64>)> = None;
    for (i, &hz) in pitch_hz.iter().enumerate() {
        let time = onsets_ms.get(i).copied().unwrap_or(i as f64 * 10.0);
        let Some(midi) = float_midi(hz) else { continue };
        open = match open.take() {
            None => Some((midi, time, vec![hz])),
            Some((first, start, mut pitches)) => {
                if (midi as i32 - first as i32).abs() <= 1 {
                    pitches.push(hz);
                    Some((first, start, pitches))
                } else {
                    if time - start >= 100.0 {
                        notes.push(FloatNote {
                            name: float_name(first),
                            midi: first,
                            start,
                            duration: time - start,
                            pitch: pitches.iter().sum::<f64>() / pitches.len() as f64,
                        });
                    }
                    Some((midi, time, vec![hz]))
                }
            }
        };
    }
    if let (Some((first, start, pitches)), Some(&last)) = (open, onsets_ms.last()) {
        if last - start >= 100.0 {
            notes.push(FloatNote {
                name: float_name(first),
                midi: first,
                start,
                duration: last - start,
                pitch: pitches.iter().sum::<f64>() / pitches.len() as f64,
            });
        }
    }
    notes
}

/// Mean interval in milliseconds, stability, and number of intervals.
fn float_rhythm(onsets_ms: &[f64]) -> (f64, f64, usize) {
    let intervals: Vec<f64> = onsets_ms.windows(2).map(|w| w[1] - w[0]).collect();
    let mean = if intervals.is_empty() {
        0.0
    } else {
        intervals.iter().sum::<f64>() / intervals.len() as f64
    };
    let stability = if mean > 0.0 && intervals.len() > 1 {
        let variance = intervals.iter().map(|x| (x - mean).powi(2)).sum::<f64>()
            / intervals.len() as f64;
        (1.0 / (1.0 + variance.sqrt() / mean)).min(1.0)
    } else {
        0.0
    };
    (mean, stability, intervals.len())
}

fn nearest<'a>(played: &'a [FloatNote], time: f64) -> Option<&'a FloatNote> {
    let mut best: Option<&FloatNote> = None;
    for note in played {
        if best.map_or(true, |b| (note.start - time).abs() < (b.start - time).abs()) {
            best = Some(note);
        }
    }
    best.filter(|b| (b.start - time).abs() <= 500.0)
}

struct FloatScores {
    note: f64,
    pitch: f64,
    timing: f64,
    rhythm: f64,
    overall: f64,
    pitch_errors: usize,
    timing_errors: usize,
    missed: Vec<String>,
    extra: Vec<String>,
    /// Whether an answer lies so near the edge of the pitch tolerance that a
    /// cent more or less decides.
    on_the_edge: bool,
}

fn float_scores(
    reference: &[FloatNote],
    played: &[FloatNote],
    reference_rhythm: (f64, f64, usize),
    played_rhythm: (f64, f64, usize),
) -> FloatScores {
    let mut correct = 0;
    let mut cents_off = Vec::new();
    let mut gaps = 0.0;
    let mut timing_errors = 0;
    let mut on_the_edge = false;
    if !reference.is_empty() && !played.is_empty() {
        for note in reference {
            if let Some(answer) = nearest(played, note.start) {
                let cents = 1200.0 * (answer.pitch / note.pitch).log2();
                if (cents.abs() - 50.0).abs() < 1.5 {
                    on_the_edge = true;
                }
                if cents.abs() <= 50.0 {
                    correct += 1;
                } else {
                    cents_off.push(cents.abs());
                }
                let gap = (answer.start - note.start).abs();
                gaps += gap;
                if gap > 50.0 {
                    timing_errors += 1;
                }
            }
        }
    }
    let both = !reference.is_empty() && !played.is_empty();
    let note = if both { correct as f64 / reference.len() as f64 } else { 0.0 };
    let pitch = if cents_off.is_empty() {
        1.0
    } else {
        (1.0 - cents_off.iter().sum::<f64>() / cents_off.len() as f64 / 100.0).max(0.0)
    };
    let timing = if both { (1.0 - gaps / reference.len() as f64 / 500.0).max(0.0) } else { 0.0 };
    let rhythm = if reference_rhythm.2 == 0 || played_rhythm.2 == 0 {
        0.0
    } else {
        let tempo = (1.0
            - (reference_rhythm.0 - played_rhythm.0).abs() / reference_rhythm.0.max(100.0))
        .max(0.0);
        let stability = 1.0 - (reference_rhythm.1 - played_rhythm.1).abs();
        0.6 * tempo + 0.4 * stability
    };
    let amiss = |notes: &[FloatNote], others: &[FloatNote]| -> Vec<String> {
        notes
            .iter()
            .filter(|n| {
                !others.iter().any(|o| (o.start - n.start).abs() <= 500.0 && o.name == n.name)
            })
            .map(|n| format!("{} at {:.2}s", n.name, n.start / 1000.0))
            .collect()
    };
    FloatScores {
        note,
        pitch,
        timing,
        rhythm,
        overall: 0.3 * note + 0.25 * pitch + 0.25 * timing + 0.2 * rhythm,
        pitch_errors: cents_off.len(),
        timing_errors,
        missed: amiss(reference, played),
        extra: amiss(played, reference),
        on_the_edge,
    }
}

/// A recording of a few dozen samples: pitches a little off the semitones
/// between A2 and A5, some silence, onsets on whole hundredths of a second.
fn random_recording(random: &mut Random) -> AnalysisResult {
    let samples = 5 + random.below(40) as usize;
    let mut pitch_hz = Vec::new();
    let mut midi = 45 + random.below(36) as i64;
    for _ in 0..samples {
        match random.below(10) {
            0 => {
                pitch_hz.push(0);
                continue;
            }
            1..=3 => midi = (midi + random.below(7) as i64 - 3).clamp(45, 81),
            _ => {}
        }
        let detune = random.below(41) as f64 - 20.0;
        let hz = 440.0 * 2f64.powf((midi as f64 - 69.0) / 12.0 + detune / 1200.0);
        pitch_hz.push((hz * 1000.0).round() as u32);
    }
    let onsets_len = if random.below(4) == 0 { samples / 2 } else { samples };
    let mut onsets = Vec::new();
    let mut time = 10 * random.below(20) as u32;
    for _ in 0..onsets_len {
        onsets.push(time);
        time += 10 * (2 + random.below(30) as u32);
    }
    AnalysisResult { pitch_hz, tempo_bpm: None, onsets, spectral_centroid: vec![], streaming: None }
}

fn in_float(analysis: &AnalysisResult) -> (Vec<f64>, Vec<f64>) {
    (
        analysis.pitch_hz.iter().map(|&hz| hz as f64 / 1000.0).collect(),
        analysis.onsets.iter().map(|&t| t as f64).collect(),
    )
}

#[test]
fn notes_agree_with_floating_point() {
    let mut random = Random(0x9e37_79b9_7f4a_7c15);
    let mut notes_seen = 0;
    for _ in 0..500 {
        let analysis = random_recording(&mut random);
        let (pitch_hz, onsets) = in_float(&analysis);
        let expected = float_notes(&pitch_hz, &onsets);
        let notes = extract_note_sequence(&analysis);
        assert_eq!(notes.len(), expected.len());
        for (note, float) in notes.iter().zip(expected.iter()) {
            assert_eq!(note.note_name, float.name);
            assert_eq!(note.midi_note, float.midi);
            assert_eq!(note.start_time as f64, float.start);
            assert_eq!(note.duration as f64, float.duration);
            assert!((note.avg_pitch_hz as f64 / 1000.0 - float.pitch).abs() < 0.0011);
        }
        notes_seen += notes.len();
    }
    assert!(notes_seen > 1_000);
}

#[test]
fn rhythm_agrees_with_floating_point() {
    let mut random = Random(0x2545_f491_4f6c_dd1d);
    for _ in 0..500 {
        let analysis = random_recording(&mut random);
        let (_, onsets) = in_float(&analysis);
        let (mean, stability, intervals) = float_rhythm(&onsets);
        let rhythm = extract_rhythm_pattern(&analysis);
        assert_eq!(rhythm.inter_onset_intervals.len(), intervals);
        assert!((rhythm.avg_interval as f64 - mean).abs() < 1.0);
        assert!((rhythm.tempo_stability as f64 / 1e6 - stability).abs() < 0.01);
    }
}

#[test]
fn scores_agree_with_floating_point() {
    let mut random = Random(0xd1b5_4a32_d192_ed03);
    let mut compared = 0;
    for round in 0..500 {
        let reference = random_recording(&mut random);
        // every other round the played recording is the reference with a few changes
        let player = if round % 2 == 0 {
            random_recording(&mut random)
        } else {
            let mut player = AnalysisResult {
                pitch_hz: reference.pitch_hz.clone(),
                tempo_bpm: None,
                onsets: reference.onsets.clone(),
                spectral_centroid: vec![],
                streaming: None,
            };
            for hz in player.pitch_hz.iter_mut() {
                if random.below(5) == 0 {
                    *hz = (*hz as f64 * 2f64.powf((random.below(301) as f64 - 150.0) / 1200.0))
                        as u32;
                }
            }
            let shift = 10 * random.below(12) as u32;
            for time in player.onsets.iter_mut() {
                *time += shift;
            }
            player
        };
        let (reference_pitch, reference_onsets) = in_float(&reference);
        let (player_pitch, player_onsets) = in_float(&player);
        let expected = float_scores(
            &float_notes(&reference_pitch, &reference_onsets),
            &float_notes(&player_pitch, &player_onsets),
            float_rhythm(&reference_onsets),
            float_rhythm(&player_onsets),
        );
        if expected.on_the_edge {
            continue;
        }
        let metrics = compare_recordings(&reference, &player);
        let fraction = |score: u32| score as f64 / 1e6;
        assert!((fraction(metrics.note_accuracy) - expected.note).abs() < 1e-5);
        assert!((fraction(metrics.pitch_accuracy) - expected.pitch).abs() < 0.01);
        assert!((fraction(metrics.timing_accuracy) - expected.timing).abs() < 1e-5);
        assert!((fraction(metrics.rhythm_accuracy) - expected.rhythm).abs() < 0.02);
        assert!((fraction(metrics.overall_similarity) - expected.overall).abs() < 0.01);
        assert_eq!(metrics.pitch_errors.len(), expected.pitch_errors);
        assert_eq!(metrics.timing_errors.len(), expected.timing_errors);
        assert_eq!(metrics.missed_notes, expected.missed);
        assert_eq!(metrics.extra_notes, expected.extra);
        compared += 1;
    }
    assert!(compared > 400);
}
