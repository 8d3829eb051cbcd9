//! The features of one recording, and the state of a live analysis.
//!
//! Times are whole milliseconds, frequencies whole millihertz (zero where no
//! pitch was detected), a tempo is in thousandths of a beat per minute, and a
//! confidence is in millionths of one.

use vstd::prelude::*;

verus! {

/// The confidence of a detection that is taken as certain.
pub const FULL_CONFIDENCE: u32 = 1_000_000;

/// A pitch detected at one moment of a live analysis.
#[derive(Debug, Clone, Copy)]
pub struct NoteEvent {
    pub time: u32,
    pub pitch_hz: u32,
    pub confidence: u32,
}

/// What a live analysis has seen so far.
#[derive(Debug)]
pub struct StreamingState {
    /// The time of the chunks taken so far, in whole milliseconds.
    pub current_time: u32,
    pub detected_notes: Vec<NoteEvent>,
    /// What of the chunks taken so far is short of a whole millisecond, in
    /// thousandths of a sample. A fresh state carries none.
    pub residue: u64,
}

/// The features extracted from one recording.
#[derive(Debug)]
pub struct AnalysisResult {
    /// One frequency per analysed frame.
    pub pitch_hz: Vec<u32>,
    pub tempo_bpm: Option<u32>,
    /// The detected attacks, in ascending order.
    pub onsets: Vec<u32>,
    pub spectral_centroid: Vec<u32>,
    pub streaming: Option<StreamingState>,
}

/// The thousandths of a sample that a chunk of `samples` samples brings to
/// the clock, with what was carried over.
pub open spec fn chunk_total(residue: u64, samples: int) -> int {
    residue + samples * 1000
}

/// The whole milliseconds by which a chunk advances the clock: each is as
/// many thousandths of a sample as the rate has samples in a second.
pub open spec fn chunk_millis(residue: u64, samples: int, sample_rate: int) -> int {
    chunk_total(residue, samples) / sample_rate
}

/// What is carried over after a chunk: the thousandths of a sample that
/// make no whole millisecond. At a rate of zero nothing changes.
pub open spec fn carried_residue(residue: u64, samples: int, sample_rate: int) -> int {
    if sample_rate <= 0 {
        residue as int
    } else {
        chunk_total(residue, samples) % sample_rate
    }
}

/// The clock of a live analysis after a chunk of `samples` samples. It stops
/// at the largest time that it can hold, and at once at a rate of zero, at
/// which a chunk never ends.
pub open spec fn advanced_time(current: u32, residue: u64, samples: int, sample_rate: int) -> u32 {
    if sample_rate <= 0 || current + chunk_millis(residue, samples, sample_rate) > u32::MAX {
        u32::MAX
    } else {
        (current + chunk_millis(residue, samples, sample_rate)) as u32
    }
}

/// Two chunks at one rate advance the clock as one chunk of their joint
/// length does, and carry over the same: no part of a millisecond is lost
/// between chunks.
pub proof fn lemma_chunks_add_up(residue: u64, first: int, second: int, sample_rate: int)
    requires
        first >= 0,
        second >= 0,
        0 < sample_rate <= u64::MAX,
    ensures
        0 <= carried_residue(residue, first, sample_rate) < sample_rate,
        chunk_millis(residue, first, sample_rate) + chunk_millis(
            carried_residue(residue, first, sample_rate) as u64,
            second,
            sample_rate,
        ) == chunk_millis(residue, first + second, sample_rate),
        carried_residue(
            carried_residue(residue, first, sample_rate) as u64,
            second,
            sample_rate,
        ) == carried_residue(residue, first + second, sample_rate),
{
    let t1 = chunk_total(residue, first);
    let q1 = t1 / sample_rate;
    let r1 = t1 % sample_rate;
    let t2 = r1 + second * 1000;
    let total = chunk_total(residue, first + second);
    assert(t1 == q1 * sample_rate + r1 && 0 <= r1 < sample_rate) by (nonlinear_arith)
        requires
            q1 == t1 / sample_rate,
            r1 == t1 % sample_rate,
            sample_rate > 0,
    ;
    assert(total == q1 * sample_rate + t2);
    assert(total / sample_rate == q1 + t2 / sample_rate && total % sample_rate == t2
        % sample_rate) by (nonlinear_arith)
        requires
            total == q1 * sample_rate + t2,
            sample_rate > 0,
    ;
}

/// Takes one chunk of a live recording into the state: the clock advances by
/// the whole milliseconds that the chunk makes with what was carried over,
/// the rest is carried over, and a detected pitch is recorded at the new time
/// and handed back.
///
/// `chunk_len` is the number of samples in the chunk and `pitch_hz` the
/// frequency that the pitch detector found in it, zero for none.
pub fn analyze_stream_chunk(
    chunk_len: usize,
    sample_rate: usize,
    state: &mut StreamingState,
    pitch_hz: u32,
) -> (event: Option<NoteEvent>)
    ensures
        final(state).current_time == advanced_time(
            old(state).current_time,
            old(state).residue,
            chunk_len as int,
            sample_rate as int,
        ),
        final(state).residue == carried_residue(
            old(state).residue,
            chunk_len as int,
            sample_rate as int,
        ),
        pitch_hz == 0 ==> event is None && final(state).detected_notes@ == old(
            state,
        ).detected_notes@,
        pitch_hz > 0 ==> event == Some(
            NoteEvent {
                time: final(state).current_time,
                pitch_hz,
                confidence: FULL_CONFIDENCE,
            },
        ) && final(state).detected_notes@ == old(state).detected_notes@.push(event.unwrap()),
{
    if sample_rate == 0 {
        state.current_time = u32::MAX;
    } else {
        let total: u128 = state.residue as u128 + (chunk_len as u128) * 1000;
        let step: u128 = total / (sample_rate as u128);
        let next: u128 = state.current_time as u128 + step;
        state.current_time = if next > u32::MAX as u128 {
            u32::MAX
        } else {
            next as u32
        };
        state.residue = (total % (sample_rate as u128)) as u64;
    }
    if pitch_hz > 0 {
        let time: u32 = state.current_time;
        state.detected_notes.push(NoteEvent { time, pitch_hz, confidence: FULL_CONFIDENCE });
        Some(NoteEvent { time, pitch_hz, confidence: FULL_CONFIDENCE })
    } else {
        None
    }
}

} // verus!
