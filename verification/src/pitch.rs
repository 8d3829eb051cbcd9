//! Conversions between frequency, MIDI note number, note name and cents.
//!
//! Frequencies are whole millihertz; a frequency of zero stands for "no pitch
//! detected".

use vstd::prelude::*;
use crate::text::{
    append_decimal, decimal, is_digit_char, lemma_decimal_injective, lemma_decimal_is_digits,
};
use crate::tuning::{
    cents_above_a4, cents_from_a4, lemma_cents_monotonic, lemma_cents_within_quarter_tone,
    lemma_octave_is_1200_cents, quarter_tones_above_a4, quarter_tones_from_a4,
};

verus! {

/// The MIDI note number of A4.
pub const A4_MIDI: u8 = 69;

/// The name of a pitch class, `0` being C and `11` being B.
pub open spec fn pitch_class_name(class: int) -> Seq<char> {
    if class == 0 {
        seq!['C']
    } else if class == 1 {
        seq!['C', '#']
    } else if class == 2 {
        seq!['D']
    } else if class == 3 {
        seq!['D', '#']
    } else if class == 4 {
        seq!['E']
    } else if class == 5 {
        seq!['F']
    } else if class == 6 {
        seq!['F', '#']
    } else if class == 7 {
        seq!['G']
    } else if class == 8 {
        seq!['G', '#']
    } else if class == 9 {
        seq!['A']
    } else if class == 10 {
        seq!['A', '#']
    } else {
        seq!['B']
    }
}

/// The numeral of an octave; the octave below octave zero is written `-1`.
pub open spec fn octave_label(octave: int) -> Seq<char> {
    if octave < 0 {
        seq!['-'] + decimal((-octave) as nat)
    } else {
        decimal(octave as nat)
    }
}

/// The name of a MIDI note: its pitch class followed by its octave, which is
/// `midi / 12 - 1`, so that note 69 is `A4` and note 60 is `C4`.
pub open spec fn note_name(midi: u8) -> Seq<char> {
    pitch_class_name(midi as int % 12) + octave_label(midi as int / 12 - 1)
}

/// The name given to a frequency that has no MIDI note.
pub open spec fn no_note_name() -> Seq<char> {
    seq!['N', '/', 'A']
}

/// The semitones by which `hz` lies above A4, rounded to the nearest:
/// `round(12 * log2(hz / 440 Hz))`.
pub open spec fn semitones_above_a4(hz: int) -> int {
    (quarter_tones_above_a4(hz) + 1) / 2
}

/// The MIDI note nearest to the frequency `hz`:
/// `round(69 + 12 * log2(hz / 440 Hz))`, where that lies between 0 and 127
/// and `hz` is not zero.
pub open spec fn spec_hz_to_midi(hz: u32) -> Option<u8> {
    let midi = A4_MIDI + semitones_above_a4(hz as int);
    if hz > 0 && 0 <= midi <= 127 {
        Some(midi as u8)
    } else {
        None
    }
}

/// The name of the MIDI note nearest to `hz`, or `N/A`.
pub open spec fn spec_hz_to_note_name(hz: u32) -> Seq<char> {
    match spec_hz_to_midi(hz) {
        Some(midi) => note_name(midi),
        None => no_note_name(),
    }
}

/// The cents from `hz1` up to `hz2`, as the difference of their positions
/// on the scale; zero where either is silence. Each position is within the
/// quarter tone of its frequency, so the difference is less than 50 cents
/// from `1200 * log2(hz2 / hz1)`; no nearer bound is proved.
pub open spec fn spec_pitch_difference_cents(hz1: u32, hz2: u32) -> int {
    if hz1 == 0 || hz2 == 0 {
        0
    } else {
        cents_above_a4(hz2 as int) - cents_above_a4(hz1 as int)
    }
}

/// Converts a frequency in millihertz to the nearest MIDI note number.
pub fn hz_to_midi(hz: u32) -> (midi: Option<u8>)
    ensures
        midi == spec_hz_to_midi(hz),
{
    if hz == 0 {
        return None;
    }
    let midi: i32 = A4_MIDI as i32 + semitones_from_a4(hz);
    if 0 <= midi && midi <= 127 {
        Some(midi as u8)
    } else {
        None
    }
}

/// The semitones by which a frequency in millihertz lies above A4, rounded
/// to the nearest.
pub fn semitones_from_a4(hz: u32) -> (semitones: i32)
    requires
        hz > 0,
    ensures
        semitones == semitones_above_a4(hz as int),
        -228 <= semitones <= 168,
{
    let q: i32 = quarter_tones_from_a4(hz);
    // floor((q + 1) / 2), taken on a non-negative numerator
    (q + 1 + 1000) / 2 - 500
}

/// The name of a pitch class.
pub fn pitch_class_str(class: u8) -> (s: &'static str)
    requires
        class < 12,
    ensures
        s@ == pitch_class_name(class as int),
{
    proof {
        reveal_strlit("C");
        reveal_strlit("C#");
        reveal_strlit("D");
        reveal_strlit("D#");
        reveal_strlit("E");
        reveal_strlit("F");
        reveal_strlit("F#");
        reveal_strlit("G");
        reveal_strlit("G#");
        reveal_strlit("A");
        reveal_strlit("A#");
        reveal_strlit("B");
    }
    let s: &'static str = if class == 0 {
        "C"
    } else if class == 1 {
        "C#"
    } else if class == 2 {
        "D"
    } else if class == 3 {
        "D#"
    } else if class == 4 {
        "E"
    } else if class == 5 {
        "F"
    } else if class == 6 {
        "F#"
    } else if class == 7 {
        "G"
    } else if class == 8 {
        "G#"
    } else if class == 9 {
        "A"
    } else if class == 10 {
        "A#"
    } else {
        "B"
    };
    assert(s@ =~= pitch_class_name(class as int));
    s
}

/// Names a MIDI note: pitch class and octave.
pub fn midi_to_note_name(midi: u8) -> (name: String)
    ensures
        name@ == note_name(midi),
{
    let mut name = String::from_str(pitch_class_str(midi % 12));
    append_octave(&mut name, (midi / 12) as i32 - 1);
    name
}

/// Appends the numeral of an octave to `out`.
pub fn append_octave(out: &mut String, octave: i32)
    ensures
        final(out)@ == old(out)@ + octave_label(octave as int),
{
    if octave < 0 {
        proof {
            reveal_strlit("-");
        }
        out.append("-");
        append_decimal(out, (-(octave as i64)) as u64);
    } else {
        append_decimal(out, octave as u64);
    }
    assert(final(out)@ =~= old(out)@ + octave_label(octave as int));
}

/// Names the MIDI note nearest to a frequency in millihertz; `N/A` where it
/// has none.
pub fn hz_to_note_name(hz: u32) -> (name: String)
    ensures
        name@ == spec_hz_to_note_name(hz),
{
    match hz_to_midi(hz) {
        Some(midi) => midi_to_note_name(midi),
        None => {
            proof {
                reveal_strlit("N/A");
                assert("N/A"@ =~= no_note_name());
            }
            String::from_str("N/A")
        },
    }
}

/// The distance in cents from `hz1` up to `hz2`, both in millihertz. Silence
/// on either side is no distance.
pub fn pitch_difference_cents(hz1: u32, hz2: u32) -> (cents: i32)
    ensures
        cents == spec_pitch_difference_cents(hz1, hz2),
        -39_600 <= cents <= 39_600,
{
    if hz1 == 0 || hz2 == 0 {
        return 0;
    }
    cents_from_a4(hz2) - cents_from_a4(hz1)
}

/// A pitch is no distance from itself.
pub proof fn lemma_same_pitch_zero_cents(hz: u32)
    ensures
        spec_pitch_difference_cents(hz, hz) == 0,
{
}

/// The distance from `hz2` to `hz1` is the distance from `hz1` to `hz2`
/// with its sign turned.
pub proof fn lemma_cents_antisymmetric(hz1: u32, hz2: u32)
    ensures
        spec_pitch_difference_cents(hz2, hz1) == -spec_pitch_difference_cents(hz1, hz2),
{
}

/// From a pitch up to one of a higher frequency no cents are lost.
pub proof fn lemma_higher_is_no_flatter(hz1: u32, hz2: u32)
    requires
        hz1 <= hz2,
    ensures
        spec_pitch_difference_cents(hz1, hz2) >= 0,
{
    if hz1 > 0 {
        lemma_cents_monotonic(hz1 as int, hz2 as int);
    }
}

/// A pitch and the pitch of twice its frequency are 1200 cents apart.
pub proof fn lemma_octave_apart(hz: u32)
    requires
        0 < hz,
        2 * hz <= u32::MAX,
    ensures
        spec_pitch_difference_cents(hz, (2 * hz) as u32) == 1200,
{
    lemma_octave_is_1200_cents(hz as int);
}

/// A frequency lies within 50 cents of the MIDI note that it is converted to.
pub proof fn lemma_midi_within_half_semitone(hz: u32)
    requires
        hz > 0,
    ensures
        -50 <= cents_above_a4(hz as int) - 100 * semitones_above_a4(hz as int) <= 50,
        spec_hz_to_midi(hz) matches Some(midi) ==> -50 <= cents_above_a4(hz as int) - 100 * (midi
            - A4_MIDI) <= 50,
{
    lemma_cents_within_quarter_tone(hz as int);
}

/// The name that a frequency gets is the name of its MIDI note.
pub proof fn lemma_note_name_of_hz(hz: u32)
    ensures
        spec_hz_to_midi(hz) matches Some(midi) ==> spec_hz_to_note_name(hz) == note_name(midi),
        spec_hz_to_midi(hz) is None ==> spec_hz_to_note_name(hz) == no_note_name(),
{
}

/// The numeral of an octave starts with a digit or with the minus sign.
proof fn lemma_octave_label_start(octave: int)
    ensures
        octave_label(octave).len() >= 1,
        octave < 0 ==> octave_label(octave)[0] == '-',
        octave >= 0 ==> is_digit_char(octave_label(octave)[0]),
{
    if octave >= 0 {
        lemma_decimal_is_digits(octave as nat);
    }
}

/// Different octaves have different numerals.
proof fn lemma_octave_label_injective(a: int, b: int)
    requires
        octave_label(a) == octave_label(b),
    ensures
        a == b,
{
    lemma_octave_label_start(a);
    lemma_octave_label_start(b);
    if a < 0 && b < 0 {
        let da = decimal((-a) as nat);
        let db = decimal((-b) as nat);
        assert(octave_label(a).skip(1) =~= da);
        assert(octave_label(b).skip(1) =~= db);
        lemma_decimal_injective((-a) as nat, (-b) as nat);
    } else if a >= 0 && b >= 0 {
        lemma_decimal_injective(a as nat, b as nat);
    }
}

/// Different MIDI notes have different names: the name tells the note.
pub proof fn lemma_note_name_injective(a: u8, b: u8)
    requires
        note_name(a) == note_name(b),
    ensures
        a == b,
{
    let ca = a as int % 12;
    let cb = b as int % 12;
    let oa = a as int / 12 - 1;
    let ob = b as int / 12 - 1;
    lemma_octave_label_start(oa);
    lemma_octave_label_start(ob);
    let pa = pitch_class_name(ca);
    let pb = pitch_class_name(cb);
    assert(note_name(a)[0] == pa[0]);
    assert(note_name(b)[0] == pb[0]);
    assert(note_name(a)[1] == if pa.len() == 2 {
        '#'
    } else {
        octave_label(oa)[0]
    });
    assert(note_name(b)[1] == if pb.len() == 2 {
        '#'
    } else {
        octave_label(ob)[0]
    });
    assert(ca == cb);
    assert(note_name(a).skip(pa.len() as int) =~= octave_label(oa));
    assert(note_name(b).skip(pb.len() as int) =~= octave_label(ob));
    lemma_octave_label_injective(oa, ob);
}

/// Two frequencies of one name are of one MIDI note, or both of none.
pub proof fn lemma_same_name_same_midi(hz1: u32, hz2: u32)
    requires
        spec_hz_to_note_name(hz1) == spec_hz_to_note_name(hz2),
    ensures
        spec_hz_to_midi(hz1) == spec_hz_to_midi(hz2),
{
    match (spec_hz_to_midi(hz1), spec_hz_to_midi(hz2)) {
        (Some(a), Some(b)) => {
            lemma_note_name_injective(a, b);
        },
        (Some(a), None) => {
            assert(note_name(a)[0] != 'N');
        },
        (None, Some(b)) => {
            assert(note_name(b)[0] != 'N');
        },
        (None, None) => {},
    }
}

} // verus!
