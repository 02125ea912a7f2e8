//! Movable-do transposition: a scale degree read in the key of a tonic
//! becomes the pitch that many scale steps above the tonic.
use vstd::prelude::*;
use crate::pitch::{Degree, PitchCode, degree_step, degree_alteration};

verus! {

/// Semitones of each step of the major scale above its first degree.
pub open spec fn major_semitones(step: int) -> int {
    if step == 0 { 0 } else if step == 1 { 2 } else if step == 2 { 4 } else if step == 3 { 5 }
    else if step == 4 { 7 } else if step == 5 { 9 } else { 11 }
}

/// Semitones of a pitch code above C (from -2 to 13).
pub open spec fn pitch_semitones(p: PitchCode) -> int {
    major_semitones(degree_step(p)) + degree_alteration(p)
}

/// Semitones of the transposed pitch above C: the pitch's interval plus the tonic's.
pub open spec fn transposed_total(p: PitchCode, tonic: PitchCode) -> int {
    pitch_semitones(p) + pitch_semitones(tonic)
}

/// Integer division rounding toward zero, as Rust divides.
pub open spec fn div_toward_zero(x: int, d: int) -> int {
    if x >= 0 { x / d } else { -((-x) / d) }
}

/// Scale position and alteration spelling a pitch class: naturals where they
/// exist, C sharp, E flat, F sharp, A flat and B flat otherwise.
pub open spec fn pitch_class_position(pc: int) -> (int, int) {
    if pc == 0 { (0, 0) } else if pc == 1 { (0, 1) } else if pc == 2 { (1, 0) } else if pc == 3 { (2, -1) }
    else if pc == 4 { (2, 0) } else if pc == 5 { (3, 0) } else if pc == 6 { (3, 1) } else if pc == 7 { (4, 0) }
    else if pc == 8 { (5, -1) } else if pc == 9 { (5, 0) } else if pc == 10 { (6, -1) } else { (6, 0) }
}

/// The pitch code at a scale position with an alteration; positions or
/// alterations out of range give degree 1.
pub open spec fn pitch_at(pos: int, alteration: int) -> PitchCode {
    if 0 <= pos < 7 && -2 <= alteration <= 2 {
        choose|p: PitchCode| degree_step(p) == pos && degree_alteration(p) == alteration
    } else {
        Degree::N1
    }
}

/// The transposed pitch code and octave change of a degree in the key of a tonic.
pub open spec fn transposed(p: PitchCode, tonic: PitchCode) -> (PitchCode, int) {
    let total = transposed_total(p, tonic);
    let pos = pitch_class_position(total % 12);
    (pitch_at(pos.0, pos.1), div_toward_zero(total, 12))
}

/// Scale position (0 to 6) and alteration of a pitch code.
fn pitchcode_to_scale_position(pitchcode: PitchCode) -> (r: (usize, i8))
    ensures
        r.0 as int == degree_step(pitchcode),
        r.1 as int == degree_alteration(pitchcode),
{
    match pitchcode {
        Degree::N1bb => (0, -2), Degree::N1b => (0, -1), Degree::N1 => (0, 0), Degree::N1s => (0, 1), Degree::N1ss => (0, 2),
        Degree::N2bb => (1, -2), Degree::N2b => (1, -1), Degree::N2 => (1, 0), Degree::N2s => (1, 1), Degree::N2ss => (1, 2),
        Degree::N3bb => (2, -2), Degree::N3b => (2, -1), Degree::N3 => (2, 0), Degree::N3s => (2, 1), Degree::N3ss => (2, 2),
        Degree::N4bb => (3, -2), Degree::N4b => (3, -1), Degree::N4 => (3, 0), Degree::N4s => (3, 1), Degree::N4ss => (3, 2),
        Degree::N5bb => (4, -2), Degree::N5b => (4, -1), Degree::N5 => (4, 0), Degree::N5s => (4, 1), Degree::N5ss => (4, 2),
        Degree::N6bb => (5, -2), Degree::N6b => (5, -1), Degree::N6 => (5, 0), Degree::N6s => (5, 1), Degree::N6ss => (5, 2),
        Degree::N7bb => (6, -2), Degree::N7b => (6, -1), Degree::N7 => (6, 0), Degree::N7s => (6, 1), Degree::N7ss => (6, 2),
    }
}

/// The pitch code at a scale position with an alteration (see `pitch_at`).
fn scale_position_to_pitchcode(scale_pos: usize, semitone_offset: i8) -> (r: PitchCode)
    ensures
        r == pitch_at(scale_pos as int, semitone_offset as int),
{
    let r = match (scale_pos, semitone_offset) {
        (0, -2) => Degree::N1bb, (0, -1) => Degree::N1b, (0, 0) => Degree::N1, (0, 1) => Degree::N1s, (0, 2) => Degree::N1ss,
        (1, -2) => Degree::N2bb, (1, -1) => Degree::N2b, (1, 0) => Degree::N2, (1, 1) => Degree::N2s, (1, 2) => Degree::N2ss,
        (2, -2) => Degree::N3bb, (2, -1) => Degree::N3b, (2, 0) => Degree::N3, (2, 1) => Degree::N3s, (2, 2) => Degree::N3ss,
        (3, -2) => Degree::N4bb, (3, -1) => Degree::N4b, (3, 0) => Degree::N4, (3, 1) => Degree::N4s, (3, 2) => Degree::N4ss,
        (4, -2) => Degree::N5bb, (4, -1) => Degree::N5b, (4, 0) => Degree::N5, (4, 1) => Degree::N5s, (4, 2) => Degree::N5ss,
        (5, -2) => Degree::N6bb, (5, -1) => Degree::N6b, (5, 0) => Degree::N6, (5, 1) => Degree::N6s, (5, 2) => Degree::N6ss,
        (6, -2) => Degree::N7bb, (6, -1) => Degree::N7b, (6, 0) => Degree::N7, (6, 1) => Degree::N7s, (6, 2) => Degree::N7ss,
        _ => Degree::N1,
    };
    proof {
        if 0 <= scale_pos < 7 && -2 <= semitone_offset <= 2 {
            let c = choose|p: PitchCode| degree_step(p) == scale_pos as int && degree_alteration(p) == semitone_offset as int;
            assert(degree_step(r) == scale_pos as int && degree_alteration(r) == semitone_offset as int);
            assert(c == r);
        }
    }
    r
}

/// Scale position, alteration and octave change of a semitone count: the
/// octave change is the count divided by twelve toward zero, the position the
/// spelling of the count's pitch class.
fn semitones_to_scale_position(total_semitones: i8) -> (r: (usize, i8, i8))
    ensures
        r.2 as int == div_toward_zero(total_semitones as int, 12),
        (r.0 as int, r.1 as int) == pitch_class_position((total_semitones as int) % 12),
{
    let octave_adjustment: i8 = if total_semitones >= 0 { total_semitones / 12 } else { -((-(total_semitones as i16)) / 12) as i8 };
    let semitones_in_octave = ((total_semitones % 12) + 12) % 12;
    assert(semitones_in_octave as int == (total_semitones as int) % 12);
    if semitones_in_octave == 0 { (0, 0, octave_adjustment) }
    else if semitones_in_octave == 1 { (0, 1, octave_adjustment) }
    else if semitones_in_octave == 2 { (1, 0, octave_adjustment) }
    else if semitones_in_octave == 3 { (2, -1, octave_adjustment) }
    else if semitones_in_octave == 4 { (2, 0, octave_adjustment) }
    else if semitones_in_octave == 5 { (3, 0, octave_adjustment) }
    else if semitones_in_octave == 6 { (3, 1, octave_adjustment) }
    else if semitones_in_octave == 7 { (4, 0, octave_adjustment) }
    else if semitones_in_octave == 8 { (5, -1, octave_adjustment) }
    else if semitones_in_octave == 9 { (5, 0, octave_adjustment) }
    else if semitones_in_octave == 10 { (6, -1, octave_adjustment) }
    else { (6, 0, octave_adjustment) }
}

fn major_semitones_of(step: usize) -> (r: i8)
    requires
        step < 7,
    ensures
        r as int == major_semitones(step as int),
{
    let major_scale_semitones: [i8; 7] = [0, 2, 4, 5, 7, 9, 11];
    major_scale_semitones[step]
}

/// The pitch a scale degree stands for in the key of `tonic` (movable do),
/// with the octave moved by the octaves the interval crosses (see `transposed`).
pub fn transpose_pitchcode_with_octave(pitchcode: PitchCode, octave: i8, tonic: PitchCode) -> (r: (PitchCode, i8))
    requires
        octave <= i8::MAX - 2,
    ensures
        r.0 == transposed(pitchcode, tonic).0,
        r.1 == octave + transposed(pitchcode, tonic).1,
{
    let (pitch_degree, pitch_semitone_offset) = pitchcode_to_scale_position(pitchcode);
    let (tonic_degree, tonic_semitone_offset) = pitchcode_to_scale_position(tonic);
    let target_semitones = major_semitones_of(pitch_degree);
    let pitch_offset = pitch_semitone_offset;
    let tonic_base_semitones = major_semitones_of(tonic_degree);
    let tonic_offset = tonic_semitone_offset;
    let total_semitones = target_semitones + pitch_offset + tonic_base_semitones + tonic_offset;
    let (final_scale_pos, final_semitone_offset, octave_adjustment) = semitones_to_scale_position(total_semitones);
    let transposed_pitchcode = scale_position_to_pitchcode(final_scale_pos, final_semitone_offset);
    assert(0 <= octave_adjustment <= 2);
    let adjusted_octave = octave + octave_adjustment;
    (transposed_pitchcode, adjusted_octave)
}

/// The pitch a scale degree stands for in the key of `tonic`.
pub fn transpose_pitchcode(pitchcode: PitchCode, tonic: PitchCode) -> (r: PitchCode)
    ensures
        r == transposed(pitchcode, tonic).0,
{
    let (transposed_pitchcode, _) = transpose_pitchcode_with_octave(pitchcode, 0, tonic);
    transposed_pitchcode
}

/// Transposition keeps the sound: when the degree and the tonic together lie
/// at or above C, the transposed pitch sits exactly that many semitones above
/// C once the octave change is counted.
pub proof fn lemma_transposition_keeps_pitch(p: PitchCode, tonic: PitchCode)
    requires
        transposed_total(p, tonic) >= 0,
    ensures
        pitch_semitones(transposed(p, tonic).0) + 12 * transposed(p, tonic).1 == transposed_total(p, tonic),
{
    let total = transposed_total(p, tonic);
    let pos = pitch_class_position(total % 12);
    let r = pitch_at(pos.0, pos.1);
    assert(0 <= pos.0 < 7 && -2 <= pos.1 <= 2);
    let w = if pos.0 == 0 { if pos.1 == 0 { Degree::N1 } else { Degree::N1s } }
        else if pos.0 == 1 { Degree::N2 }
        else if pos.0 == 2 { if pos.1 == 0 { Degree::N3 } else { Degree::N3b } }
        else if pos.0 == 3 { if pos.1 == 0 { Degree::N4 } else { Degree::N4s } }
        else if pos.0 == 4 { Degree::N5 }
        else if pos.0 == 5 { if pos.1 == 0 { Degree::N6 } else { Degree::N6b } }
        else { if pos.1 == 0 { Degree::N7 } else { Degree::N7b } };
    assert(degree_step(w) == pos.0 && degree_alteration(w) == pos.1);
    assert(degree_step(r) == pos.0 && degree_alteration(r) == pos.1);
    assert(pitch_semitones(r) == total % 12);
    assert(total == 12 * (total / 12) + total % 12);
}

} // verus!
