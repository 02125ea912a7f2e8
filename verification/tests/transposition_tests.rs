use music_text::pitch::Degree;
use music_text::transposition::{transpose_pitchcode, transpose_pitchcode_with_octave};

#[test]
fn test_transpose_pitchcode_7_in_d_major() {
    let result = transpose_pitchcode_with_octave(Degree::N7, 0, Degree::N2);
    assert_eq!(result, (Degree::N1s, 1));
}

#[test]
fn test_transpose_pitchcode_1_in_d_major() {
    let result = transpose_pitchcode_with_octave(Degree::N1, 0, Degree::N2);
    assert_eq!(result, (Degree::N2, 0));
}

#[test]
fn test_transpose_pitchcode_4_in_g_major() {
    let result = transpose_pitchcode_with_octave(Degree::N4, 0, Degree::N5);
    assert_eq!(result, (Degree::N1, 1));
}

#[test]
fn transposition_prefers_flats_for_black_keys() {
    // Degree 3 in the key of degree 1 sharp: E + C# = F (5 semitones).
    assert_eq!(transpose_pitchcode(Degree::N3, Degree::N1s), Degree::N4);
    // Degree 7 flat in the key of degree 1: B flat.
    assert_eq!(transpose_pitchcode(Degree::N7b, Degree::N1), Degree::N7b);
    // Degree 2 sharp (D#) in C is spelled E flat.
    assert_eq!(transpose_pitchcode(Degree::N2s, Degree::N1), Degree::N3b);
    // Degree 7 in the key of degree 7 (B): 22 semitones, A sharp spelled B flat an octave up.
    assert_eq!(transpose_pitchcode_with_octave(Degree::N7, -3, Degree::N7), (Degree::N7b, -2));
}

#[test]
fn below_c_totals_round_toward_zero() {
    // Degree 1 double flat in C lies two semitones below C; the octave does not move down.
    assert_eq!(transpose_pitchcode_with_octave(Degree::N1bb, 0, Degree::N1), (Degree::N7b, 0));
}
