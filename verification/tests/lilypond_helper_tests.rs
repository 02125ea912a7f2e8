use music_text::lilypond_document::{degree_to_lilypond as letter_note, fraction_to_lilypond_duration};
use music_text::lilypond_formatters::{degree_to_lilypond_with_octave, octave_to_lilypond_markers, MinimalFormatter};
use music_text::lilypond_renderer::{
    add_manual_beaming, adjust_tuplet_note_durations, degree_to_lilypond, degree_to_lilypond_simple,
    extract_pitch_from_lilypond_note, find_last_note_index, fraction_to_lilypond_note,
};
use music_text::pitch::Degree;
use music_text::rhythm_analyzer::{calculate_tuplet_ratio, is_tuplet_division};
use music_text::rhythmic_converter::{
    add_beaming_to_notes, add_beaming_to_notes_with_context, flush_beam_group, is_beamable_duration,
    is_beamable_duration_tuplet, is_dash, LilyPondNoteNames,
};

fn strings(v: &[&str]) -> Vec<String> {
    v.iter().map(|s| s.to_string()).collect()
}

#[test]
fn last_note_skips_bars_and_breaths() {
    assert_eq!(find_last_note_index(&strings(&["c4", "d8", "\\bar \"|\"", "\\breathe", "  | "])), Some(1));
    assert_eq!(find_last_note_index(&strings(&["\\bar \"||\""])), None);
    assert_eq!(find_last_note_index(&[]), None);
}

#[test]
fn pitch_of_a_lilypond_note() {
    assert_eq!(extract_pitch_from_lilypond_note("c'8~"), "c'");
    assert_eq!(extract_pitch_from_lilypond_note("fs,(4"), "fs,");
    assert_eq!(extract_pitch_from_lilypond_note("r"), "r");
}

#[test]
fn tuplet_notes_get_the_subdivision_duration() {
    let notes = strings(&["c8", "d16~", "e", "f4.)"]);
    assert_eq!(adjust_tuplet_note_durations(&notes, 3, 2), strings(&["c8", "d8~", "e8", "f8.)"]));
    assert_eq!(adjust_tuplet_note_durations(&notes, 5, 4), strings(&["c16", "d16~", "e16", "f16.)"]));
    assert_eq!(adjust_tuplet_note_durations(&strings(&["g32"]), 3, 3), strings(&["g16"]));
}

#[test]
fn manual_beams_bracket_first_and_last() {
    let mut notes = strings(&["c8", "d8", "e8"]);
    add_manual_beaming(&mut notes).unwrap();
    assert_eq!(notes, strings(&["c8[", "d8", "e8]"]));
    let mut one = strings(&["c4"]);
    add_manual_beaming(&mut one).unwrap();
    assert_eq!(one, strings(&["c4"]));
}

#[test]
fn lilypond_pitch_names() {
    assert_eq!(degree_to_lilypond_simple(Degree::N1s), "cs");
    assert_eq!(degree_to_lilypond_simple(Degree::N7bb), "bff");
    assert_eq!(degree_to_lilypond(Degree::N3b, 2, None).unwrap(), "ef''");
    assert_eq!(degree_to_lilypond(Degree::N5, -1, Some(Degree::N2)).unwrap(), "g,");
    assert_eq!(degree_to_lilypond(Degree::N5, 3, None).unwrap(), "g");
    assert_eq!(letter_note(Degree::N4ss), "f'");
    assert_eq!(octave_to_lilypond_markers(3), "'''");
    assert_eq!(octave_to_lilypond_markers(-2), ",,");
    assert_eq!(octave_to_lilypond_markers(0), "");
    assert_eq!(degree_to_lilypond_with_octave(Degree::N6b, -1), "af,");
}

#[test]
fn lilypond_note_durations() {
    assert_eq!(fraction_to_lilypond_note(1, 4), "4");
    assert_eq!(fraction_to_lilypond_note(3, 16), "8.");
    assert_eq!(fraction_to_lilypond_note(2, 2), "1");
    assert_eq!(fraction_to_lilypond_note(5, 7), "4");
    assert_eq!(fraction_to_lilypond_duration(1, 4), "4");
    assert_eq!(fraction_to_lilypond_duration(2, 16), "8");
    assert_eq!(fraction_to_lilypond_duration(3, 8), "4.");
    assert_eq!(fraction_to_lilypond_duration(1, 12), "8");
    assert_eq!(fraction_to_lilypond_duration(5, 40), "8");
    assert_eq!(fraction_to_lilypond_duration(1, 100), "64");
    assert_eq!(fraction_to_lilypond_duration(5, 6), "4");
    assert_eq!(fraction_to_lilypond_duration(3, 2), "2");
    assert_eq!(fraction_to_lilypond_duration(0, 5), "1");
    assert_eq!(fraction_to_lilypond_duration(1, 0), "4");
}

#[test]
fn beams_join_short_notes() {
    assert!(is_dash("---"));
    assert!(is_dash(""));
    assert!(!is_dash("-1"));
    assert!(is_beamable_duration("16"));
    assert!(!is_beamable_duration("4"));
    assert!(is_beamable_duration_tuplet("4"));
    assert_eq!(
        add_beaming_to_notes(strings(&["c8", "d8", "e4", "f16", "r16", "g8~", "a8", "b8", "c'8."])),
        strings(&["c8[", "d8]", "e4", "f16", "r16", "g8~", "a8[", "b8", "c'8.]"])
    );
    assert_eq!(add_beaming_to_notes(strings(&["c8", "d16", "e32"])), strings(&["c8[", "d16", "e32]"]));
    assert_eq!(add_beaming_to_notes(strings(&["c8"])), strings(&["c8"]));
    assert_eq!(
        add_beaming_to_notes_with_context(strings(&["c4", "d4", "e2"]), true),
        strings(&["c4[", "d4]", "e2"])
    );
    let mut group = strings(&["a8"]);
    let mut result = strings(&["x"]);
    flush_beam_group(&mut group, &mut result);
    assert!(group.is_empty());
    assert_eq!(result, strings(&["x", "a8"]));
    assert!(matches!(LilyPondNoteNames::Dutch, LilyPondNoteNames::Dutch));
}

#[test]
fn tuplet_ratios() {
    assert!(is_tuplet_division(3));
    assert!(!is_tuplet_division(4));
    assert!(!is_tuplet_division(0));
    assert_eq!(calculate_tuplet_ratio(3), (3, 2));
    assert_eq!(calculate_tuplet_ratio(6), (6, 4));
    assert_eq!(calculate_tuplet_ratio(12), (12, 8));
    assert_eq!(calculate_tuplet_ratio(13), (13, 8));
    assert_eq!(calculate_tuplet_ratio(16), (16, 16));
    assert_eq!(calculate_tuplet_ratio(1), (1, 1));
    assert_eq!(calculate_tuplet_ratio(0), (0, 0));
}

#[test]
fn words_wrap_at_the_width() {
    let f = MinimalFormatter::with_wrap_width(10);
    assert_eq!(f.word_wrap("c4 d4 e4 f4 g4"), "c4 d4 e4\nf4 g4");
    assert_eq!(f.word_wrap("averyveryverylongword x"), "averyveryverylongword\nx");
    assert_eq!(f.word_wrap(""), "");
    assert_eq!(MinimalFormatter::new().word_wrap("a  b"), "a  b");
}
