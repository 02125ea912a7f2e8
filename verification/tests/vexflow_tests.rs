use music_text::pitch::Degree;
use music_text::vexflow_converter_v2::{
    apply_beaming_v2, convert_tuplet_duration_to_vexflow, convert_tuplet_duration_to_vexflow_v2, map_barline_style,
    pitch_code_to_semitone, semitone_to_note_letter, KeyTransposer, VexFlowElement,
};
use music_text::vexflow_fsm_converter::{
    apply_tie_detection, apply_vexflow_beaming, extract_duration_from_value, get_transposed_vexflow_pitch,
    parse_lilypond_note, pitch_to_vexflow_key, NoteAccidentalTable, VexFlowElement as FsmElement,
};

#[test]
fn vexflow_converter_v2_test_key_transposer_creation() {
    let transposer = KeyTransposer::new(Some(&"G".to_string()));
    assert_eq!(transposer.semitone_offset, 7);
    assert_eq!(transposer.key_signature.len(), 1);
    assert_eq!(transposer.key_signature[0], (3, true));
}

#[test]
fn test_pitch_code_to_semitone() {
    assert_eq!(pitch_code_to_semitone(Degree::N1), 0);
    assert_eq!(pitch_code_to_semitone(Degree::N2), 2);
    assert_eq!(pitch_code_to_semitone(Degree::N1s), 1);
}

#[test]
fn test_semitone_to_note_letter() {
    let (note, acc) = semitone_to_note_letter(0);
    assert_eq!(note, "c");
    assert_eq!(acc, None);

    let (note, acc) = semitone_to_note_letter(1);
    assert_eq!(note, "c");
    assert_eq!(acc, Some("#".to_string()));
}

#[test]
fn semitone_wraps_negative_and_large_counts() {
    assert_eq!(semitone_to_note_letter(-1), ("b".to_string(), None));
    assert_eq!(semitone_to_note_letter(13), ("c".to_string(), Some("#".to_string())));
    assert_eq!(pitch_code_to_semitone(Degree::N1bb), -2);
    assert_eq!(pitch_code_to_semitone(Degree::N7s), 0);
}

#[test]
fn key_transposer_lower_case_and_unknown_keys() {
    let bb = KeyTransposer::new(Some(&"bb".to_string()));
    assert_eq!(bb.semitone_offset, 10);
    assert_eq!(bb.key_signature, vec![(6, false), (2, false)]);
    let unknown = KeyTransposer::new(Some(&"H".to_string()));
    assert_eq!(unknown.semitone_offset, 0);
    assert!(unknown.key_signature.is_empty());
    let none = KeyTransposer::new(None);
    assert_eq!(none.semitone_offset, 0);
}

#[test]
fn transpose_pitch_in_d_major() {
    let d = KeyTransposer::new(Some(&"D".to_string()));
    // Degree 3 in D is F sharp, which the key signature already sharpens.
    let (key, accidentals) = d.transpose_pitch(Degree::N3, 0);
    assert_eq!(key, "f/4");
    assert!(accidentals.is_empty());
    // Degree 4 sharpened in D is G sharp, drawn with its sharp.
    let (key, accidentals) = d.transpose_pitch(Degree::N4s, 1);
    assert_eq!(key, "g/5");
    assert_eq!(accidentals.len(), 1);
    assert_eq!(accidentals[0].accidental, "#");
    assert_eq!(accidentals[0].index, 0);
}

#[test]
fn transpose_pitch_sharp_against_flat_key() {
    // In F the key flattens B; an A sharp is spelled as a sharp and shown.
    let f = KeyTransposer::new(Some(&"F".to_string()));
    let (key, accidentals) = f.transpose_pitch(Degree::N4, -1);
    assert_eq!(key, "a/3");
    assert_eq!(accidentals.len(), 1);
    assert_eq!(accidentals[0].accidental, "#");
}

fn note(duration: &str, key: &str) -> VexFlowElement {
    VexFlowElement::Note {
        keys: vec![key.to_string()],
        duration: duration.to_string(),
        dots: 0,
        accidentals: vec![],
        tied: false,
        original_duration: None,
        beam_start: false,
        beam_end: false,
        syl: None,
    }
}

fn beams(v: &[VexFlowElement]) -> Vec<Option<(bool, bool)>> {
    v.iter()
        .map(|e| match e {
            VexFlowElement::Note { beam_start, beam_end, .. } => Some((*beam_start, *beam_end)),
            _ => None,
        })
        .collect()
}

#[test]
fn beaming_marks_runs_of_short_notes() {
    let mut notes = vec![note("8", "c/4"), note("16", "d/4"), note("16", "e/4"), note("q", "f/4"), note("8", "g/4")];
    apply_beaming_v2(&mut notes, false);
    assert_eq!(
        beams(&notes),
        vec![Some((true, false)), Some((false, false)), Some((false, true)), Some((false, false)), Some((false, false))]
    );
}

#[test]
fn beaming_in_tuplets_includes_quarters() {
    let mut notes = vec![note("q", "c/4"), note("8", "d/4"), note("8", "e/4")];
    apply_beaming_v2(&mut notes, true);
    assert_eq!(beams(&notes), vec![Some((true, false)), Some((false, false)), Some((false, true))]);
    let mut single = vec![note("8", "c/4"), VexFlowElement::SlurEnd, note("8", "d/4")];
    apply_beaming_v2(&mut single, false);
    assert_eq!(beams(&single), vec![Some((false, false)), None, Some((false, false))]);
}

#[test]
fn barline_styles() {
    assert_eq!(map_barline_style("|:"), "repeat-begin");
    assert_eq!(map_barline_style(":]"), "repeat-end");
    assert_eq!(map_barline_style("||"), "double");
    assert_eq!(map_barline_style("|."), "final");
    assert_eq!(map_barline_style("::"), "double-repeat");
    assert_eq!(map_barline_style("???"), "single");
}

#[test]
fn tuplet_member_durations() {
    assert_eq!(convert_tuplet_duration_to_vexflow_v2(1, 3), vec![("8".to_string(), 0)]);
    assert_eq!(convert_tuplet_duration_to_vexflow_v2(2, 5), vec![("8".to_string(), 0)]);
    assert_eq!(convert_tuplet_duration_to_vexflow_v2(4, 9), vec![("8".to_string(), 0)]);
    assert_eq!(convert_tuplet_duration_to_vexflow_v2(7, 17), vec![("64".to_string(), 0)]);
    assert_eq!(convert_tuplet_duration_to_vexflow(1, 6), vec![("16".to_string(), 0)]);
    assert_eq!(convert_tuplet_duration_to_vexflow(1, 7), vec![("32".to_string(), 0)]);
}

#[test]
fn test_accidental_table_f_major() {
    let mut table = NoteAccidentalTable::new(Some(&"F".to_string()));

    let (show, symbol) = table.check_and_update_note("b", Some("b"));
    assert_eq!(show, false);
    assert_eq!(symbol, None);

    let (show, symbol) = table.check_and_update_note("b", None);
    assert_eq!(show, true);
    assert_eq!(symbol, Some("n".to_string()));

    let (show, symbol) = table.check_and_update_note("b", None);
    assert_eq!(show, false);
    assert_eq!(symbol, None);
}

#[test]
fn test_accidental_table_g_major() {
    let mut table = NoteAccidentalTable::new(Some(&"G".to_string()));

    let (show, symbol) = table.check_and_update_note("f", Some("#"));
    assert_eq!(show, false);
    assert_eq!(symbol, None);

    let (show, symbol) = table.check_and_update_note("f", None);
    assert_eq!(show, true);
    assert_eq!(symbol, Some("n".to_string()));
}

#[test]
fn test_accidental_table_bar_reset() {
    let mut table = NoteAccidentalTable::new(Some(&"G".to_string()));

    let (show, symbol) = table.check_and_update_note("f", None);
    assert_eq!(show, true);
    assert_eq!(symbol, Some("n".to_string()));

    table.reset_for_new_bar(Some(&"G".to_string()));

    let (show, symbol) = table.check_and_update_note("f", None);
    assert_eq!(show, true);
    assert_eq!(symbol, Some("n".to_string()));
}

#[test]
fn test_accidental_table_c_major() {
    let mut table = NoteAccidentalTable::new(Some(&"C".to_string()));

    let (show, symbol) = table.check_and_update_note("c", None);
    assert_eq!(show, false);
    assert_eq!(symbol, None);

    let (show, symbol) = table.check_and_update_note("c", Some("#"));
    assert_eq!(show, true);
    assert_eq!(symbol, Some("#".to_string()));

    let (show, symbol) = table.check_and_update_note("c", Some("#"));
    assert_eq!(show, false);
    assert_eq!(symbol, None);

    let (show, symbol) = table.check_and_update_note("c", None);
    assert_eq!(show, true);
    assert_eq!(symbol, Some("n".to_string()));
}

#[test]
fn accidental_table_upper_case_letters_and_unknown_notes() {
    let mut table = NoteAccidentalTable::new(Some(&"eb".to_string()));
    // E flat major flattens B, E and A.
    assert_eq!(table.check_and_update_note("A", Some("b")), (false, None));
    assert_eq!(table.check_and_update_note("D", Some("b")), (true, Some("b".to_string())));
    assert_eq!(table.check_and_update_note("h", Some("#")), (false, None));
    let mut seven_sharps = NoteAccidentalTable::new(Some(&"C#".to_string()));
    assert_eq!(seven_sharps.check_and_update_note("b", Some("#")), (false, None));
}

#[test]
fn transposed_pitches_follow_the_key_tables() {
    assert_eq!(get_transposed_vexflow_pitch(Degree::N3, Some(&"D".to_string())), ("f".to_string(), None));
    assert_eq!(get_transposed_vexflow_pitch(Degree::N3b, Some(&"d".to_string())), ("f".to_string(), Some("n".to_string())));
    assert_eq!(get_transposed_vexflow_pitch(Degree::N7, Some(&"G".to_string())), ("f".to_string(), Some("#".to_string())));
    assert_eq!(get_transposed_vexflow_pitch(Degree::N1, Some(&"Bb".to_string())), ("b".to_string(), Some("b".to_string())));
    // No table entry: the pitch as written.
    assert_eq!(get_transposed_vexflow_pitch(Degree::N2ss, Some(&"G".to_string())), ("d".to_string(), Some("##".to_string())));
    assert_eq!(get_transposed_vexflow_pitch(Degree::N6b, None), ("a".to_string(), Some("b".to_string())));
    assert_eq!(get_transposed_vexflow_pitch(Degree::N4s, Some(&"C".to_string())), ("f".to_string(), Some("#".to_string())));
}

#[test]
fn vexflow_keys_of_pitch_codes() {
    assert_eq!(pitch_to_vexflow_key(Degree::N1, None), Ok(("c/4".to_string(), None)));
    assert_eq!(pitch_to_vexflow_key(Degree::N5bb, Some(-2)), Ok(("g/2".to_string(), Some("bb".to_string()))));
    assert_eq!(pitch_to_vexflow_key(Degree::N7s, Some(2)), Ok(("b/6".to_string(), Some("#".to_string()))));
    assert_eq!(pitch_to_vexflow_key(Degree::N2, Some(5)), Ok(("d/4".to_string(), None)));
}

#[test]
fn lilypond_note_parts() {
    assert_eq!(parse_lilypond_note("cs"), ("c".to_string(), "s".to_string()));
    assert_eq!(parse_lilypond_note(""), ("c".to_string(), String::new()));
    assert_eq!(parse_lilypond_note("bff"), ("b".to_string(), "ff".to_string()));
}

#[test]
fn durations_inside_brackets() {
    assert_eq!(extract_duration_from_value("S[1/16]"), "1/16");
    assert_eq!(extract_duration_from_value("S"), "1/1");
    assert_eq!(extract_duration_from_value("[3/8"), "1/1");
}

fn fsm_note(duration: &str, key: &str) -> FsmElement {
    FsmElement::Note {
        keys: vec![key.to_string()],
        duration: duration.to_string(),
        dots: 0,
        accidentals: vec![],
        tied: false,
        original_duration: None,
        beam_start: false,
        beam_end: false,
        syl: None,
    }
}

fn tied(v: &[FsmElement]) -> Vec<bool> {
    v.iter().map(|e| matches!(e, FsmElement::Note { tied: true, .. })).collect()
}

#[test]
fn ties_join_equal_neighbouring_notes() {
    let mut v = vec![fsm_note("8", "c/4"), fsm_note("8", "c/4"), fsm_note("8", "d/4"), FsmElement::Breathe, fsm_note("8", "d/4")];
    apply_tie_detection(&mut v);
    assert_eq!(tied(&v), vec![true, false, false, false, false]);
}

#[test]
fn fsm_beaming_breaks_at_rests() {
    let mut v = vec![
        fsm_note("16", "c/4"),
        fsm_note("16", "c/4"),
        FsmElement::Rest { duration: "16".to_string(), dots: 0, original_duration: None },
        fsm_note("16", "d/4"),
        fsm_note("32", "e/4"),
    ];
    apply_vexflow_beaming(&mut v, false);
    let flags: Vec<Option<(bool, bool)>> = v
        .iter()
        .map(|e| match e {
            FsmElement::Note { beam_start, beam_end, .. } => Some((*beam_start, *beam_end)),
            _ => None,
        })
        .collect();
    assert_eq!(flags, vec![Some((true, false)), Some((false, true)), None, Some((true, false)), Some((false, true))]);
}
