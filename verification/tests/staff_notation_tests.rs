use music_text::pitch::Degree;
use music_text::rhythm::converters::BarlineType;
use music_text::rhythm::types::{ParsedElement, Position};
use music_text::rhythm_fsm::{convert_parsed_to_fsm_output, Item};
use music_text::to_staff_notation::{
    convert_elements_to_staff_notation, convert_elements_to_vexflow_js, degree_to_scale_degree, fraction_to_text, KeyTransposer,
    StaffNotationElement,
};

#[test]
fn to_staff_notation_test_key_transposer_creation() {
    let transposer = KeyTransposer::new(Some(&"G".to_string()));
    assert_eq!(transposer.tonic_note, "g");
    assert_eq!(transposer._key_signature.len(), 1);
    assert_eq!(transposer._key_signature[0], (3, true));
}

#[test]
fn test_degree_to_scale_degree() {
    assert_eq!(degree_to_scale_degree(Degree::N1), ("c", 0));
    assert_eq!(degree_to_scale_degree(Degree::N2), ("d", 0));
    assert_eq!(degree_to_scale_degree(Degree::N1s), ("c", 1));
    assert_eq!(degree_to_scale_degree(Degree::N2b), ("d", -1));
}

#[test]
fn scale_degrees_map_into_the_key() {
    let d = KeyTransposer::new(Some(&"d".to_string()));
    assert_eq!(d.get_scale_for_key(), vec!["d", "e", "fs", "g", "a", "b", "cs"]);
    let (key, acc) = d.transpose_pitch(Degree::N3, 0);
    assert_eq!(key, "fs/4");
    assert!(acc.is_empty());
    let (key, acc) = d.transpose_pitch(Degree::N7bb, -1);
    assert_eq!(key, "cs/3");
    assert_eq!(acc.len(), 1);
    assert_eq!(acc[0].accidental, "bb");
    // A key without its own scale table uses C major.
    let a = KeyTransposer::new(Some(&"A".to_string()));
    assert_eq!(a.tonic_note, "a");
    assert_eq!(a.transpose_pitch(Degree::N5, 1).0, "g/5");
}

#[test]
fn fraction_texts() {
    assert_eq!(fraction_to_text((1, 8)), "1/8");
    assert_eq!(fraction_to_text((3, 1)), "3");
}

fn pos(col: usize) -> Position {
    Position { row: 0, col, char_index: col }
}

#[test]
fn staff_notes_from_fsm_items() {
    let input = vec![
        ParsedElement::new_note(Degree::N1, 0, "1".to_string(), pos(0)),
        ParsedElement::new_note(Degree::N2, 0, "2".to_string(), pos(1)),
        ParsedElement::Whitespace { value: " ".to_string(), position: pos(2) },
        ParsedElement::new_note(Degree::N3, 0, "3".to_string(), pos(3)),
        ParsedElement::Barline { style: "|".to_string(), position: pos(4), tala: None },
    ];
    let items: Vec<Item> = convert_parsed_to_fsm_output(&input);
    let staves = convert_elements_to_staff_notation(&items, Some(&"F".to_string())).unwrap();
    assert_eq!(staves.len(), 1);
    assert_eq!(staves[0].key_signature, Some("F".to_string()));
    let notes = &staves[0].notes;
    assert_eq!(notes.len(), 4);
    match &notes[0] {
        StaffNotationElement::Note { keys, duration, beam_start, original_duration, .. } => {
            assert_eq!(keys, &vec!["f/4".to_string()]);
            assert_eq!(duration, "8");
            assert!(*beam_start);
            assert_eq!(original_duration, &Some("1/8".to_string()));
        },
        _ => panic!("Expected note"),
    }
    match &notes[1] {
        StaffNotationElement::Note { keys, beam_end, .. } => {
            assert_eq!(keys, &vec!["g/4".to_string()]);
            assert!(*beam_end);
        },
        _ => panic!("Expected note"),
    }
    match &notes[2] {
        StaffNotationElement::Note { keys, duration, .. } => {
            assert_eq!(keys, &vec!["a/4".to_string()]);
            assert_eq!(duration, "q");
        },
        _ => panic!("Expected note"),
    }
    match &notes[3] {
        StaffNotationElement::BarLine { bar_type } => assert_eq!(bar_type, "single"),
        _ => panic!("Expected bar line"),
    }
}

#[test]
fn tuplets_and_ties_in_staff_notes() {
    let input = vec![
        ParsedElement::new_note(Degree::N1, 0, "1".to_string(), pos(0)),
        ParsedElement::new_note(Degree::N2, 0, "2".to_string(), pos(1)),
        ParsedElement::new_note(Degree::N3, 0, "3".to_string(), pos(2)),
        ParsedElement::Whitespace { value: " ".to_string(), position: pos(3) },
        ParsedElement::Dash { degree: None, octave: None, position: pos(4), duration: None },
    ];
    let items = convert_parsed_to_fsm_output(&input);
    let staves = convert_elements_to_staff_notation(&items, None).unwrap();
    let notes = &staves[0].notes;
    assert_eq!(notes.len(), 2);
    match &notes[0] {
        StaffNotationElement::Tuplet { notes: inner, ratio } => {
            assert_eq!(*ratio, (3, 2));
            assert_eq!(inner.len(), 3);
            match &inner[2] {
                StaffNotationElement::Note { tied, keys, .. } => {
                    assert!(*tied);
                    assert_eq!(keys, &vec!["e/4".to_string()]);
                },
                _ => panic!("Expected note"),
            }
        },
        _ => panic!("Expected tuplet"),
    }
    let with_bar = vec![Item::Barline(BarlineType::RepeatStart, None), Item::Breathmark];
    let staves = convert_elements_to_staff_notation(&with_bar, None).unwrap();
    assert_eq!(staves[0].notes.len(), 2);
    match &staves[0].notes[0] {
        StaffNotationElement::BarLine { bar_type } => assert_eq!(bar_type, "repeat-begin"),
        _ => panic!("Expected bar line"),
    }
}

const HEADER: &str = "// Clear canvas\ncanvas.innerHTML = '';\ncanvas.classList.add('has-content');\n\n// Initialize VexFlow\nconst renderer = new VF.Renderer(canvas, VF.Renderer.Backends.SVG);\nrenderer.resize(800, 200);\nconst ctx = renderer.getContext();\n\n// Create stave\n";

#[test]
fn vexflow_script_with_beams() {
    let input = vec![
        ParsedElement::new_note(Degree::N1, 0, "1".to_string(), pos(0)),
        ParsedElement::new_note(Degree::N2, 0, "2".to_string(), pos(1)),
        ParsedElement::Whitespace { value: " ".to_string(), position: pos(2) },
        ParsedElement::new_note(Degree::N3, 0, "3".to_string(), pos(3)),
    ];
    let items = convert_parsed_to_fsm_output(&input);
    let js = convert_elements_to_vexflow_js(&items, None).unwrap();
    let expected = format!(
        "{}{}{}{}{}{}{}{}{}{}{}{}{}{}{}{}{}{}",
        HEADER,
        "const stave = new VF.Stave(10, 40, 450);\n",
        "stave.addClef('treble').setContext(ctx).draw();\n\n",
        "// Create notes\n",
        "const note0 = new VF.StaveNote({keys: ['c/4'], duration: '8'});\n",
        "const note1 = new VF.StaveNote({keys: ['d/4'], duration: '8'});\n",
        "const note2 = new VF.StaveNote({keys: ['e/4'], duration: 'q'});\n",
        "\n// Create beams\n",
        "const beam0 = new VF.Beam([note0, note1]);\n",
        "\n// Create ties\n",
        "\n// Collect all notes for formatting\n",
        "const allNotes = [note0, note1, note2];\n",
        "\n// Format and draw\n",
        "if (allNotes.length > 0) {\n",
        "  VF.Formatter.FormatAndDraw(ctx, stave, allNotes);\n",
        "}\n\n",
        "if (typeof beam0 !== 'undefined') beam0.setContext(ctx).draw();\n",
        ""
    );
    assert_eq!(js, expected);
}

#[test]
fn vexflow_script_with_a_tie_in_g() {
    let input = vec![
        ParsedElement::new_note(Degree::N7, 0, "7".to_string(), pos(0)),
        ParsedElement::Whitespace { value: " ".to_string(), position: pos(1) },
        ParsedElement::Dash { degree: None, octave: None, position: pos(2), duration: None },
    ];
    let items = convert_parsed_to_fsm_output(&input);
    let js = convert_elements_to_vexflow_js(&items, Some(&"G".to_string())).unwrap();
    assert!(js.contains("const note0 = new VF.StaveNote({keys: ['fs/4'], duration: 'q'});\n"));
    assert!(js.contains("const note1 = new VF.StaveNote({keys: ['fs/4'], duration: 'q'});\n"));
    assert!(js.contains("const tie0 = new VF.StaveTie({first_note: note0, last_note: note1, first_indices: [0], last_indices: [0]});\n"));
    assert!(js.ends_with("if (typeof tie0 !== 'undefined') tie0.setContext(ctx).draw();\n"));
    assert!(js.contains("\n// Create beams\n\n// Create ties\n"));
}
