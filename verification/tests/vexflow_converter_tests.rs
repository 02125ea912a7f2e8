use music_text::json::JsonValue;
use music_text::vexflow_converter::{note_from_captures, rest_from_captures, LilyPondToVexFlowConverter, VexFlowNoteType};

#[test]
fn test_basic_note_conversion() {
    let converter = LilyPondToVexFlowConverter::new().unwrap();
    let lilypond_code = r#"\fixed c' { c4 d4 e4 f4 }"#;

    let result = converter.convert_lilypond_to_vexflow(lilypond_code).unwrap();
    assert_eq!(result.len(), 4);

    assert_eq!(result[0].keys[0], "c/4");
    assert_eq!(result[0].duration, "q");
    assert_eq!(result[0].clef, "treble");
}

#[test]
fn test_accidentals() {
    let converter = LilyPondToVexFlowConverter::new().unwrap();
    let lilypond_code = r#"cs4 df4"#;

    let result = converter.convert_lilypond_to_vexflow(lilypond_code).unwrap();
    assert_eq!(result.len(), 2);

    assert_eq!(result[0].keys[0], "c/4");
    assert!(result[0].accidentals.is_some());
    assert_eq!(result[0].accidentals.as_ref().unwrap()[0].accidental, "#");

    assert_eq!(result[1].keys[0], "d/4");
    assert!(result[1].accidentals.is_some());
    assert_eq!(result[1].accidentals.as_ref().unwrap()[0].accidental, "b");
}

#[test]
fn test_octave_marks() {
    let converter = LilyPondToVexFlowConverter::new().unwrap();
    let lilypond_code = r#"c'4 c,4"#;

    let result = converter.convert_lilypond_to_vexflow(lilypond_code).unwrap();
    assert_eq!(result.len(), 2);

    assert_eq!(result[0].keys[0], "c/5");
    assert_eq!(result[1].keys[0], "c/3");
}

#[test]
fn test_rests() {
    let converter = LilyPondToVexFlowConverter::new().unwrap();
    let lilypond_code = r#"c4 r4 d4"#;

    let result = converter.convert_lilypond_to_vexflow(lilypond_code).unwrap();
    assert_eq!(result.len(), 3);

    assert_eq!(result[2].duration, "q");
    assert!(matches!(result[2].note_type, VexFlowNoteType::Rest));
}

#[test]
fn test_durations() {
    let converter = LilyPondToVexFlowConverter::new().unwrap();
    let lilypond_code = r#"c1 c2 c4 c8 c16"#;

    let result = converter.convert_lilypond_to_vexflow(lilypond_code).unwrap();
    assert_eq!(result.len(), 5);

    assert_eq!(result[0].duration, "w");
    assert_eq!(result[1].duration, "h");
    assert_eq!(result[2].duration, "q");
    assert_eq!(result[3].duration, "8");
    assert_eq!(result[4].duration, "16");
}

#[test]
fn converter_cleans_commands_ties_and_lines() {
    let converter = LilyPondToVexFlowConverter::new().unwrap();
    let code = "\\clef treble \\time 4/4\n\n  e''8~ e''8 \\tuplet 3/2 { g,4 a4 b4 }\n\\break r2.";
    let cleaned = converter.clean_lilypond_code(code).unwrap();
    assert!(!cleaned.contains("\\clef"));
    assert!(!cleaned.contains('~'));
    let result = converter.convert_lilypond_to_vexflow(code).unwrap();
    let keys: Vec<&str> = result.iter().map(|n| n.keys[0].as_str()).collect();
    assert_eq!(keys, vec!["e/6", "e/6", "g/3", "a/4", "b/4", "b/4"]);
    assert_eq!(result[0].duration, "8");
    assert!(matches!(result[5].note_type, VexFlowNoteType::Rest));
    assert_eq!(result[5].duration, "h");
}

#[test]
fn note_and_rest_from_groups() {
    let groups = vec![
        Some("gff''8".to_string()),
        Some("g".to_string()),
        Some("ff".to_string()),
        Some("''".to_string()),
        Some("8".to_string()),
    ];
    let n = note_from_captures(&groups).unwrap();
    assert_eq!(n.keys, vec!["g/6".to_string()]);
    assert_eq!(n.duration, "8");
    assert_eq!(n.accidentals.as_ref().unwrap()[0].accidental, "bb");
    assert_eq!(n.accidentals.as_ref().unwrap()[0].index, 0);

    let low = vec![Some("a,,,32".to_string()), Some("A".to_string()), None, Some(",,,".to_string()), Some("32".to_string())];
    let n = note_from_captures(&low).unwrap();
    assert_eq!(n.keys, vec!["a/1".to_string()]);
    assert_eq!(n.duration, "q");
    assert!(n.accidentals.is_none());

    assert!(note_from_captures(&vec![Some("x".to_string())]).is_none());

    let r = rest_from_captures(&vec![Some("r1".to_string()), Some("1".to_string())]).unwrap();
    assert_eq!(r.keys, vec!["b/4".to_string()]);
    assert_eq!(r.duration, "w");
    assert_eq!(r.note_type, VexFlowNoteType::Rest);
    assert!(rest_from_captures(&vec![Some("r".to_string()), None]).is_none());
}

#[test]
fn js_objects_carry_every_field() {
    let converter = LilyPondToVexFlowConverter::new().unwrap();
    let notes = converter.convert_lilypond_to_vexflow("cs4 r8").unwrap();
    let objects = converter.to_vexflow_js_objects(&notes);
    assert_eq!(objects.len(), 2);
    let keys: Vec<&str> = objects[0].iter().map(|(k, _)| k.as_str()).collect();
    assert_eq!(keys, vec!["clef", "keys", "duration", "accidentals", "note_type"]);
    match &objects[0][3].1 {
        JsonValue::Array(items) => match &items[0] {
            JsonValue::Object(fields) => {
                assert!(matches!(&fields[0].1, JsonValue::Number(n) if n == "0"));
                assert!(matches!(&fields[1].1, JsonValue::String(a) if a == "#"));
            },
            _ => panic!("object expected"),
        },
        _ => panic!("array expected"),
    }
    let keys: Vec<&str> = objects[1].iter().map(|(k, _)| k.as_str()).collect();
    assert_eq!(keys, vec!["clef", "keys", "duration", "note_type"]);
    assert!(matches!(&objects[1][3].1, JsonValue::String(t) if t == "Rest"));
}
