use music_text::json::JsonValue;
use music_text::pitch::Degree;
use music_text::rhythm_analyzer::{
    Barline, BarlineToken, Beat, BeatElement, BreathMark, ContentElement, ContentLine, Dash, NotationSystem, Note, Rest, Whitespace,
};
use music_text::vexflow_renderer::{
    convert_fraction_to_vexflow, degree_to_vexflow_key, process_beat_to_vexflow, process_stave_to_vexflow, VexFlowRenderer,
};

fn show(v: &JsonValue) -> String {
    match v {
        JsonValue::Null => "null".to_string(),
        JsonValue::Bool(b) => b.to_string(),
        JsonValue::Number(n) => n.clone(),
        JsonValue::String(s) => format!("\"{}\"", s),
        JsonValue::Array(items) => format!("[{}]", items.iter().map(show).collect::<Vec<_>>().join(",")),
        JsonValue::Object(fields) => {
            format!("{{{}}}", fields.iter().map(|(k, v)| format!("\"{}\":{}", k, show(v))).collect::<Vec<_>>().join(","))
        },
    }
}

fn timed_note(d: Degree, n: u32, den: u32) -> BeatElement {
    let mut note = Note::new(Some("x".to_string()), 0, d, NotationSystem::Number);
    note.numerator = Some(n);
    note.denominator = Some(den);
    BeatElement::Note(note)
}

fn beat(elements: Vec<BeatElement>, tuplet: Option<(usize, usize)>, divisions: Option<usize>) -> Beat {
    Beat {
        elements,
        value: None,
        char_index: 0,
        divisions,
        total_duration: None,
        is_tuplet: Some(tuplet.is_some()),
        tuplet_ratio: tuplet,
        tied_to_previous: None,
    }
}

#[test]
fn conversions() {
    assert_eq!(convert_fraction_to_vexflow(3, 8), ("q".to_string(), 1));
    assert_eq!(convert_fraction_to_vexflow(2, 8), ("q".to_string(), 0));
    assert_eq!(convert_fraction_to_vexflow(5, 7), ("q".to_string(), 0));
    let (key, accs) = degree_to_vexflow_key(Degree::N2b, -1);
    assert_eq!(key, "D/3");
    assert_eq!(accs.iter().map(show).collect::<Vec<_>>(), vec!["\"b\"".to_string()]);
    let r = VexFlowRenderer::new();
    let js = r.generate_empty_stave_js();
    assert!(js.starts_with("(function() {\n  const container = document.getElementById('vexflow-output');"));
    assert!(js.ends_with("  stave.draw();\n})();\n"));
}

#[test]
fn consecutive_short_notes_are_beamed() {
    let b = beat(vec![timed_note(Degree::N1, 1, 8), timed_note(Degree::N3s, 1, 8)], None, Some(2));
    let out: Vec<String> = process_beat_to_vexflow(&b).iter().map(show).collect();
    assert_eq!(
        out,
        vec![
            "{\"type\":\"Note\",\"keys\":[\"C/4\"],\"duration\":\"8\",\"beam_start\":true}".to_string(),
            "{\"type\":\"Note\",\"keys\":[\"E/4\"],\"duration\":\"8\",\"accidentals\":[\"#\"],\"beam_end\":true}".to_string(),
        ]
    );
}

#[test]
fn rests_breaths_and_empty_beats() {
    let rest = BeatElement::Dash(Dash { value: None, char_index: 0, numerator: Some(3), denominator: Some(8) });
    let extender = BeatElement::Dash(Dash { value: None, char_index: 1, numerator: None, denominator: None });
    let breath = BeatElement::BreathMark(BreathMark { value: Some("'".to_string()), char_index: 2 });
    let r = BeatElement::Rest(Rest { value: None, char_index: 3, numerator: Some(1), denominator: Some(4) });
    let out: Vec<String> = process_beat_to_vexflow(&beat(vec![rest, extender, breath, r], None, None)).iter().map(show).collect();
    assert_eq!(
        out,
        vec![
            "{\"type\":\"Rest\",\"duration\":\"q\",\"dots\":1}".to_string(),
            "{\"type\":\"Symbol\",\"symbol\":\"breathmark\"}".to_string(),
        ]
    );
    let empty: Vec<String> = process_beat_to_vexflow(&beat(vec![], None, None)).iter().map(show).collect();
    assert_eq!(empty, vec!["{\"type\":\"Rest\",\"duration\":\"q\"}".to_string()]);
}

#[test]
fn stave_data_wraps_tuplets_and_names_bar_lines() {
    let line = ContentLine {
        elements: vec![
            ContentElement::Beat(beat(
                vec![timed_note(Degree::N1, 1, 12), timed_note(Degree::N2, 1, 12), timed_note(Degree::N3, 1, 12)],
                Some((3, 2)),
                Some(3),
            )),
            ContentElement::Whitespace(Whitespace { value: Some(" ".to_string()), char_index: 3 }),
            ContentElement::Barline(Barline::Final(BarlineToken { value: Some("|.".to_string()), char_index: 4 })),
        ],
        value: None,
    };
    let out: Vec<String> = process_stave_to_vexflow(&[line]).iter().map(show).collect();
    assert_eq!(out.len(), 2);
    assert!(out[0].starts_with("{\"type\":\"Tuplet\",\"divisions\":3,\"ratio\":[3,2],\"notes\":[{\"type\":\"Note\",\"keys\":[\"C/4\"],\"duration\":\"q\"}"));
    assert_eq!(out[1], "{\"type\":\"BarLine\",\"bar_type\":\"end\"}");
}
