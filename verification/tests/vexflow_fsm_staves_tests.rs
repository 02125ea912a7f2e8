use music_text::pitch::Degree;
use music_text::structs_backup::{Directive, Document, Metadata, Node};
use music_text::vexflow_fsm_converter::VexFlowElement;
use music_text::vexflow_fsm_staves::{convert_fsm_to_vexflow, fraction_to_vexflow_duration_proper, tag_durations_of};

fn node(t: &str, value: &str) -> Node {
    Node::new(t.to_string(), value.to_string(), 0, 0)
}

fn pitch(value: &str, d: Degree) -> Node {
    let mut n = node("PITCH", value);
    n.pitch_code = Some(d);
    n.octave = Some(0);
    n
}

fn beat(divisions: usize, children: Vec<Node>) -> Node {
    let mut b = node("BEAT", "");
    b.divisions = divisions;
    b.nodes = children;
    b
}

fn document(key: Option<&str>, lines: Vec<Node>) -> Document {
    Document {
        metadata: Metadata {
            title: None,
            directives: key
                .map(|k| vec![Directive { key: "Key".to_string(), value: k.to_string(), row: 0, col: 0 }])
                .unwrap_or_default(),
        },
        nodes: lines,
    }
}

fn line(children: Vec<Node>) -> Node {
    let mut l = node("LINE", "");
    l.nodes = children;
    l
}

#[test]
fn eighths_are_beamed_and_accidentals_shown_once_per_bar() {
    let doc = document(None, vec![line(vec![
        beat(2, vec![pitch("S[1/8]", Degree::N1), pitch("M#[1/8]", Degree::N4s)]),
        beat(1, vec![pitch("M#[1/4]", Degree::N4s)]),
        node("BARLINE", "||"),
        beat(1, vec![pitch("M#[1/4]", Degree::N4s)]),
    ])]);
    let staves = convert_fsm_to_vexflow(&doc).unwrap();
    assert_eq!(staves.len(), 1);
    let notes = &staves[0].notes;
    assert_eq!(notes.len(), 5);
    match &notes[0] {
        VexFlowElement::Note { keys, duration, beam_start, beam_end, accidentals, tied, original_duration, .. } => {
            assert_eq!(keys, &vec!["c/4".to_string()]);
            assert_eq!(duration, "8");
            assert!(*beam_start && !*beam_end);
            assert!(accidentals.is_empty());
            assert!(!*tied);
            assert_eq!(original_duration.as_deref(), Some("1/8"));
        },
        _ => panic!("note expected"),
    }
    match &notes[1] {
        VexFlowElement::Note { keys, beam_end, accidentals, .. } => {
            assert_eq!(keys, &vec!["f/4".to_string()]);
            assert!(*beam_end);
            assert_eq!(accidentals.len(), 1);
            assert_eq!(accidentals[0].accidental, "#");
        },
        _ => panic!("note expected"),
    }
    match &notes[2] {
        VexFlowElement::Note { accidentals, duration, beam_start, .. } => {
            assert!(accidentals.is_empty());
            assert_eq!(duration, "q");
            assert!(!*beam_start);
        },
        _ => panic!("note expected"),
    }
    assert!(matches!(&notes[3], VexFlowElement::BarLine { bar_type } if bar_type == "double"));
    match &notes[4] {
        VexFlowElement::Note { accidentals, .. } => assert_eq!(accidentals.len(), 1),
        _ => panic!("note expected"),
    }
}

#[test]
fn tuplet_beats_are_wrapped_and_ties_look_ahead() {
    let mut held = pitch("S[1/4]", Degree::N1);
    held.dash_consumed = true;
    let mut first = pitch("S[1/8]", Degree::N1);
    first.nodes = vec![node("MORDENT", "~"), node("SYL", "la")];
    let doc = document(None, vec![line(vec![
        beat(3, vec![first, pitch("R[1/8]", Degree::N2), node("REST", "[1/8]")]),
        beat(1, vec![pitch("G[1/4]", Degree::N3)]),
        beat(1, vec![pitch("S[1/4]", Degree::N1)]),
        beat(1, vec![held]),
        node("BREATHMARK", "'"),
    ])]);
    let staves = convert_fsm_to_vexflow(&doc).unwrap();
    let notes = &staves[0].notes;
    match &notes[0] {
        VexFlowElement::Tuplet { notes: inner, divisions } => {
            assert_eq!(*divisions, 3);
            assert_eq!(inner.len(), 4);
            match &inner[0] {
                VexFlowElement::Note { syl, beam_start, .. } => {
                    assert_eq!(syl.as_deref(), Some("la"));
                    assert!(!*beam_start);
                },
                _ => panic!("note expected"),
            }
            assert!(matches!(&inner[1], VexFlowElement::Mordent { note_index: 0, mordent_type } if mordent_type == "upper"));
            assert!(matches!(&inner[3], VexFlowElement::Rest { duration, .. } if duration == "8"));
        },
        _ => panic!("tuplet expected"),
    }
    match &notes[2] {
        VexFlowElement::Note { tied, .. } => assert!(*tied),
        _ => panic!("note expected"),
    }
    match &notes[1] {
        VexFlowElement::Note { tied, .. } => assert!(!*tied),
        _ => panic!("note expected"),
    }
    assert!(matches!(&notes[4], VexFlowElement::Breathe));
}

#[test]
fn key_directive_transposes_and_lines_without_elements_are_dropped() {
    let doc = document(Some("D"), vec![
        line(vec![beat(1, vec![pitch("S[1/4]", Degree::N1)])]),
        line(vec![node("WHITESPACE", " ")]),
    ]);
    let staves = convert_fsm_to_vexflow(&doc).unwrap();
    assert_eq!(staves.len(), 1);
    assert_eq!(staves[0].key_signature.as_deref(), Some("D"));
    match &staves[0].notes[0] {
        VexFlowElement::Note { keys, .. } => assert_eq!(keys, &vec!["d/4".to_string()]),
        _ => panic!("note expected"),
    }
}

#[test]
fn durations_from_tags() {
    let v = fraction_to_vexflow_duration_proper(5, 8);
    assert_eq!(v, vec![("h".to_string(), 0), ("8".to_string(), 0)]);
    assert_eq!(fraction_to_vexflow_duration_proper(7, 16), vec![("q".to_string(), 2)]);
    assert_eq!(fraction_to_vexflow_duration_proper(2, 4), vec![("h".to_string(), 0)]);
    assert_eq!(tag_durations_of("3/8"), vec![("q".to_string(), 1)]);
    assert_eq!(tag_durations_of("x"), vec![("q".to_string(), 0)]);
    assert_eq!(tag_durations_of("1/0"), vec![("q".to_string(), 0)]);
    assert_eq!(tag_durations_of("1"), vec![("w".to_string(), 0)]);
}

#[test]
fn single_durations_and_syllables() {
    use_single();
}

fn use_single() {
    assert_eq!(music_text::vexflow_fsm_staves::fraction_to_vexflow_duration("3/16", 4), Ok(("8".to_string(), 1)));
    assert_eq!(music_text::vexflow_fsm_staves::fraction_to_vexflow_duration("5/8", 4), Ok(("h".to_string(), 0)));
    assert_eq!(
        music_text::vexflow_fsm_staves::fraction_to_vexflow_duration("a/b", 4),
        Err("Invalid fraction: a/b".to_string())
    );
    let mut n = node("PITCH", "S[1/4]");
    n.nodes = vec![node("SYL", "  "), node("SYL", "ta")];
    assert_eq!(music_text::vexflow_fsm_staves::extract_syllable_from_node(&n), Some("ta".to_string()));
}
