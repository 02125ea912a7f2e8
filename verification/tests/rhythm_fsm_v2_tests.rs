use music_text::pitch::Degree;
use music_text::rhythm::types::{OrnamentType, ParsedChild, ParsedElement, Position};
use music_text::rhythm_fsm_v2::{
    convert_fsm_output_to_elements_public, group_elements_with_fsm, group_elements_with_fsm_full, BeatElement, OutputItemV2,
    ParsedElementType,
};

fn at(col: usize) -> Position {
    Position { row: 1, col, char_index: col }
}

fn note(d: Degree, value: &str, col: usize) -> ParsedElement {
    ParsedElement::new_note(d, 0, value.to_string(), at(col))
}

fn dash(col: usize) -> ParsedElement {
    ParsedElement::Dash { degree: None, octave: None, position: at(col), duration: None }
}

fn space(col: usize) -> ParsedElement {
    ParsedElement::Whitespace { value: " ".to_string(), position: at(col) }
}

fn beat_summary(item: &OutputItemV2) -> Option<(usize, bool, Option<(usize, usize)>, bool, Vec<(usize, (usize, usize), (usize, usize))>)> {
    match item {
        OutputItemV2::Beat(b) => Some((
            b.divisions,
            b.is_tuplet,
            b.tuplet_ratio,
            b.tied_to_previous,
            b.elements.iter().map(|e| (e.subdivisions, e.duration, e.tuplet_duration)).collect(),
        )),
        _ => None,
    }
}

#[test]
fn dash_extends_note_and_uneven_beat_is_a_tuplet() {
    let elements = vec![note(Degree::N1, "1", 0), dash(1), note(Degree::N2, "2", 2), space(3), note(Degree::N3, "3", 4)];
    let out = group_elements_with_fsm_full(&elements, &[]);
    assert_eq!(out.len(), 2);
    assert_eq!(beat_summary(&out[0]), Some((3, true, Some((3, 2)), false, vec![(2, (2, 3), (1, 4)), (1, (1, 3), (1, 8))])));
    assert_eq!(beat_summary(&out[1]), Some((1, false, None, false, vec![(1, (1, 4), (1, 4))])));
    let flat = group_elements_with_fsm(&elements, &[]);
    let durations: Vec<Option<(usize, usize)>> = flat
        .iter()
        .map(|e| match e {
            ParsedElement::Note { duration, .. } => *duration,
            _ => None,
        })
        .collect();
    assert_eq!(durations, vec![Some((1, 4)), Some((1, 8)), Some((1, 4))]);
}

#[test]
fn dash_after_separator_ties_previous_note() {
    let elements = vec![note(Degree::N5, "5", 0), space(1), dash(2)];
    let out = group_elements_with_fsm_full(&elements, &[]);
    assert_eq!(out.len(), 2);
    match &out[1] {
        OutputItemV2::Beat(b) => {
            assert!(b.tied_to_previous);
            assert_eq!(b.elements.len(), 1);
            assert_eq!(b.elements[0].element_type, ParsedElementType::Note);
            assert_eq!(b.elements[0].degree, Some(Degree::N5));
            assert_eq!(b.elements[0].value, "N5");
            assert_eq!(b.elements[0].position.col, 2);
        },
        _ => panic!("expected a beat"),
    }
}

#[test]
fn leading_dash_is_a_rest_and_bar_lines_and_breaths_close_beats() {
    let elements = vec![
        dash(0),
        note(Degree::N1, "1", 1),
        ParsedElement::Barline { style: "|".to_string(), position: at(2), tala: None },
        note(Degree::N2, "2", 3),
        ParsedElement::Symbol { value: "'".to_string(), position: at(4) },
    ];
    let out = group_elements_with_fsm_full(&elements, &[]);
    assert_eq!(out.len(), 4);
    match &out[0] {
        OutputItemV2::Beat(b) => {
            assert_eq!(b.elements[0].element_type, ParsedElementType::Rest);
            assert_eq!(b.elements[0].value, "r");
            assert_eq!(b.elements[0].tuplet_duration, (1, 8));
            assert_eq!(b.elements[1].tuplet_duration, (1, 8));
        },
        _ => panic!("expected a beat"),
    }
    assert!(matches!(&out[1], OutputItemV2::Barline(s) if s == "|"));
    assert!(matches!(&out[2], OutputItemV2::Beat(_)));
    assert!(matches!(&out[3], OutputItemV2::Breathmark));
    let flat = convert_fsm_output_to_elements_public(out);
    assert_eq!(flat.len(), 5);
    assert!(matches!(&flat[0], ParsedElement::Rest { value, duration: Some((1, 8)), .. } if value == "r"));
    assert!(matches!(&flat[2], ParsedElement::Barline { style, position, .. } if style == "|" && position.col == 0));
    assert!(matches!(&flat[4], ParsedElement::Symbol { value, .. } if value == "'"));
}

#[test]
fn beat_element_from_note_collects_children() {
    let mut n = note(Degree::N4, "4", 0);
    if let ParsedElement::Note { children, .. } = &mut n {
        children.push(ParsedChild::OctaveMarker { symbol: ".".to_string(), distance: -1 });
        children.push(ParsedChild::Ornament { kind: OrnamentType::Mordent, distance: -1 });
        children.push(ParsedChild::Syllable { text: "la".to_string(), distance: 1 });
        children.push(ParsedChild::Syllable { text: "da".to_string(), distance: 1 });
    }
    let e = BeatElement::from(n);
    assert_eq!(e.element_type, ParsedElementType::Note);
    assert_eq!(e.degree, Some(Degree::N4));
    assert_eq!(e.octave, Some(0));
    assert_eq!(e.subdivisions, 1);
    assert_eq!(e.syl, Some("la".to_string()));
    assert_eq!(e.ornaments, vec![OrnamentType::Mordent]);
    assert_eq!(e.octave_markers, vec![".".to_string()]);
    let d = BeatElement::from(dash(3));
    assert!(d.is_dash());
    assert_eq!(d.value, "-");
    let w = BeatElement::from(space(4)).with_subdivisions(3);
    assert_eq!(w.value, " ");
    assert_eq!(w.subdivisions, 3);
    assert_eq!(w.element_type, ParsedElementType::Whitespace);
}
