use music_text::pitch::Degree;
use music_text::rhythm::converters::BarlineType;
use music_text::rhythm::types::{ParsedElement, Position};
use music_text::rhythm_fsm::{convert_parsed_to_fsm_output, find_next_lower_power_of_2, is_power_of_two, Item};

fn pos(col: usize) -> Position {
    Position { row: 0, col, char_index: col }
}

fn note(d: Degree, col: usize) -> ParsedElement {
    ParsedElement::new_note(d, 0, "1".to_string(), pos(col))
}

fn dash(col: usize) -> ParsedElement {
    ParsedElement::Dash { degree: None, octave: None, position: pos(col), duration: None }
}

fn space(col: usize) -> ParsedElement {
    ParsedElement::Whitespace { value: " ".to_string(), position: pos(col) }
}

fn beat(item: &Item) -> &music_text::rhythm_fsm::Beat {
    match item {
        Item::Beat(b) => b,
        _ => panic!("Expected beat"),
    }
}

#[test]
fn simple_note_sequence_makes_one_beat_per_note() {
    let out = convert_parsed_to_fsm_output(&[note(Degree::N1, 0), space(1), note(Degree::N2, 2)]);
    assert_eq!(out.len(), 2);
    let b = beat(&out[0]);
    assert_eq!(b.divisions, 1);
    assert_eq!(b.elements.len(), 1);
    assert_eq!(b.elements[0].subdivisions, 1);
    assert!(!b.is_tuplet);
    assert_eq!(b.elements[0].duration, (1, 4));
}

#[test]
fn dash_extension_makes_a_triplet() {
    let out = convert_parsed_to_fsm_output(&[note(Degree::N1, 0), dash(1), note(Degree::N2, 2)]);
    assert_eq!(out.len(), 1);
    let b = beat(&out[0]);
    assert_eq!(b.divisions, 3);
    assert_eq!(b.elements.len(), 2);
    assert_eq!(b.elements[0].subdivisions, 2);
    assert_eq!(b.elements[1].subdivisions, 1);
    assert!(b.is_tuplet);
    assert_eq!(b.tuplet_ratio, Some((3, 2)));
    assert_eq!(b.elements[0].duration, (2, 3));
    assert_eq!(b.elements[0].tuplet_duration, (1, 4));
    assert_eq!(b.elements[1].tuplet_duration, (1, 8));
    assert_eq!(b.elements[1].tuplet_display_duration, Some((1, 8)));
}

#[test]
fn leading_dash_is_a_rest() {
    let out = convert_parsed_to_fsm_output(&[dash(0), note(Degree::N1, 1)]);
    assert_eq!(out.len(), 1);
    let b = beat(&out[0]);
    assert_eq!(b.divisions, 2);
    assert_eq!(b.elements[0].subdivisions, 1);
    assert_eq!(b.elements[1].subdivisions, 1);
    assert!(matches!(b.elements[0].element, ParsedElement::Rest { .. }));
    assert!(!b.is_tuplet);
    assert_eq!(b.elements[1].duration, (1, 8));
}

#[test]
fn four_subdivisions_are_sixteenths() {
    let out = convert_parsed_to_fsm_output(&[note(Degree::N1, 0), dash(1), dash(2), note(Degree::N2, 3)]);
    let b = beat(&out[0]);
    assert_eq!(b.divisions, 4);
    assert_eq!(b.elements[0].duration, (3, 16));
    assert_eq!(b.elements[1].duration, (1, 16));
}

#[test]
fn dash_after_a_beat_continues_the_note() {
    let out = convert_parsed_to_fsm_output(&[note(Degree::N3, 0), space(1), dash(2)]);
    assert_eq!(out.len(), 2);
    let second = beat(&out[1]);
    assert!(second.tied_to_previous);
    match &second.elements[0].element {
        ParsedElement::Note { degree, value, .. } => {
            assert_eq!(*degree, Degree::N3);
            assert_eq!(value, "N3");
        },
        _ => panic!("Expected tied note"),
    }
}

#[test]
fn repeated_note_after_a_beat_is_tied() {
    let out = convert_parsed_to_fsm_output(&[note(Degree::N5, 0), space(1), note(Degree::N5, 2), space(3), note(Degree::N6, 4)]);
    assert_eq!(out.len(), 3);
    assert!(beat(&out[1]).tied_to_previous);
    assert!(!beat(&out[2]).tied_to_previous);
}

#[test]
fn bar_lines_and_breath_marks() {
    let out = convert_parsed_to_fsm_output(&[
        note(Degree::N1, 0),
        ParsedElement::Barline { style: "||".to_string(), position: pos(1), tala: Some(2) },
        ParsedElement::Symbol { value: "'".to_string(), position: pos(2) },
        dash(3),
        ParsedElement::Barline { style: "|||".to_string(), position: pos(4), tala: None },
    ]);
    assert_eq!(out.len(), 4);
    assert!(matches!(out[1], Item::Barline(BarlineType::Double, Some(2))));
    assert!(matches!(out[2], Item::Breathmark));
    // After a breath mark the dash is a rest, and the unknown bar line is dropped.
    assert!(matches!(beat(&out[3]).elements[0].element, ParsedElement::Rest { .. }));
}

#[test]
fn quintuplet_ratio_and_powers_of_two() {
    let mut input = vec![];
    for i in 0..5 {
        input.push(note(Degree::N1, i));
    }
    let out = convert_parsed_to_fsm_output(&input);
    let b = beat(&out[0]);
    assert_eq!(b.tuplet_ratio, Some((5, 4)));
    assert_eq!(b.elements[0].tuplet_duration, (1, 16));
    assert_eq!(find_next_lower_power_of_2(3), 2);
    assert_eq!(find_next_lower_power_of_2(9), 8);
    assert_eq!(find_next_lower_power_of_2(8), 4);
    assert_eq!(find_next_lower_power_of_2(1), 2);
    assert!(is_power_of_two(64));
    assert!(!is_power_of_two(6));
}
