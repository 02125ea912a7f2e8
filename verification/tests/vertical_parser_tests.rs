use music_text::rhythm::types::{OrnamentType, ParsedChild, Position};
use music_text::structs_backup::Token;
use music_text::vertical_parser::{apply_slurs_and_regions_to_elements, ParsedElement, SlurRole};

fn at(row: usize, col: usize) -> Position {
    Position { row, col, char_index: 0 }
}

fn note(row: usize, col: usize) -> ParsedElement {
    ParsedElement::Note { value: "S".to_string(), position: at(row, col), children: vec![], slur: None }
}

#[test]
fn mordents_syllables_and_slurs_reach_their_notes() {
    let mut elements = vec![
        ParsedElement::Symbol { value: "~".to_string(), position: at(0, 2) },
        note(1, 1),
        note(1, 3),
        note(1, 10),
        ParsedElement::Word { text: "la".to_string(), position: at(2, 1) },
        ParsedElement::Word { text: "ti".to_string(), position: at(2, 3) },
    ];
    let tokens = vec![Token { token_type: "SLUR".to_string(), value: "____".to_string(), line: 0, col: 0 }];
    apply_slurs_and_regions_to_elements(&mut elements, &tokens);
    assert_eq!(elements.len(), 3);
    match &elements[0] {
        ParsedElement::Note { children, slur, .. } => {
            assert_eq!(children.len(), 2);
            assert!(matches!(children[0], ParsedChild::Ornament { kind: OrnamentType::Mordent, distance: -1 }));
            assert!(matches!(&children[1], ParsedChild::Syllable { text, distance: 1 } if text == "la"));
            assert_eq!(*slur, Some(SlurRole::Start));
        },
        _ => panic!("note expected"),
    }
    match &elements[1] {
        ParsedElement::Note { children, slur, .. } => {
            assert!(matches!(&children[0], ParsedChild::Syllable { text, .. } if text == "ti"));
            assert_eq!(*slur, Some(SlurRole::End));
        },
        _ => panic!("note expected"),
    }
    match &elements[2] {
        ParsedElement::Note { children, slur, .. } => {
            assert!(children.is_empty());
            assert_eq!(*slur, None);
        },
        _ => panic!("note expected"),
    }
}

#[test]
fn far_mordents_stay_and_single_note_slurs() {
    let mut elements = vec![
        ParsedElement::Symbol { value: "~".to_string(), position: at(0, 9) },
        note(2, 1),
    ];
    let tokens = vec![Token { token_type: "SLUR".to_string(), value: "__".to_string(), line: 0, col: 3 }];
    apply_slurs_and_regions_to_elements(&mut elements, &tokens);
    assert_eq!(elements.len(), 2);
    match &elements[1] {
        ParsedElement::Note { children, slur, .. } => {
            assert!(children.is_empty());
            assert_eq!(*slur, Some(SlurRole::StartEnd));
        },
        _ => panic!("note expected"),
    }
}
