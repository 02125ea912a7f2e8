use music_text::svg_renderer::find_large_gap;

#[test]
fn large_gaps_in_title_lines() {
    assert_eq!(find_large_gap("Title     Author", 3), Some(5));
    assert_eq!(find_large_gap("a b  c   ", 3), Some(6));
    assert_eq!(find_large_gap("a b  c", 3), None);
    assert_eq!(find_large_gap("  x   y", 2), Some(0));
    assert_eq!(find_large_gap("", 1), None);
    assert_eq!(find_large_gap("ab", 0), Some(0));
}

#[test]
fn notation_types_are_validated() {
    use_validate();
}

fn use_validate() {
    assert!(music_text::svg_document::validate_notation_type("number").is_ok());
    assert!(music_text::svg_document::validate_notation_type("sargam").is_ok());
    assert!(music_text::svg_document::validate_notation_type("western").is_ok());
    assert_eq!(
        music_text::svg_document::validate_notation_type("abc"),
        Err("Unsupported notation type: abc".to_string())
    );
    let pitch = music_text::svg_document::Element::Pitch {
        value: "S".to_string(),
        octave: 1,
        accidental: None,
        ornaments: vec![music_text::svg_document::Ornament::OnTopGraceNotes {
            notes: vec![music_text::svg_document::OrnamentNote { value: "R".to_string(), octave: 0, accidental: None }],
        }],
        lyrics: vec!["la".to_string()],
    };
    assert!(matches!(pitch, music_text::svg_document::Element::Pitch { octave: 1, .. }));
}
