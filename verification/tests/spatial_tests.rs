use music_text::models::{LowerElement, LowerLine, UpperElement, UpperLine};
use music_text::spatial::{consume_beat_groups, consume_octave_markers, octave_marker_to_number, validate_consumption, PositionTracker};

fn create_test_upper_line_with_markers() -> UpperLine {
    UpperLine {
        elements: vec![
            UpperElement::UpperOctaveMarker {
                marker: ".".to_string(),
                value: Some(".".to_string()),
                char_index: 0,
            },
            UpperElement::Space {
                count: 2,
                value: Some("  ".to_string()),
                char_index: 1,
            },
            UpperElement::UpperOctaveMarker {
                marker: ":".to_string(),
                value: Some(":".to_string()),
                char_index: 3,
            },
        ],
        value: Some(".  :".to_string()),
        char_index: 0,
    }
}

fn create_test_lower_line_empty() -> LowerLine {
    LowerLine {
        elements: vec![],
        value: Some("".to_string()),
        char_index: 0,
    }
}

fn create_test_lower_line_with_markers() -> LowerLine {
    LowerLine {
        elements: vec![LowerElement::LowerOctaveMarker {
            marker: ".".to_string(),
            value: Some(".".to_string()),
            char_index: 0,
        }],
        value: Some(".".to_string()),
        char_index: 0,
    }
}

#[test]
fn test_octave_marker_to_number() {
    assert_eq!(octave_marker_to_number(".", true), 1);
    assert_eq!(octave_marker_to_number(":", true), 2);
    assert_eq!(octave_marker_to_number(".", false), -1);
    assert_eq!(octave_marker_to_number(":", false), -2);

    assert_eq!(octave_marker_to_number("*", true), 0);
    assert_eq!(octave_marker_to_number("'", true), 0);
    assert_eq!(octave_marker_to_number("x", true), 0);
}

#[test]
fn test_position_tracker() {
    let mut tracker = PositionTracker::new();

    let space_element = UpperElement::Space {
        count: 3,
        value: Some("   ".to_string()),
        char_index: 0,
    };

    let start_pos = tracker.advance_for_upper_element(&space_element);
    assert_eq!(start_pos, 0);
    assert_eq!(tracker.current_pos, 3);
}

#[test]
fn test_consume_octave_markers() {
    let upper_line = create_test_upper_line_with_markers();
    let lower_line = create_test_lower_line_empty();

    let (consumed_markers, updated_upper, _updated_lower) = consume_octave_markers(upper_line, lower_line);

    assert_eq!(consumed_markers.len(), 2);

    assert_eq!(consumed_markers[0].0, 0);
    assert_eq!(consumed_markers[0].1.octave_value, 1);

    assert_eq!(consumed_markers[1].0, 3);
    assert_eq!(consumed_markers[1].1.octave_value, 2);

    for element in &updated_upper.elements {
        if let UpperElement::UpperOctaveMarker { value, .. } = element {
            assert!(value.is_none(), "Marker value should be consumed");
        }
    }
}

#[test]
fn test_validation_consumption_success() {
    let upper_line = UpperLine {
        elements: vec![UpperElement::UpperOctaveMarker {
            marker: ".".to_string(),
            value: None,
            char_index: 0,
        }],
        value: Some(".".to_string()),
        char_index: 0,
    };

    let lower_line = create_test_lower_line_empty();

    assert!(validate_consumption(&upper_line, &lower_line).is_ok());
}

#[test]
fn test_validation_consumption_failure() {
    let upper_line = UpperLine {
        elements: vec![UpperElement::UpperOctaveMarker {
            marker: ".".to_string(),
            value: Some(".".to_string()),
            char_index: 0,
        }],
        value: Some(".".to_string()),
        char_index: 0,
    };

    let lower_line = create_test_lower_line_empty();

    assert!(validate_consumption(&upper_line, &lower_line).is_err());
}

#[test]
fn test_consume_lower_line_octave_markers() {
    let upper_line = UpperLine {
        elements: vec![],
        value: Some("".to_string()),
        char_index: 0,
    };
    let lower_line = create_test_lower_line_with_markers();

    let (consumed_markers, _updated_upper, updated_lower) = consume_octave_markers(upper_line, lower_line);

    assert_eq!(consumed_markers.len(), 1);

    assert_eq!(consumed_markers[0].0, 0);
    assert_eq!(consumed_markers[0].1.octave_value, -1);

    for element in &updated_lower.elements {
        if let LowerElement::LowerOctaveMarker { value, .. } = element {
            assert!(value.is_none(), "Lower marker value should be consumed");
        }
    }
}

#[test]
fn validation_names_the_first_unconsumed_marker() {
    let upper_line = UpperLine {
        elements: vec![
            UpperElement::Space { count: 2, value: None, char_index: 0 },
            UpperElement::UpperOctaveMarker { marker: ":".to_string(), value: Some(":".to_string()), char_index: 2 },
        ],
        value: None,
        char_index: 0,
    };
    let err = validate_consumption(&upper_line, &create_test_lower_line_empty()).unwrap_err();
    assert_eq!(err, "Unconsumed octave marker at position 2");
}

#[test]
fn consume_beat_groups_takes_underscores_with_columns() {
    let line = LowerLine {
        elements: vec![
            LowerElement::Space { count: 2, value: Some("  ".to_string()), char_index: 0 },
            LowerElement::BeatGroupIndicator {
                value: Some("___".to_string()),
                indicator_value: "___".to_string(),
                char_index: 2,
            },
            LowerElement::Space { count: 1, value: Some(" ".to_string()), char_index: 5 },
            LowerElement::BeatGroupIndicator {
                value: Some("__".to_string()),
                indicator_value: "__".to_string(),
                char_index: 6,
            },
        ],
        value: Some("  ___ __".to_string()),
        char_index: 0,
    };
    let (groups, lines) = consume_beat_groups(vec![line]);
    assert_eq!(groups.len(), 2);
    assert_eq!(groups[0].0, 2);
    assert_eq!(groups[0].1.start_pos, 2);
    assert_eq!(groups[0].1.end_pos, 4);
    assert_eq!(groups[0].1.underscore_count, 3);
    assert_eq!(groups[0].1.char_index, 2);
    assert_eq!(groups[1].0, 6);
    assert_eq!(groups[1].1.end_pos, 7);
    assert_eq!(groups[1].1.underscore_count, 2);
    assert_eq!(lines.len(), 1);
    for element in &lines[0].elements {
        if let LowerElement::BeatGroupIndicator { value, .. } = element {
            assert!(value.is_none());
        }
    }
    let (again, _) = consume_beat_groups(lines);
    assert!(again.is_empty());
}

fn slur_note(col: usize) -> music_text::rhythm::types::ParsedElement {
    music_text::rhythm::types::ParsedElement::new_note(
        music_text::pitch::Degree::N1,
        0,
        "1".to_string(),
        music_text::rhythm::types::Position { row: 1, col, char_index: col },
    )
}

fn slur_of(e: &music_text::rhythm::types::ParsedElement) -> music_text::rhythm::types::SlurPosition {
    match e {
        music_text::rhythm::types::ParsedElement::Note { slur_position, .. } => *slur_position,
        _ => panic!("not a note"),
    }
}

#[test]
fn test_consume_and_assign_slurs_marks_notes() {
    let upper = UpperLine {
        elements: vec![UpperElement::SlurIndicator {
            value: Some("___".to_string()),
            indicator_value: "___".to_string(),
            char_index: 0,
        }],
        value: Some("___".to_string()),
        char_index: 0,
    };
    let content = vec![slur_note(0), slur_note(1), slur_note(2), slur_note(4)];
    let (line, notes) = music_text::spatial::consume_and_assign_slurs(upper, content);
    match &line.elements[0] {
        UpperElement::SlurIndicator { value, .. } => assert!(value.is_none()),
        _ => panic!("slur expected"),
    }
    assert_eq!(slur_of(&notes[0]), music_text::rhythm::types::SlurPosition::Start);
    assert_eq!(slur_of(&notes[1]), music_text::rhythm::types::SlurPosition::Middle);
    assert_eq!(slur_of(&notes[2]), music_text::rhythm::types::SlurPosition::End);
    assert_eq!(slur_of(&notes[3]), music_text::rhythm::types::SlurPosition::Unslurred);
}

#[test]
fn test_single_underscore_is_not_a_slur() {
    let upper = UpperLine {
        elements: vec![UpperElement::SlurIndicator {
            value: Some("_".to_string()),
            indicator_value: "_".to_string(),
            char_index: 0,
        }],
        value: Some("_".to_string()),
        char_index: 0,
    };
    let (_, notes) = music_text::spatial::consume_and_assign_slurs(upper, vec![slur_note(0)]);
    assert_eq!(slur_of(&notes[0]), music_text::rhythm::types::SlurPosition::Unslurred);
}

#[test]
fn test_spatial_parser_octave_marker_to_number() {
    assert_eq!(music_text::spatial_parser::octave_marker_to_number(".", true), 1);
    assert_eq!(music_text::spatial_parser::octave_marker_to_number(":", true), 2);
    assert_eq!(music_text::spatial_parser::octave_marker_to_number("*", true), 3);
    assert_eq!(music_text::spatial_parser::octave_marker_to_number("'", true), 4);
    assert_eq!(music_text::spatial_parser::octave_marker_to_number("*", false), -3);
    assert_eq!(music_text::spatial_parser::octave_marker_to_number("'", false), -4);
    assert_eq!(music_text::spatial_parser::octave_marker_to_number("x", false), 0);
}
