use music_text::pitch::Degree;
use music_text::rhythm_analyzer::{
    analyze_beat_rhythm_fsm, analyze_content_line_rhythm, Beat, BeatElement, BreathMark, ContentElement, Dash, NotationSystem,
    Note, Rest, Whitespace,
};

fn beat_of(elements: Vec<BeatElement>, value: &str) -> Beat {
    Beat {
        elements,
        value: Some(value.to_string()),
        char_index: 0,
        divisions: None,
        total_duration: None,
        is_tuplet: None,
        tuplet_ratio: None,
        tied_to_previous: None,
    }
}

fn note(value: &str, char_index: usize, pitch: Degree) -> BeatElement {
    BeatElement::Note(Note::new(Some(value.to_string()), char_index, pitch, NotationSystem::Number))
}

fn dash(char_index: usize) -> BeatElement {
    BeatElement::Dash(Dash { value: Some("-".to_string()), char_index, numerator: None, denominator: None })
}

fn duration(e: &BeatElement) -> (Option<u32>, Option<u32>) {
    match e {
        BeatElement::Note(n) => (n.numerator, n.denominator),
        _ => (None, None),
    }
}

#[test]
fn test_fsm_dash_extension() {
    // Create a beat with pattern: Note, Dash, Dash, Note (1--2)
    let mut beat = beat_of(vec![note("1", 0, Degree::N1), dash(1), dash(2), note("2", 3, Degree::N2)], "1--2");

    analyze_beat_rhythm_fsm(&mut beat).unwrap();

    // Check that first note gets 3/4 of beat (3 subdivisions out of 4)
    if let BeatElement::Note(note1) = &beat.elements[0] {
        assert_eq!(note1.numerator, Some(3));
        assert_eq!(note1.denominator, Some(16)); // 3/4 of 1/4 = 3/16
    }

    // Check that second note gets 1/4 of beat (1 subdivision out of 4)
    if let BeatElement::Note(note2) = &beat.elements[3] {
        assert_eq!(note2.numerator, Some(1));
        assert_eq!(note2.denominator, Some(16)); // 1/4 of 1/4 = 1/16
    }

    assert_eq!(beat.divisions, Some(4)); // Total subdivisions
}

#[test]
fn triplet_beat_gets_tuplet_ratio() {
    let mut beat = beat_of(vec![note("1", 0, Degree::N1), note("2", 1, Degree::N2), note("3", 2, Degree::N3)], "123");
    assert!(analyze_beat_rhythm_fsm(&mut beat).is_ok());
    assert_eq!(beat.divisions, Some(3));
    assert_eq!(beat.is_tuplet, Some(true));
    assert_eq!(beat.tuplet_ratio, Some((3, 2)));
    assert_eq!(beat.total_duration, Some((1, 4)));
    for e in &beat.elements {
        assert_eq!(duration(e), (Some(1), Some(12)));
    }
    assert_eq!(beat.tied_to_previous, None);
}

#[test]
fn leading_dash_after_breath_ties_to_previous_beat() {
    let mut beat = beat_of(
        vec![
            BeatElement::BreathMark(BreathMark { value: Some("'".to_string()), char_index: 0 }),
            dash(1),
            note("1", 2, Degree::N1),
        ],
        "'-1",
    );
    analyze_beat_rhythm_fsm(&mut beat).unwrap();
    assert_eq!(beat.tied_to_previous, Some(true));
    assert_eq!(beat.divisions, Some(2));
    assert_eq!(beat.is_tuplet, Some(false));
    assert_eq!(beat.tuplet_ratio, None);
    assert_eq!(duration(&beat.elements[2]), (Some(1), Some(8)));
}

#[test]
fn dashes_after_a_rest_still_lengthen_the_note_before() {
    let mut beat = beat_of(
        vec![note("1", 0, Degree::N1), BeatElement::Rest(Rest { value: Some("r".to_string()), char_index: 1, numerator: None, denominator: None }), dash(2)],
        "1r-",
    );
    analyze_beat_rhythm_fsm(&mut beat).unwrap();
    assert_eq!(beat.divisions, Some(3));
    assert_eq!(duration(&beat.elements[0]), (Some(1), Some(6)));
    assert_eq!(beat.tuplet_ratio, Some((3, 2)));
}

#[test]
fn empty_beat_is_left_alone() {
    let mut beat = beat_of(vec![], "");
    analyze_beat_rhythm_fsm(&mut beat).unwrap();
    assert_eq!(beat.divisions, None);
    assert_eq!(beat.total_duration, None);
    assert_eq!(beat.is_tuplet, None);
}

#[test]
fn content_line_analysis_touches_only_beats() {
    let mut elements = vec![
        ContentElement::Beat(beat_of(vec![note("1", 0, Degree::N1), note("2", 1, Degree::N2)], "12")),
        ContentElement::Whitespace(Whitespace { value: Some(" ".to_string()), char_index: 2 }),
        ContentElement::Beat(beat_of(vec![note("3", 3, Degree::N3), dash(4), dash(5)], "3--")),
    ];
    assert!(analyze_content_line_rhythm(&mut elements).is_ok());
    assert_eq!(elements.len(), 3);
    match &elements[0] {
        ContentElement::Beat(b) => {
            assert_eq!(b.divisions, Some(2));
            assert_eq!(duration(&b.elements[1]), (Some(1), Some(8)));
        },
        _ => panic!("expected a beat"),
    }
    assert!(matches!(&elements[1], ContentElement::Whitespace(w) if w.char_index == 2));
    match &elements[2] {
        ContentElement::Beat(b) => {
            assert_eq!(b.divisions, Some(3));
            assert_eq!(b.tuplet_ratio, Some((3, 2)));
            assert_eq!(duration(&b.elements[0]), (Some(1), Some(4)));
        },
        _ => panic!("expected a beat"),
    }
}
