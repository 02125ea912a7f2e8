use music_text::pitch::Degree;
use music_text::rhythm::types::{ParsedElement, Position};
use music_text::rhythm_fsm_v2_clean::{gcd_exec, process_rhythm_v2_clean, reduce_fraction};

fn pos(col: usize) -> Position {
    Position { row: 0, col, char_index: col }
}

fn note(d: Degree, col: usize) -> ParsedElement {
    ParsedElement::new_note(d, 0, "1".to_string(), pos(col))
}

fn dash(col: usize) -> ParsedElement {
    ParsedElement::Dash { degree: None, octave: None, position: pos(col), duration: None }
}

fn durations(v: &[ParsedElement]) -> Vec<Option<(usize, usize)>> {
    v.iter()
        .map(|e| match e {
            ParsedElement::Note { duration, .. } => *duration,
            ParsedElement::Rest { duration, .. } => *duration,
            ParsedElement::Dash { duration, .. } => *duration,
            _ => None,
        })
        .collect()
}

#[test]
fn gcd_and_reduction() {
    assert_eq!(gcd_exec(12, 18), 6);
    assert_eq!(gcd_exec(7, 0), 7);
    assert_eq!(reduce_fraction(2, 4), (1, 2));
    assert_eq!(reduce_fraction(0, 5), (0, 1));
    assert_eq!(reduce_fraction(3, 7), (3, 7));
}

#[test]
fn dashes_lengthen_and_bar_lines_close_beats() {
    let input = vec![
        note(Degree::N1, 0),
        dash(1),
        note(Degree::N2, 2),
        ParsedElement::Barline { style: "|".to_string(), position: pos(3), tala: None },
        note(Degree::N3, 4),
    ];
    let out = process_rhythm_v2_clean(input);
    assert_eq!(out.len(), 4);
    assert_eq!(durations(&out), vec![Some((2, 3)), Some((1, 3)), None, Some((1, 1))]);
    assert!(matches!(out[2], ParsedElement::Barline { .. }));
}

#[test]
fn whitespace_passes_through_inside_a_beat() {
    let input = vec![
        note(Degree::N1, 0),
        ParsedElement::Whitespace { value: " ".to_string(), position: pos(1) },
        note(Degree::N2, 2),
        dash(3),
        dash(4),
        ParsedElement::Newline { value: "\n".to_string(), position: pos(5) },
    ];
    let out = process_rhythm_v2_clean(input);
    assert_eq!(out.len(), 4);
    assert!(matches!(out[0], ParsedElement::Whitespace { .. }));
    assert_eq!(durations(&out), vec![None, Some((1, 4)), Some((3, 4)), None]);
}

#[test]
fn leading_dashes_are_dropped_and_rests_take_shares() {
    let input = vec![
        dash(0),
        ParsedElement::Rest { value: "r".to_string(), position: pos(1), duration: None },
        note(Degree::N5, 2),
        note(Degree::N6, 3),
        note(Degree::N7, 4),
    ];
    let out = process_rhythm_v2_clean(input);
    assert_eq!(durations(&out), vec![Some((1, 4)), Some((1, 4)), Some((1, 4)), Some((1, 4))]);
    assert!(matches!(out[0], ParsedElement::Rest { .. }));
}
