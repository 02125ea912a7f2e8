use music_text::codemirror::{byte_pos_to_char_pos, render_codemirror_styles, to_kebab_case, Span};

fn span(kind: &str, start: usize, content: &str, attrs: &[(&str, &str)]) -> Span {
    Span {
        span_type: kind.to_string(),
        start,
        end: start + content.len(),
        content: content.to_string(),
        data_attributes: attrs.iter().map(|(a, b)| (a.to_string(), b.to_string())).collect(),
    }
}

#[test]
fn kebab_case_names() {
    assert_eq!(to_kebab_case("SingleBarline"), "single-barline");
    assert_eq!(to_kebab_case("Note"), "note");
    assert_eq!(to_kebab_case("UpperOctaveMarker"), "upper-octave-marker");
    assert_eq!(to_kebab_case(""), "");
}

#[test]
fn byte_positions_become_char_positions() {
    let text = "aé b";
    assert_eq!(byte_pos_to_char_pos(text, 0), 0);
    assert_eq!(byte_pos_to_char_pos(text, 1), 1);
    assert_eq!(byte_pos_to_char_pos(text, 2), 2);
    assert_eq!(byte_pos_to_char_pos(text, 3), 2);
    assert_eq!(byte_pos_to_char_pos(text, 4), 3);
    assert_eq!(byte_pos_to_char_pos(text, 100), 4);
}

#[test]
fn styles_carry_classes_and_properties() {
    let input = "é1 2";
    let spans = vec![
        span("note", 2, "1", &[("beat-loop-length", "3"), ("octave", "1")]),
        span("dash", 0, "é", &[("consumed", "true")]),
        span("note", 5, "2", &[("octave-negative", "2")]),
    ];
    let styles = render_codemirror_styles(&spans, input);
    assert_eq!(styles.len(), 3);
    assert_eq!(styles[0].pos, 1);
    assert_eq!(styles[0].length, 1);
    assert_eq!(styles[0].classes, vec!["cm-note", "beat-start", "octave-1"]);
    assert_eq!(
        styles[0].styles,
        vec![
            ("--beat-loop-length".to_string(), "3".to_string()),
            ("--octave".to_string(), "1".to_string())
        ]
    );
    assert_eq!(styles[1].pos, 0);
    assert_eq!(styles[1].classes, vec!["cm-dash", "consumed"]);
    assert!(styles[1].styles.is_empty());
    assert_eq!(styles[2].pos, 4);
    assert_eq!(styles[2].classes, vec!["cm-note", "octave-neg-2"]);
    assert_eq!(styles[2].title, None);
}

#[test]
fn consumed_needs_true() {
    let spans = vec![span("dash", 0, "-", &[("consumed", "false")])];
    let styles = render_codemirror_styles(&spans, "-");
    assert_eq!(styles[0].classes, vec!["cm-dash"]);
}
