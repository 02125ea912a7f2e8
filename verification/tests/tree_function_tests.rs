use music_text::pitch::Degree;
use music_text::rhythm::types::{ParsedElement, Position};
use music_text::parse::{
    BlankLines, Directive, Document, DocumentElement, LowerElement, LowerLine, LyricsLine, Source, SourcePosition, Stave,
    StaveLine, Syllable, TextLine, UpperElement, UpperLine,
};
use music_text::tree_functions::{
    add_beat_group_classes, add_slur_classes, escape_xml, fill_token_gaps, generate_character_styles,
    generate_character_styles_with_beat_groups, generate_syntax_tokens, position_to_absolute_offset,
    process_explicit_beat_groups, process_implicit_beat_groups, process_lower_element, process_parsed_element, process_slurs,
    process_upper_element, source_position_to_absolute_offset, CharacterStyle, SyntaxToken,
};

fn tok(t: &str, start: usize, end: usize) -> SyntaxToken {
    SyntaxToken { token_type: t.to_string(), start, end, content: String::new() }
}

#[test]
fn xml_escapes() {
    assert_eq!(escape_xml("a<b & 'c' > \"d\""), "a&lt;b &amp; &apos;c&apos; &gt; &quot;d&quot;");
    assert_eq!(escape_xml("plain"), "plain");
    assert_eq!(escape_xml("&amp;"), "&amp;amp;");
}

#[test]
fn character_styles_fill_gaps_and_skip_whitespace() {
    let tokens = vec![tok("note", 0, 1), tok("whitespace", 1, 2), tok("barline", 2, 4), tok("newline", 4, 6)];
    let styles = generate_character_styles(&tokens);
    assert_eq!(styles.len(), 6);
    let classes: Vec<Vec<String>> = styles.iter().map(|s| s.classes.clone()).collect();
    assert_eq!(
        classes,
        vec![
            vec!["cm-music-note".to_string()],
            vec![],
            vec!["cm-music-barline".to_string()],
            vec!["cm-music-barline".to_string()],
            vec![],
            vec![],
        ]
    );
    for (i, s) in styles.iter().enumerate() {
        assert_eq!(s.pos, i);
    }
    assert!(generate_character_styles(&[]).is_empty());
}

#[test]
fn first_token_wins_on_overlap() {
    let tokens = vec![tok("pitch", 0, 3), tok("slur", 1, 2)];
    let styles = generate_character_styles(&tokens);
    assert_eq!(styles[1].classes, vec!["cm-music-pitch".to_string()]);
}

fn at(row: usize, col: usize) -> Position {
    Position { row, col, char_index: 0 }
}

fn styles(n: usize) -> Vec<CharacterStyle> {
    (0..n).map(|pos| CharacterStyle { pos, classes: vec![] }).collect()
}

fn classes(s: &CharacterStyle) -> Vec<&str> {
    s.classes.iter().map(|c| c.as_str()).collect()
}

#[test]
fn offsets_of_positions() {
    let input = "ab\ncdé\nx";
    assert_eq!(position_to_absolute_offset(&at(1, 1), input), Some(1));
    assert_eq!(position_to_absolute_offset(&at(0, 1), input), Some(1));
    assert_eq!(position_to_absolute_offset(&at(2, 2), input), Some(5));
    // a column past the end of its line counts as the line's start
    assert_eq!(position_to_absolute_offset(&at(2, 9), input), Some(3));
    assert_eq!(position_to_absolute_offset(&at(3, 0), input), Some(8));
    assert_eq!(position_to_absolute_offset(&at(4, 0), input), None);
    assert_eq!(source_position_to_absolute_offset(0, 0, input), None);
    assert_eq!(source_position_to_absolute_offset(2, 4, input), Some(7));
    assert_eq!(source_position_to_absolute_offset(5, 0, input), None);
}

#[test]
fn parsed_elements_become_tokens() {
    let input = "1 |";
    let mut tokens = Vec::new();
    let mut position = 0usize;
    let note = ParsedElement::new_note(Degree::N1, 0, "1".to_string(), at(1, 0));
    process_parsed_element(&note, &mut tokens, &mut position, input);
    let bar = ParsedElement::Barline { style: "|".to_string(), position: at(1, 2), tala: None };
    process_parsed_element(&bar, &mut tokens, &mut position, input);
    let dash = ParsedElement::Dash { degree: None, octave: None, position: at(1, 1), duration: None };
    process_parsed_element(&dash, &mut tokens, &mut position, input);
    let end = ParsedElement::EndOfInput { position: at(1, 3) };
    process_parsed_element(&end, &mut tokens, &mut position, input);
    let lost = ParsedElement::Rest { value: "r".to_string(), position: at(7, 0), duration: None };
    process_parsed_element(&lost, &mut tokens, &mut position, input);
    let got: Vec<(&str, usize, usize, &str)> =
        tokens.iter().map(|t| (t.token_type.as_str(), t.start, t.end, t.content.as_str())).collect();
    assert_eq!(got, vec![("note", 0, 1, "1"), ("barline", 2, 3, "|"), ("dash", 1, 2, "-")]);
    assert_eq!(position, 2);
}

#[test]
fn token_gaps_are_filled_and_sorted() {
    let tokens = vec![tok("barline", 4, 5), tok("note", 1, 2)];
    let filled = fill_token_gaps(tokens, 6, "a1bc|d");
    let got: Vec<(&str, usize, usize, &str)> =
        filled.iter().map(|t| (t.token_type.as_str(), t.start, t.end, t.content.as_str())).collect();
    assert_eq!(
        got,
        vec![("dummy", 0, 1, "a"), ("note", 1, 2, ""), ("dummy", 2, 4, "bc"), ("barline", 4, 5, ""), ("dummy", 5, 6, "d")]
    );
}

#[test]
fn group_classes_mark_roles() {
    let mut st = styles(4);
    add_beat_group_classes(&mut st, &[0, 1, 3], 3);
    assert_eq!(classes(&st[0]), vec!["in-beat-group", "beat-group-start", "beat-group-3"]);
    assert_eq!(classes(&st[1]), vec!["in-beat-group", "beat-group-middle"]);
    assert!(st[2].classes.is_empty());
    assert_eq!(classes(&st[3]), vec!["in-beat-group", "beat-group-end"]);
    let mut st = styles(2);
    add_slur_classes(&mut st, &[1, 0, 9], 2);
    assert_eq!(classes(&st[1]), vec!["in-slur", "slur-start", "slur-2"]);
    assert_eq!(classes(&st[0]), vec!["in-slur", "slur-middle"]);
}

fn note_with(col: usize, duration: Option<(usize, usize)>, in_group: bool) -> ParsedElement {
    let mut n = ParsedElement::new_note(Degree::N1, 0, "1".to_string(), at(1, col));
    if let ParsedElement::Note { duration: d, in_beat_group, .. } = &mut n {
        *d = duration;
        *in_beat_group = in_group;
    }
    n
}

#[test]
fn implicit_groups_join_equal_short_durations() {
    let input = "1111 11";
    let els = vec![
        note_with(0, Some((1, 8)), false),
        note_with(1, Some((1, 8)), false),
        note_with(2, Some((1, 8)), false),
        note_with(3, Some((1, 2)), false),
        note_with(5, Some((1, 2)), false),
        note_with(6, Some((1, 4)), true),
    ];
    let mut st = styles(7);
    process_implicit_beat_groups(&mut st, &els, &doc_with(input, vec![]));
    assert_eq!(classes(&st[0]), vec!["in-beat-group", "beat-group-start", "beat-group-3"]);
    assert_eq!(classes(&st[2]), vec!["in-beat-group", "beat-group-end"]);
    assert!(st[3].classes.is_empty());
    assert!(st[5].classes.is_empty());
    assert!(st[6].classes.is_empty());
}

#[test]
fn spans_mark_explicit_groups_and_slurs() {
    let input = "12 3";
    let els = vec![note_with(0, None, true), note_with(1, None, true),
        ParsedElement::Whitespace { value: " ".to_string(), position: at(1, 2) }, note_with(3, None, false)];
    let lower = StaveLine::Lower(LowerLine {
        elements: vec![
            LowerElement::BeatGroupIndicator { value: "__".to_string(), source: src(None, 2, 0) },
            LowerElement::Space { count: 1, source: src(None, 2, 2) },
            LowerElement::BeatGroupIndicator { value: "_".to_string(), source: src(None, 2, 3) },
        ],
        source: src(None, 2, 0),
    });
    let upper = StaveLine::Upper(UpperLine {
        elements: vec![
            UpperElement::Space { count: 1, source: src(None, 1, 0) },
            UpperElement::SlurIndicator { value: "___".to_string(), source: src(None, 1, 1) },
        ],
        source: src(None, 1, 0),
    });
    let doc = doc_with(input, vec![upper, lower]);
    let mut st = styles(4);
    process_explicit_beat_groups(&mut st, &els, &doc);
    assert_eq!(classes(&st[0]), vec!["in-beat-group", "beat-group-start", "beat-group-2"]);
    assert_eq!(classes(&st[1]), vec!["in-beat-group", "beat-group-end"]);
    assert!(st[3].classes.is_empty());
    let mut st = styles(4);
    process_slurs(&mut st, &els, &doc);
    assert_eq!(classes(&st[1]), vec!["in-slur", "slur-start", "slur-3"]);
    assert_eq!(classes(&st[2]), vec!["in-slur", "slur-middle"]);
    assert_eq!(classes(&st[3]), vec!["in-slur", "slur-end"]);
}

fn src(value: Option<&str>, line: usize, column: usize) -> Source {
    Source { value: value.map(|v| v.to_string()), position: SourcePosition { line, column } }
}

fn doc_with(input: &str, lines: Vec<StaveLine>) -> Document {
    Document {
        directives: vec![],
        elements: vec![DocumentElement::Stave(Stave { lines })],
        source: src(Some(input), 1, 0),
    }
}

fn views(tokens: &[SyntaxToken]) -> Vec<(String, usize, usize, String)> {
    tokens.iter().map(|t| (t.token_type.clone(), t.start, t.end, t.content.clone())).collect()
}

fn v(kind: &str, start: usize, end: usize, content: &str) -> (String, usize, usize, String) {
    (kind.to_string(), start, end, content.to_string())
}

#[test]
fn syntax_tokens_walk_directives_and_staves() {
    let input = "title: Song\n  __\n1 2\n__\nla da\n";
    let document = Document {
        directives: vec![Directive { key: "title".to_string(), value: "Song".to_string() }],
        elements: vec![DocumentElement::Stave(Stave {
            lines: vec![
                StaveLine::Upper(UpperLine {
                    elements: vec![
                        UpperElement::Space { count: 2, source: src(None, 2, 0) },
                        UpperElement::SlurIndicator { value: "__".to_string(), source: src(None, 2, 2) },
                    ],
                    source: src(Some("  __"), 2, 0),
                }),
                StaveLine::Content(vec![
                    ParsedElement::new_note(Degree::N1, 0, "1".to_string(), at(3, 0)),
                    ParsedElement::Whitespace { value: " ".to_string(), position: at(3, 1) },
                    ParsedElement::new_note(Degree::N2, 0, "2".to_string(), at(3, 2)),
                ]),
                StaveLine::Lower(LowerLine {
                    elements: vec![LowerElement::BeatGroupIndicator { value: "__".to_string(), source: src(None, 4, 0) }],
                    source: src(None, 4, 0),
                }),
                StaveLine::Lyrics(LyricsLine {
                    syllables: vec![Syllable { content: "la".to_string() }, Syllable { content: "da".to_string() }],
                }),
            ],
        })],
        source: src(Some(input), 1, 0),
    };
    let tokens = generate_syntax_tokens(&document, input);
    assert_eq!(
        views(&tokens),
        vec![
            v("directive_key", 0, 5, "title"),
            v("directive_sep", 5, 6, ":"),
            v("directive_value", 7, 11, "Song"),
            v("slur", 14, 16, "__"),
            v("note", 17, 18, "1"),
            v("note", 19, 20, "2"),
            v("beat_group", 20, 22, "__"),
            v("syllable", 22, 24, "la"),
            v("syllable", 25, 27, "da"),
        ]
    );
}

#[test]
fn syntax_tokens_skip_blank_and_text_lines() {
    let input = "\n\nhello\n1";
    let document = Document {
        directives: vec![],
        elements: vec![
            DocumentElement::BlankLines(BlankLines { content: "\n\n".to_string() }),
            DocumentElement::Stave(Stave {
                lines: vec![
                    StaveLine::Text(TextLine { content: "hello".to_string() }),
                    StaveLine::Lower(LowerLine {
                        elements: vec![LowerElement::LowerOctaveMarker { marker: ".".to_string(), source: src(None, 4, 0) }],
                        source: src(None, 4, 0),
                    }),
                ],
            }),
        ],
        source: src(Some(input), 1, 0),
    };
    let tokens = generate_syntax_tokens(&document, input);
    assert_eq!(views(&tokens), vec![v("lower-octave-marker", 8, 9, ".")]);
}

#[test]
fn upper_elements_give_tokens_at_their_columns() {
    let mut tokens = Vec::new();
    let mut position = 0usize;
    process_upper_element(&UpperElement::UpperOctaveMarker { marker: ":".to_string(), source: src(None, 1, 3) }, &mut tokens, &mut position, "");
    process_upper_element(&UpperElement::Ornament { pitches: vec!["S".to_string(), "R".to_string()], source: src(None, 1, 5) }, &mut tokens, &mut position, "");
    process_upper_element(&UpperElement::Chord { chord: "Cm".to_string(), source: src(None, 1, 8) }, &mut tokens, &mut position, "");
    process_upper_element(&UpperElement::Mordent { source: src(None, 1, 12) }, &mut tokens, &mut position, "");
    process_upper_element(&UpperElement::Space { count: 3, source: src(None, 1, 13) }, &mut tokens, &mut position, "");
    assert_eq!(
        views(&tokens),
        vec![
            v("upper-octave-marker-2", 3, 4, ":"),
            v("ornament", 5, 7, "SR"),
            v("chord", 8, 12, "[Cm]"),
            v("mordent", 12, 13, "~"),
            v("whitespace", 13, 16, "   "),
        ]
    );
    assert_eq!(position, 1 + 2 + 4 + 1 + 3);
}

#[test]
fn lower_elements_give_tokens() {
    let input = "1\n  __";
    let mut tokens = Vec::new();
    let mut position = 0usize;
    process_lower_element(&LowerElement::BeatGroupIndicator { value: "__".to_string(), source: src(None, 2, 2) }, &mut tokens, &mut position, input);
    process_lower_element(&LowerElement::LowerOctaveMarker { marker: ".".to_string(), source: src(None, 2, 0) }, &mut tokens, &mut position, input);
    process_lower_element(&LowerElement::Syllable { content: "ta".to_string(), source: src(None, 3, 1) }, &mut tokens, &mut position, input);
    process_lower_element(&LowerElement::EndOfInput { source: src(None, 3, 3) }, &mut tokens, &mut position, input);
    assert_eq!(
        views(&tokens),
        vec![v("beat_group", 4, 6, "__"), v("lower-octave-marker", 0, 1, "."), v("syllable", 1, 3, "ta")]
    );
    assert_eq!(position, 5);
}

#[test]
fn styles_with_beat_groups_mark_content_lines() {
    let input = "12 3";
    let els = vec![note_with(0, None, true), note_with(1, None, true),
        ParsedElement::Whitespace { value: " ".to_string(), position: at(1, 2) }, note_with(3, None, false)];
    let lower = StaveLine::Lower(LowerLine {
        elements: vec![LowerElement::BeatGroupIndicator { value: "__".to_string(), source: src(None, 2, 0) }],
        source: src(None, 2, 0),
    });
    let doc = doc_with(input, vec![StaveLine::Content(els), lower]);
    let tokens = vec![tok("note", 0, 1), tok("note", 1, 2), tok("whitespace", 2, 3), tok("note", 3, 4)];
    let st = generate_character_styles_with_beat_groups(&tokens, &doc);
    assert_eq!(st.len(), 4);
    assert_eq!(classes(&st[0]), vec!["cm-music-note", "in-beat-group", "beat-group-start", "beat-group-2"]);
    assert_eq!(classes(&st[1]), vec!["cm-music-note", "in-beat-group", "beat-group-end"]);
    assert!(st[2].classes.is_empty());
    assert_eq!(classes(&st[3]), vec!["cm-music-note"]);
    let base = generate_character_styles(&tokens);
    assert_eq!(base.len(), st.len());
    for (b, m) in base.iter().zip(st.iter()) {
        assert_eq!(b.pos, m.pos);
        assert!(m.classes.starts_with(&b.classes));
    }
}
