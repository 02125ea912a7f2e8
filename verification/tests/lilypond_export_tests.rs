use music_text::lilypond_renderer::{
    convert_document_to_lilypond_src, AnalyzedDocument, AnalyzedElement, AnalyzedStave, AnalyzedStaveLine,
};
use music_text::lilypond_templates::LilyPondTemplate;
use music_text::pitch::Degree;
use music_text::rhythm_analyzer::{
    Barline, BarlineToken, Beat, BeatElement, ContentElement, ContentLine, Dash, NotationSystem, Note,
};

fn note(d: Degree, octave: i8, n: u32, den: u32) -> BeatElement {
    let mut note = Note::new(Some("x".to_string()), 0, d, NotationSystem::Number);
    note.octave = octave;
    note.numerator = Some(n);
    note.denominator = Some(den);
    BeatElement::Note(note)
}

fn dash() -> BeatElement {
    BeatElement::Dash(Dash { value: Some("-".to_string()), char_index: 0, numerator: None, denominator: None })
}

fn beat(elements: Vec<BeatElement>, divisions: usize, tied: bool) -> ContentElement {
    ContentElement::Beat(Beat {
        elements,
        value: None,
        char_index: 0,
        divisions: Some(divisions),
        total_duration: None,
        is_tuplet: Some(false),
        tuplet_ratio: None,
        tied_to_previous: Some(tied),
    })
}

fn document(title: Option<&str>, elements: Vec<ContentElement>) -> AnalyzedDocument {
    AnalyzedDocument {
        title: title.map(|t| t.to_string()),
        author: None,
        directives: vec![],
        elements: vec![AnalyzedElement::Stave(AnalyzedStave {
            lines: vec![
                AnalyzedStaveLine::Annotation(".".to_string()),
                AnalyzedStaveLine::ContentLine(ContentLine { elements, value: None }),
            ],
        })],
    }
}

#[test]
fn tied_beat_continues_the_previous_pitch() {
    let doc = document(None, vec![
        beat(vec![note(Degree::N1, 1, 1, 4)], 1, false),
        ContentElement::Barline(Barline::Single(BarlineToken { value: Some("|".to_string()), char_index: 2 })),
        beat(vec![dash(), note(Degree::N2, 0, 1, 8)], 2, true),
    ]);
    let (template, context) = convert_document_to_lilypond_src(&doc, None).unwrap();
    assert_eq!(template, LilyPondTemplate::Minimal);
    assert_eq!(context.staves, "c'4~ |  c'8 d8");
    assert!(context.title.is_none());
    assert!(context.lyrics.is_none());
    assert!(context.source_comment.is_none());
}

#[test]
fn leading_dashes_without_a_note_become_a_rest() {
    let doc = document(Some("Song"), vec![
        beat(vec![dash(), dash(), dash(), note(Degree::N5b, -1, 1, 16)], 4, true),
    ]);
    let (template, context) = convert_document_to_lilypond_src(&doc, Some("1---")).unwrap();
    assert_eq!(template, LilyPondTemplate::Standard);
    assert_eq!(context.staves, "r8. gf,16");
    assert_eq!(context.title.as_deref(), Some("Song"));
    assert!(context.source_comment.is_some());
    assert!(context.lyrics.is_none());
}

#[test]
fn tuplet_beat_is_wrapped() {
    let doc = document(None, vec![ContentElement::Beat(Beat {
        elements: vec![note(Degree::N1, 0, 1, 8), note(Degree::N2, 0, 1, 8), note(Degree::N3, 0, 1, 8)],
        value: None,
        char_index: 0,
        divisions: Some(3),
        total_duration: None,
        is_tuplet: Some(true),
        tuplet_ratio: Some((3, 2)),
        tied_to_previous: Some(false),
    })]);
    let (_, context) = convert_document_to_lilypond_src(&doc, None).unwrap();
    assert_eq!(context.staves, "\\tuplet 3/2 { c8 d8 e8 }");
}

#[test]
fn document_is_written_as_lilypond_text() {
    let mut doc = document(None, vec![
        beat(vec![note(Degree::N1, 1, 1, 4)], 1, false),
        ContentElement::Barline(Barline::Single(BarlineToken { value: Some("|".to_string()), char_index: 2 })),
        beat(vec![dash(), note(Degree::N3b, 0, 1, 12)], 3, false),
    ]);
    doc.directives = vec![("author".to_string(), "Anon".to_string()), ("title".to_string(), "Raga".to_string())];
    let text = music_text::lilypond_document::render_lilypond_from_document(&doc);
    assert_eq!(
        text,
        "\\version \"2.24.0\"\n\\language \"english\"\n\n\\header {\n  title = \"Raga\"\n  composer = \"Anon\"\n}\n\n\\score {\n  \\new Staff {\n    \\fixed c' {\n      \\key c \\major\n      \\time 4/4\n      c'4 | r4 ef8 \n    }\n  }\n}"
    );
}

#[test]
fn document_without_title_has_no_header() {
    let doc = document(None, vec![beat(vec![note(Degree::N5, -1, 3, 8)], 1, false)]);
    let text = music_text::lilypond_document::render_lilypond_from_document(&doc);
    assert!(!text.contains("\\header"));
    assert!(text.contains("      g,4. \n"));
}
