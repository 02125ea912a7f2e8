use music_text::pitch::Degree;
use music_text::rhythm::converters::BarlineType;
use music_text::rhythm::types::{OrnamentType, ParsedChild, ParsedElement, Position};
use music_text::rhythm_fsm::{convert_parsed_to_fsm_output, Item};
use music_text::vexflow_js_generator::{BarlinePosition, VexFlowBarline, VexFlowNote};
use music_text::vexflow_measure::{
    convert_beat_element_to_vexflow_note, create_barlines_from_elements, create_slurs_from_markers,
    create_tuplets_from_beats, extract_accidentals_from_keys, extract_notes_and_slur_markers,
    generate_notes_and_barlines_js, generate_tala_rendering_js, generate_vexflow_js, SlurMarker, SlurMarkerType,
};

fn pos(col: usize) -> Position {
    Position { row: 0, col, char_index: col }
}

fn note(d: Degree, col: usize) -> ParsedElement {
    ParsedElement::new_note(d, 0, "1".to_string(), pos(col))
}

fn dash(col: usize) -> ParsedElement {
    ParsedElement::Dash { degree: None, octave: None, position: pos(col), duration: None }
}

fn space(col: usize) -> ParsedElement {
    ParsedElement::Whitespace { value: " ".to_string(), position: pos(col) }
}

fn bar(col: usize) -> ParsedElement {
    ParsedElement::Barline { style: "|".to_string(), position: pos(col), tala: None }
}

fn strings(v: &[&str]) -> Vec<String> {
    v.iter().map(|s| s.to_string()).collect()
}

#[test]
fn keys_split_into_base_and_accidental() {
    let keys = strings(&["c##/4", "c#/4", "dbb/4", "db/4", "bb/4", "b/4", "c/4"]);
    let (base, accs) = extract_accidentals_from_keys(&keys);
    assert_eq!(base, strings(&["c/4", "c/4", "d/4", "d/4", "bb/4", "b/4", "c/4"]));
    assert_eq!(
        accs,
        vec![(0, "##".to_string()), (1, "#".to_string()), (2, "bb".to_string()), (3, "b".to_string())]
    );
}

#[test]
fn beat_element_becomes_note() {
    let mut n = note(Degree::N2s, 0);
    if let ParsedElement::Note { children, .. } = &mut n {
        children.push(ParsedChild::Ornament { kind: OrnamentType::Mordent, distance: -1 });
        children.push(ParsedChild::Syllable { text: "la".to_string(), distance: 1 });
        children.push(ParsedChild::Syllable { text: "di".to_string(), distance: 2 });
    }
    let out = convert_parsed_to_fsm_output(&[n]);
    let Item::Beat(b) = &out[0] else { panic!("expected a beat") };
    let v = convert_beat_element_to_vexflow_note(&b.elements[0]).unwrap();
    assert_eq!(v.keys, strings(&["d#/4"]));
    assert_eq!(v.duration, "q");
    assert_eq!(v.dots, 0);
    assert_eq!(v.ornaments, vec![OrnamentType::Mordent]);
    assert_eq!(v.syl, Some("la".to_string()));
}

#[test]
fn rest_is_not_a_note() {
    let out = convert_parsed_to_fsm_output(&[dash(0), note(Degree::N1, 1)]);
    let Item::Beat(b) = &out[0] else { panic!("expected a beat") };
    let r = convert_beat_element_to_vexflow_note(&b.elements[0]);
    assert_eq!(r.err(), Some("BeatElement is not a note".to_string()));
}

#[test]
fn notes_carry_their_beats() {
    let items = convert_parsed_to_fsm_output(&[note(Degree::N1, 0), note(Degree::N2, 1), space(2), note(Degree::N3, 3)]);
    let (notes, markers) = extract_notes_and_slur_markers(&items).unwrap();
    assert!(markers.is_empty());
    assert_eq!(notes.len(), 3);
    assert_eq!(notes[0].beat_index, 0);
    assert_eq!(notes[1].beat_index, 0);
    assert_eq!(notes[2].beat_index, 1);
    assert_eq!(notes[0].duration, "8");
    assert_eq!(notes[2].duration, "q");
}

#[test]
fn slurs_pair_sorted_markers() {
    let notes: Vec<VexFlowNote> = Vec::new();
    let m = |t: SlurMarkerType, p: usize| SlurMarker { marker_type: t, position: p };
    let markers = vec![m(SlurMarkerType::End, 3), m(SlurMarkerType::Start, 1), m(SlurMarkerType::End, 2)];
    assert!(create_slurs_from_markers(&notes, &markers).is_empty());
    let four = vec![
        VexFlowNote { keys: vec![], duration: "q".to_string(), dots: 0, tied: false, beat_index: 0, ornaments: vec![], syl: None };
        4
    ];
    let slurs = create_slurs_from_markers(&four, &markers);
    assert_eq!(slurs.len(), 1);
    assert_eq!((slurs[0].from_note, slurs[0].to_note), (1, 2));
}

#[test]
fn tuplets_and_barlines_of_items() {
    // 1 | 2-3
    let items = convert_parsed_to_fsm_output(&[
        note(Degree::N1, 0), space(1), bar(2), space(3), note(Degree::N2, 4), dash(5), note(Degree::N3, 6),
    ]);
    assert_eq!(items.len(), 3);
    let (notes, _) = extract_notes_and_slur_markers(&items).unwrap();
    let tuplets = create_tuplets_from_beats(&items, &notes).unwrap();
    assert_eq!(tuplets.len(), 1);
    assert_eq!(tuplets[0].note_indices, vec![1, 2]);
    assert_eq!(tuplets[0].num_notes, 3);
    assert_eq!(tuplets[0].notes_occupied, 2);
    let barlines = create_barlines_from_elements(&items, &notes);
    assert_eq!(barlines.len(), 1);
    assert!(matches!(barlines[0].position, BarlinePosition::Middle(0)));
}

#[test]
fn barline_places_at_ends() {
    let items = convert_parsed_to_fsm_output(&[bar(0), note(Degree::N1, 1), bar(2)]);
    let barlines = create_barlines_from_elements(&items, &[]);
    assert_eq!(barlines.len(), 2);
    assert!(matches!(barlines[0].position, BarlinePosition::Beginning));
    assert!(matches!(barlines[1].position, BarlinePosition::End));
}

#[test]
fn note_script_lines() {
    let n = VexFlowNote {
        keys: strings(&["c#/5"]),
        duration: "8".to_string(),
        dots: 1,
        tied: false,
        beat_index: 0,
        ornaments: vec![OrnamentType::Trill],
        syl: Some("ga".to_string()),
    };
    let bars = vec![VexFlowBarline { barline_type: BarlineType::Double, position: BarlinePosition::Middle(0), tala: Some(2) }];
    let js = generate_notes_and_barlines_js(&[n], &bars).unwrap();
    let expected = [
        "console.log('Note keys: [\"c#/5\"]');",
        "const note0 = new VF.StaveNote({ clef: 'treble', keys: ['c/5'], duration: '8' });",
        "note0.addAccidental(0, new VF.Accidental('#'));",
        "note0.addDot(0);",
        "note0.addModifier(new VF.Ornament('mordent'), 0);",
        "console.log('\u{1F3B5} Storing lyric for note 0: ga');",
        "if (!window.vexflowSyllables) window.vexflowSyllables = [];",
        "window.vexflowSyllables.push({ noteIndex: 0, text: 'ga', note: null });",
        "vexNotes.push(note0);",
        "const barNote0 = new VF.BarNote(VF.BarlineType.DOUBLE);",
        "barNote0.tala = 2;  // Store tala on BarNote",
        "vexNotes.push(barNote0);",
        "console.log('Inserted BarNote 0 after note 0 (tala: Some(2))');",
    ]
    .join("\n");
    assert_eq!(js, expected);
}

#[test]
fn tala_script() {
    let none = vec![VexFlowBarline { barline_type: BarlineType::Single, position: BarlinePosition::End, tala: None }];
    assert_eq!(
        generate_tala_rendering_js(&none).unwrap(),
        "// Tala rendering after all VexFlow elements\n// No tala markers to render"
    );
    let plus = vec![VexFlowBarline { barline_type: BarlineType::Single, position: BarlinePosition::Beginning, tala: Some(255) }];
    let js = generate_tala_rendering_js(&plus).unwrap();
    assert!(js.starts_with("// Tala rendering after all VexFlow elements\n// Render tala markers above barlines\n\n// Draw tala marker + at barline 0\n"));
    assert!(js.contains("const talaX0 = stave.getX();"));
    assert!(js.contains("context.fillText('+', talaX0, talaY0);"));
    let middle = vec![VexFlowBarline { barline_type: BarlineType::Single, position: BarlinePosition::Middle(4), tala: Some(3) }];
    let js = generate_tala_rendering_js(&middle).unwrap();
    assert!(js.contains("// Fallback: find any BarNote after note 4"));
    assert!(js.contains("for (let i = 5; i < vexNotes.length; i++)"));
}

#[test]
fn whole_script() {
    let items = convert_parsed_to_fsm_output(&[
        note(Degree::N1, 0), space(1), bar(2), space(3), note(Degree::N2, 4), dash(5), note(Degree::N3, 6),
    ]);
    let js = generate_vexflow_js(&items).unwrap();
    assert!(js.starts_with("(function() { // IIFE Start\n"));
    assert!(js.ends_with("})(); // IIFE End"));
    assert!(js.contains("const note0 = new VF.StaveNote({ clef: 'treble', keys: ['c/4'], duration: 'q' });"));
    assert!(js.contains("const barNote0 = new VF.BarNote(VF.BarlineType.SINGLE);"));
    assert!(js.contains("const tupletNotes0 = [note1, note2];"));
    assert!(js.contains("const beams = [];") && !js.contains("const beamNotes0"));
    assert!(js.contains("// No stave barlines to set"));
    assert!(js.contains("// No tala markers to render"));
}
