use music_text::pitch::Degree;
use music_text::rhythm_analyzer::{Beat, BeatElement, ContentElement, ContentLine, Dash, NotationSystem, Note, Whitespace};
use music_text::vexflow_stave_js::VexFlowJSGenerator;

fn timed_note(d: Degree, octave: i8, n: u32, den: u32) -> BeatElement {
    let mut note = Note::new(Some("x".to_string()), 0, d, NotationSystem::Number);
    note.octave = octave;
    note.numerator = Some(n);
    note.denominator = Some(den);
    BeatElement::Note(note)
}

fn beat(elements: Vec<BeatElement>, tuplet: Option<(usize, usize)>) -> Beat {
    Beat {
        elements,
        value: None,
        char_index: 0,
        divisions: None,
        total_duration: None,
        is_tuplet: Some(tuplet.is_some()),
        tuplet_ratio: tuplet,
        tied_to_previous: None,
    }
}

#[test]
fn durations_keys_and_beamability() {
    let g = VexFlowJSGenerator::new();
    assert_eq!(g.duration_to_vexflow_duration(1, 4), "q");
    assert_eq!(g.duration_to_vexflow_duration(1, 12), "8");
    assert_eq!(g.duration_to_vexflow_duration(3, 16), "8");
    assert_eq!(g.duration_to_vexflow_duration(3, 24), "16");
    assert_eq!(g.duration_to_vexflow_duration(3, 100), "64");
    assert_eq!(g.duration_to_vexflow_duration(3, 8), "q");
    assert_eq!(g.degree_to_vexflow_key(Degree::N4s, 1), ("F/5".to_string(), vec!["#".to_string()]));
    assert_eq!(g.degree_to_vexflow_key(Degree::N7bb, -5), ("B/-1".to_string(), vec!["bb".to_string()]));
    assert_eq!(g.degree_to_vexflow_key(Degree::N1, 0), ("C/4".to_string(), vec![]));
    assert_eq!(g.pitch_code_to_degree(Degree::N3b), Degree::N3b);
    assert!(g.is_beat_beamable(&beat(vec![timed_note(Degree::N1, 0, 1, 8), timed_note(Degree::N2, 0, 1, 16)], None)));
    assert!(!g.is_beat_beamable(&beat(vec![timed_note(Degree::N1, 0, 1, 8), timed_note(Degree::N2, 0, 1, 4)], None)));
    let rest = BeatElement::Dash(Dash { value: None, char_index: 0, numerator: Some(1), denominator: Some(4) });
    assert!(!g.is_beat_beamable(&beat(vec![rest], None)));
}

#[test]
fn beat_notes_and_tuplets_are_numbered() {
    let mut g = VexFlowJSGenerator::new();
    let rest = BeatElement::Dash(Dash { value: None, char_index: 1, numerator: Some(1), denominator: Some(8) });
    let extender = BeatElement::Dash(Dash { value: None, char_index: 2, numerator: None, denominator: None });
    let names = g.generate_beat_notes(&beat(vec![timed_note(Degree::N5, 0, 1, 8), rest, extender], None));
    assert_eq!(names, vec!["note_0".to_string(), "note_1".to_string()]);
    assert_eq!(
        g.js_code,
        "  const note_0 = new StaveNote({ keys: ['G/4'], duration: '8' });\n  const note_1 = new StaveNote({ keys: ['b/4'], duration: '8r' });\n"
    );
    let (tnames, tuplet) = g.generate_tuplet(&beat(
        vec![timed_note(Degree::N1, 0, 1, 12), timed_note(Degree::N2, 0, 1, 12), timed_note(Degree::N3, 0, 1, 12)],
        Some((3, 2)),
    ));
    assert_eq!(tnames, vec!["note_2".to_string(), "note_3".to_string(), "note_4".to_string()]);
    assert_eq!(tuplet, Some("tuplet_5".to_string()));
    assert_eq!(g.note_counter, 6);
    assert!(g.js_code.ends_with(
        "  const tuplet_5 = new Tuplet([note_2, note_3, note_4], { notes_occupied: 2, num_notes: 3, bracketed: true });\n"
    ));
    let (none_names, none) = g.generate_tuplet(&beat(vec![], Some((3, 2))));
    assert!(none_names.is_empty());
    assert_eq!(none, None);
    assert_eq!(g.next_voice_name(), "voice_0");
}

#[test]
fn stave_script_holds_voice_tuplets_and_beams() {
    let line = ContentLine {
        elements: vec![
            ContentElement::Beat(beat(vec![timed_note(Degree::N1, 0, 1, 8), timed_note(Degree::N2, 0, 1, 8)], None)),
            ContentElement::Whitespace(Whitespace { value: Some(" ".to_string()), char_index: 2 }),
            ContentElement::Beat(beat(
                vec![timed_note(Degree::N3, 0, 1, 12), timed_note(Degree::N4, 0, 1, 12), timed_note(Degree::N5, 0, 1, 12)],
                Some((3, 2)),
            )),
        ],
        value: Some("12 345".to_string()),
    };
    let mut g = VexFlowJSGenerator::new();
    let js = g.generate_for_stave(&[line], "c1");
    let expected = [
        "(function() {",
        "  const container = document.getElementById('c1');",
        "  if (!container) return;",
        "  container.innerHTML = '';",
        "",
        "  const { Renderer, Stave, StaveNote, Voice, Formatter, Tuplet, Beam } = Vex.Flow;",
        "",
        "  const renderer = new Renderer(container, Renderer.Backends.SVG);",
        "  const canvasWidth = 800;",
        "  const canvasHeight = 200;",
        "  renderer.resize(canvasWidth, canvasHeight);",
        "  const context = renderer.getContext();",
        "  context.scale(0.9, 0.9);",
        "",
        "  const stave = new Stave(10, 40, 700);",
        "  stave.addClef('treble');",
        "  stave.setContext(context);",
        "  stave.draw();",
        "",
        "  const note_0 = new StaveNote({ keys: ['C/4'], duration: '8' });",
        "  const note_1 = new StaveNote({ keys: ['D/4'], duration: '8' });",
        "  const note_2 = new StaveNote({ keys: ['E/4'], duration: '8' });",
        "  const note_3 = new StaveNote({ keys: ['F/4'], duration: '8' });",
        "  const note_4 = new StaveNote({ keys: ['G/4'], duration: '8' });",
        "  const tuplet_5 = new Tuplet([note_2, note_3, note_4], { notes_occupied: 2, num_notes: 3, bracketed: true });",
        "  // Create voice and add notes",
        "  const voice_0 = new Voice({ num_beats: 4, beat_value: 4, resolution: Vex.Flow.RESOLUTION });",
        "  voice_0.setStrict(false);",
        "  voice_0.addTickables([note_0, note_1, note_2, note_3, note_4]);",
        "",
        "  // Format and draw",
        "  const formatter = new Formatter().joinVoices([voice_0]);",
        "  formatter.format([voice_0], 600);",
        "  voice_0.draw(context, stave);",
        "",
        "  // Draw tuplets",
        "  tuplet_5.setContext(context).draw();",
        "",
        "  // Draw beams",
        "    const beam_6 = new Beam([note_0, note_1]);",
        "    beam_6.setContext(context).draw();",
        "})();",
    ];
    let mut text = String::new();
    for l in expected.iter() {
        text.push_str(l);
        text.push('\n');
    }
    assert_eq!(js, text);
    assert_eq!(g.js_code, text);
    assert_eq!(g.note_counter, 7);
}

#[test]
fn empty_stave_script_has_only_frame() {
    let mut g = VexFlowJSGenerator::new();
    let js = g.generate_for_stave(&[], "x");
    assert!(js.starts_with("(function() {\n  const container = document.getElementById('x');\n"));
    assert!(js.ends_with("  stave.draw();\n\n})();\n"));
    assert!(!js.contains("Voice({"));
}

#[test]
fn stave_script_is_framed_by_its_function() {
    let mut g = VexFlowJSGenerator::new();
    let line = ContentLine {
        elements: vec![ContentElement::Beat(beat(vec![timed_note(Degree::N1, 0, 1, 4)], None))],
        value: None,
    };
    let js = g.generate_for_stave(&[line], "stave-7");
    assert!(js.starts_with("(function() {\n  const container = document.getElementById('stave-7');\n"));
    assert!(js.ends_with("})();\n"));
    assert_eq!(js, g.js_code);
}
