use music_text::vexflow_fsm_converter::{apply_stave_tie_detection, get_note_duration, VexFlowElement};

fn note(duration: &str, key: &str) -> VexFlowElement {
    VexFlowElement::Note {
        keys: vec![key.to_string()],
        duration: duration.to_string(),
        dots: 0,
        accidentals: vec![],
        tied: false,
        original_duration: None,
        beam_start: false,
        beam_end: false,
        syl: None,
    }
}

fn tied(e: &VexFlowElement) -> Option<bool> {
    match e {
        VexFlowElement::Note { tied, .. } => Some(*tied),
        _ => None,
    }
}

#[test]
fn durations_of_notes_and_tuplet_notes() {
    assert_eq!(get_note_duration(&note("8", "c/4"), 5), Some("8".to_string()));
    let t = VexFlowElement::Tuplet { notes: vec![note("16", "c/4"), VexFlowElement::SlurStart], divisions: 3 };
    assert_eq!(get_note_duration(&t, 0), Some("16".to_string()));
    assert_eq!(get_note_duration(&t, 1), None);
    assert_eq!(get_note_duration(&t, 2), None);
    assert_eq!(get_note_duration(&VexFlowElement::Breathe, 0), None);
}

#[test]
fn stave_ties_cross_tuplets_and_bars() {
    let mut stave = vec![
        note("q", "c/4"),
        VexFlowElement::BarLine { bar_type: "single".to_string() },
        VexFlowElement::Tuplet { notes: vec![note("8", "c/4"), note("8", "d/4"), note("8", "d/4")], divisions: 3 },
        note("q", "d/4"),
        note("q", "e/4"),
    ];
    apply_stave_tie_detection(&mut stave);
    assert_eq!(tied(&stave[0]), Some(true));
    match &stave[2] {
        VexFlowElement::Tuplet { notes, divisions } => {
            assert_eq!(*divisions, 3);
            let ts: Vec<Option<bool>> = notes.iter().map(tied).collect();
            assert_eq!(ts, vec![Some(false), Some(true), Some(true)]);
        }
        _ => panic!("expected a tuplet"),
    }
    assert_eq!(tied(&stave[3]), Some(false));
    assert_eq!(tied(&stave[4]), Some(false));
}

#[test]
fn single_element_staves_are_left_alone() {
    let mut stave = vec![VexFlowElement::Tuplet { notes: vec![note("8", "c/4"), note("8", "c/4")], divisions: 3 }];
    apply_stave_tie_detection(&mut stave);
    match &stave[0] {
        VexFlowElement::Tuplet { notes, .. } => {
            assert_eq!(tied(&notes[0]), Some(false));
        }
        _ => panic!("expected a tuplet"),
    }
}
