use music_text::pitch::Degree;
use music_text::rhythm::converters::BarlineType;
use music_text::vexflow_js_generator::{
    convert_barline_type_to_vexflow, create_beams_from_notes, degree_to_vexflow_key, generate_beam_creation_js,
    generate_slur_creation_js, generate_stave_barlines_js, generate_tuplet_creation_js, get_next_power_of_2,
    BarlinePosition, VexFlowBarline, VexFlowBeam, VexFlowNote, VexFlowSlur, VexFlowTuplet,
};

#[test]
fn test_degree_to_vexflow_key() {
    assert_eq!(degree_to_vexflow_key(Degree::N1, 0), "c/4");
    assert_eq!(degree_to_vexflow_key(Degree::N2, 0), "d/4");
    assert_eq!(degree_to_vexflow_key(Degree::N1s, 0), "c#/4");
    assert_eq!(degree_to_vexflow_key(Degree::N7b, 0), "bb/4");
    assert_eq!(degree_to_vexflow_key(Degree::N1, 1), "c/5");
}

#[test]
fn vexflow_keys_of_double_alterations() {
    assert_eq!(degree_to_vexflow_key(Degree::N4ss, -1), "f##/3");
    assert_eq!(degree_to_vexflow_key(Degree::N7bb, -5), "bbb/-1");
}

#[test]
fn tuplet_space_is_the_power_of_two_below() {
    assert_eq!(get_next_power_of_2(0), 1);
    assert_eq!(get_next_power_of_2(1), 1);
    assert_eq!(get_next_power_of_2(2), 1);
    assert_eq!(get_next_power_of_2(3), 2);
    assert_eq!(get_next_power_of_2(5), 4);
    assert_eq!(get_next_power_of_2(8), 4);
    assert_eq!(get_next_power_of_2(9), 8);
}

#[test]
fn barline_constants() {
    assert_eq!(convert_barline_type_to_vexflow(&BarlineType::RepeatStart), "VF.BarlineType.REPEAT_BEGIN");
    assert_eq!(convert_barline_type_to_vexflow(&BarlineType::Final), "VF.BarlineType.END");
    assert_eq!(convert_barline_type_to_vexflow(&BarlineType::Single), "VF.BarlineType.SINGLE");
}

fn note(duration: &str, beat: usize) -> VexFlowNote {
    VexFlowNote {
        keys: vec!["c/4".to_string()],
        duration: duration.to_string(),
        dots: 0,
        tied: false,
        beat_index: beat,
        ornaments: vec![],
        syl: None,
    }
}

#[test]
fn beams_break_at_beats_and_long_notes() {
    let notes = vec![
        note("8", 0),
        note("8", 0),
        note("16", 1),
        note("16", 1),
        note("q", 1),
        note("32", 1),
        note("8", 2),
        note("8", 2),
        note("8", 2),
    ];
    let beams: Vec<Vec<usize>> = create_beams_from_notes(&notes).into_iter().map(|b| b.note_indices).collect();
    assert_eq!(beams, vec![vec![0, 1], vec![2, 3], vec![6, 7, 8]]);
}

#[test]
fn beam_script() {
    let beams = vec![VexFlowBeam { note_indices: vec![0, 1] }, VexFlowBeam { note_indices: vec![5] }, VexFlowBeam { note_indices: vec![2, 3, 4] }];
    let js = generate_beam_creation_js(&beams).unwrap();
    let b0 = format!(r#"console.log('VexFlow: Creating beam {} with notes: [{}]');
const beamNotes{} = [{}];
if (beamNotes{}.every(note => note !== undefined)) {{
    const beam{} = new VF.Beam(beamNotes{}); 
    beam{}.setContext(context);
    beams.push(beam{});
    console.log('VexFlow: Beam {} created and stored');
}} else {{
    console.log('ERROR: Beam {} skipped due to undefined notes');
}}
"#, 0, "0, 1", 0, "note0, note1", 0, 0, 0, 0, 0, 0, 0);
    let b2 = format!(r#"console.log('VexFlow: Creating beam {} with notes: [{}]');
const beamNotes{} = [{}];
if (beamNotes{}.every(note => note !== undefined)) {{
    const beam{} = new VF.Beam(beamNotes{}); 
    beam{}.setContext(context);
    beams.push(beam{});
    console.log('VexFlow: Beam {} created and stored');
}} else {{
    console.log('ERROR: Beam {} skipped due to undefined notes');
}}
"#, 2, "2, 3, 4", 2, "note2, note3, note4", 2, 2, 2, 2, 2, 2, 2);
    assert_eq!(js, ["const beams = [];".to_string(), b0, b2].join("\n"));
}

#[test]
fn tuplet_script() {
    let tuplets = vec![VexFlowTuplet { note_indices: vec![3, 4, 5], num_notes: 3, notes_occupied: 2 }];
    let js = generate_tuplet_creation_js(&tuplets).unwrap();
    let t0 = format!(r#"console.log('VexFlow: Creating tuplet {} with {} notes in space of {}');
const tupletNotes{} = [{}];
if (tupletNotes{}.every(note => note !== undefined)) {{
    const tupletOptions{} = {{
        notes_occupied: {},
        num_notes: {},
        bracketed: true
    }};
    const tuplet{} = new VF.Tuplet(tupletNotes{}, tupletOptions{});
    tuplet{}.setContext(context);
    tuplets.push(tuplet{});
    console.log('VexFlow: Tuplet {} created and stored');
}} else {{
    console.log('ERROR: Tuplet {} skipped due to undefined notes');
}}
"#, 0, 3, 2, 0, "note3, note4, note5", 0, 0, 2, 3, 0, 0, 0, 0, 0, 0, 0);
    assert_eq!(js, ["const tuplets = [];".to_string(), t0].join("\n"));
}

#[test]
fn slur_script() {
    let slurs = vec![VexFlowSlur { from_note: 1, to_note: 4 }, VexFlowSlur { from_note: 6, to_note: 7 }];
    let js = generate_slur_creation_js(&slurs).unwrap();
    let s0 = format!(r#"console.log('VexFlow: Slur {} from note{} to note{}');
console.log('VexFlow: Checking note{} and note{} exist...');
if (typeof note{} === 'undefined') {{
    console.log('ERROR: note{} is undefined!');
}} else if (typeof note{} === 'undefined') {{
    console.log('ERROR: note{} is undefined!');  
}} else {{
    const curve{} = new VF.Curve(note{}, note{}, {{ cps: [{{ x: 0, y: 10 }}, {{ x: 0, y: 10 }}] }});
    curve{}.setContext(context).draw();
    console.log('VexFlow: Slur {} created successfully');
}}
"#, 0, 1, 4, 1, 4, 1, 1, 4, 4, 0, 1, 4, 0, 0);
    let s1 = format!(r#"console.log('VexFlow: Slur {} from note{} to note{}');
console.log('VexFlow: Checking note{} and note{} exist...');
if (typeof note{} === 'undefined') {{
    console.log('ERROR: note{} is undefined!');
}} else if (typeof note{} === 'undefined') {{
    console.log('ERROR: note{} is undefined!');  
}} else {{
    const curve{} = new VF.Curve(note{}, note{}, {{ cps: [{{ x: 0, y: 10 }}, {{ x: 0, y: 10 }}] }});
    curve{}.setContext(context).draw();
    console.log('VexFlow: Slur {} created successfully');
}}
"#, 1, 6, 7, 6, 7, 6, 6, 7, 7, 1, 6, 7, 1, 1);
    assert_eq!(js, [s0, s1].join("\n"));
    assert_eq!(generate_slur_creation_js(&[]).unwrap(), "");
}

#[test]
fn stave_barline_script() {
    let none = generate_stave_barlines_js(&[VexFlowBarline {
        barline_type: BarlineType::Double,
        position: BarlinePosition::Middle(3),
        tala: None,
    }])
    .unwrap();
    assert_eq!(none, "// No stave barlines to set");
    let js = generate_stave_barlines_js(&[
        VexFlowBarline { barline_type: BarlineType::RepeatStart, position: BarlinePosition::Beginning, tala: Some(0) },
        VexFlowBarline { barline_type: BarlineType::Final, position: BarlinePosition::End, tala: None },
    ])
    .unwrap();
    assert_eq!(
        js,
        "stave.setBegBarType(VF.BarlineType.REPEAT_BEGIN)\nconsole.log('Set beginning barline: RepeatStart');\nstave.setEndBarType(VF.BarlineType.END)\nconsole.log('Set end barline: Final');"
    );
}
