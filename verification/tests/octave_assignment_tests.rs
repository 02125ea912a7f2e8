use music_text::spatial_parser::{
    assign_octave_markers, find_slur_segments, AnnotationItem, AnnotationLine, AstBeat, AstBeatElement, AstContentLine, AstDocument,
    AstMeasure, AstStave,
};

fn pitch(v: &str) -> AstBeatElement {
    AstBeatElement::Pitch { value: v.to_string(), octave: 0 }
}

fn octaves(st: &AstStave) -> Vec<Option<i8>> {
    let mut out = Vec::new();
    for m in &st.content_line.measures {
        for b in &m.beats {
            for e in &b.elements {
                out.push(match e {
                    AstBeatElement::Pitch { octave, .. } => Some(*octave),
                    _ => None,
                });
            }
        }
    }
    out
}

#[test]
fn markers_go_directly_above_then_to_the_nearest_free_note() {
    let stave = AstStave {
        upper_lines: vec![
            AnnotationLine { items: vec![AnnotationItem::Space { count: 1 }, AnnotationItem::UpperOctaveMarker { marker: ".".to_string() }] },
            AnnotationLine { items: vec![AnnotationItem::Space { count: 5 }, AnnotationItem::UpperOctaveMarker { marker: ":".to_string() }] },
        ],
        lower_lines: vec![AnnotationLine { items: vec![AnnotationItem::LowerOctaveMarker { marker: ".".to_string() }] }],
        content_line: AstContentLine {
            measures: vec![AstMeasure {
                beats: vec![
                    AstBeat { elements: vec![pitch("S"), pitch("R"), AstBeatElement::Dash] },
                    AstBeat { elements: vec![pitch("G")] },
                ],
            }],
        },
    };
    let mut doc = AstDocument { staves: vec![stave] };
    assign_octave_markers(&mut doc);
    assert_eq!(octaves(&doc.staves[0]), vec![Some(-1), Some(1), None, Some(2)]);
    assert_eq!(doc.staves[0].upper_lines.len(), 2);
}

#[test]
fn slur_underscores_shift_marker_columns() {
    let stave = AstStave {
        upper_lines: vec![AnnotationLine {
            items: vec![AnnotationItem::Slur { underscores: "__".to_string() }, AnnotationItem::UpperOctaveMarker { marker: "*".to_string() }],
        }],
        lower_lines: vec![],
        content_line: AstContentLine {
            measures: vec![AstMeasure { beats: vec![AstBeat { elements: vec![pitch("S"), pitch("R"), pitch("G")] }] }],
        },
    };
    let mut doc = AstDocument { staves: vec![stave] };
    assign_octave_markers(&mut doc);
    assert_eq!(octaves(&doc.staves[0]), vec![Some(0), Some(0), Some(3)]);
}

#[test]
fn slur_segments_span_their_underscores() {
    let lines = vec![
        AnnotationLine {
            items: vec![
                AnnotationItem::Space { count: 2 },
                AnnotationItem::Slur { underscores: "___".to_string() },
                AnnotationItem::Chord { chord: "Am".to_string() },
                AnnotationItem::Slur { underscores: "_".to_string() },
                AnnotationItem::Slur { underscores: "__".to_string() },
            ],
        },
        AnnotationLine {
            items: vec![
                AnnotationItem::Ornament { pitches: vec!["S".to_string(), "R".to_string()] },
                AnnotationItem::Mordent,
                AnnotationItem::Slur { underscores: "____".to_string() },
            ],
        },
    ];
    assert_eq!(find_slur_segments(&lines), vec![(2, 4), (10, 11), (6, 9)]);
}
