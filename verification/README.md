# music_text

Processing of textual music notation (number, sargam and western letter
notation), written in Verus: every function in `src/` carries a contract
that the verifier proves.

## Layout

- `src/` — the verified library.
  - Rhythm: `rhythm/`, `rhythm_fsm*.rs`, `rhythm_analyzer.rs` group notes,
    dashes and rests into beats and give each its share of the beat.
  - Annotation lines: `spatial.rs`, `spatial_parser.rs` consume octave
    markers, slurs, beat groups, mordents and syllables and attach them to
    the notes they stand over.
  - Editor highlighting: `tree_functions.rs`, `codemirror.rs` turn a parsed
    document into syntax tokens and per-character styles.
  - Staff notation: `vexflow_*.rs`, `to_staff_notation.rs`, `beaming.rs`
    write VexFlow staves and scripts (keys, accidentals per bar, ties,
    beams, tuplets); `vexflow_converter.rs` reads LilyPond note text with the
    `regex` crate.
  - LilyPond: `lilypond_*.rs`, `fraction_to_lilypond.rs` write durations,
    pitches, staves and whole documents.
- `tests/` — tests of the library.
- `app/` — serde forms of library types and the SVG document, whose font
  size is a float.
