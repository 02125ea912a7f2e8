//! Textual music notation toolkit: rhythm grouping, duration conversion,
//! spatial assignment of annotation lines, key handling and small
//! rendering helpers.
pub mod text;
pub mod pitch;
pub mod rhythm;
pub mod models;
pub mod spatial;
pub mod spatial_parser;
pub mod vertical_parser;
pub mod lilypond_templates;
pub mod lilypond_formatters;
pub mod lilypond_generator;
pub mod lilypond_renderer;
pub mod lilypond_document;
pub mod rhythmic_converter;
pub mod rhythm_analyzer;
pub mod svg_fonts;
pub mod svg_renderer;
pub mod svg_document;
pub mod structs;
pub mod structs_backup;
pub mod beaming;
pub mod vexflow_converter;
pub mod vexflow_converter_v2;
pub mod vexflow_fsm_converter;
pub mod vexflow_fsm_staves;
pub mod rhythm_fsm_v2_clean;
pub mod rhythm_fsm;
pub mod rhythm_fsm_v2;
pub mod to_staff_notation;
pub mod transposition;
pub mod vexflow_js_generator;
pub mod vexflow_measure;
pub mod vexflow_stave_js;
pub mod vexflow_renderer;
pub mod tree_functions;
pub mod codemirror;
pub mod json;
pub mod parse;
pub mod lilypond_duration;
pub mod fraction_to_lilypond;

use vstd::prelude::*;

verus! {
} // verus!
