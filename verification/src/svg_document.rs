//! Elements of an SVG renderer document and the check of its notation type.
use vstd::prelude::*;
use crate::text::str_eq;

verus! {

/// A note within an ornament.
#[derive(Clone, Debug)]
pub struct OrnamentNote {
    pub value: String,
    pub octave: i8,
    pub accidental: Option<String>,
}

/// An ornament on a pitch.
#[derive(Clone, Debug)]
pub enum Ornament {
    BeforeGraceNotes { notes: Vec<OrnamentNote> },
    OnTopGraceNotes { notes: Vec<OrnamentNote> },
    AfterGraceNotes { notes: Vec<OrnamentNote> },
    SymbolicOrnament { symbol: String },
}

/// An element of a document to render.
#[derive(Clone, Debug)]
pub enum Element {
    Pitch { value: String, octave: i8, accidental: Option<String>, ornaments: Vec<Ornament>, lyrics: Vec<String> },
    Dash { is_rest: bool },
    Barline { style: String },
}

/// Whether a notation type is one the renderer supports.
pub open spec fn supported_notation(t: Seq<char>) -> bool {
    t == "number"@ || t == "sargam"@ || t == "western"@
}

/// Accepts the supported notation types (`number`, `sargam`, `western`);
/// any other is refused with `Unsupported notation type: ` and its name.
pub fn validate_notation_type(notation_type: &str) -> (r: Result<(), String>)
    ensures
        match r {
            Ok(()) => supported_notation(notation_type@),
            Err(e) => !supported_notation(notation_type@) && e@ == "Unsupported notation type: "@ + notation_type@,
        },
{
    if str_eq(notation_type, "number") || str_eq(notation_type, "sargam") || str_eq(notation_type, "western") {
        Ok(())
    } else {
        let mut e = "Unsupported notation type: ".to_owned();
        e.append(notation_type);
        Err(e)
    }
}

} // verus!
