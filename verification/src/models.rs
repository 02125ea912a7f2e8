//! Annotation lines of a stave: the upper line (octave markers, slurs,
//! mordents), the lower line (octave markers, beat groups) and lyrics.
//! Annotations carry an `Option` value that is taken (set to `None`) when a
//! note consumes them.
use vstd::prelude::*;

verus! {

/// Elements of an upper annotation line.
#[derive(Clone, Debug, PartialEq)]
pub enum UpperElement {
    /// `.` or `:` above a note.
    UpperOctaveMarker { marker: String, value: Option<String>, char_index: usize },
    /// A run of spaces.
    Space { count: usize, value: Option<String>, char_index: usize },
    /// A run of underscores marking a slur.
    SlurIndicator { value: Option<String>, indicator_value: String, char_index: usize },
    /// `~` above a note.
    Mordent { value: Option<String>, char_index: usize },
    /// Any other annotation symbol, one column wide.
    Symbol { value: Option<String>, char_index: usize },
}

/// Elements of a lower annotation line.
#[derive(Clone, Debug, PartialEq)]
pub enum LowerElement {
    /// `.` or `:` below a note.
    LowerOctaveMarker { marker: String, value: Option<String>, char_index: usize },
    /// A run of spaces.
    Space { count: usize, value: Option<String>, char_index: usize },
    /// A run of underscores grouping notes into one beat.
    BeatGroupIndicator { value: Option<String>, indicator_value: String, char_index: usize },
    /// Any other annotation symbol, one column wide.
    Symbol { value: Option<String>, char_index: usize },
}

/// An upper annotation line.
#[derive(Clone, Debug, PartialEq)]
pub struct UpperLine {
    pub elements: Vec<UpperElement>,
    pub value: Option<String>,
    pub char_index: usize,
}

/// A lower annotation line.
#[derive(Clone, Debug, PartialEq)]
pub struct LowerLine {
    pub elements: Vec<LowerElement>,
    pub value: Option<String>,
    pub char_index: usize,
}

/// A syllable of a lyrics line.
#[derive(Clone, Debug, PartialEq)]
pub struct Syllable {
    pub value: Option<String>,
    pub char_index: usize,
}

/// A line of lyrics.
#[derive(Clone, Debug, PartialEq)]
pub struct LyricsLine {
    pub syllables: Vec<Syllable>,
}

/// Byte length of a string, as `str::len` reports it.
pub open spec fn byte_len(s: Seq<char>) -> usize {
    vstd::utf8::encode_utf8(s).len() as usize
}

/// The `value` of an upper element.
pub open spec fn upper_value(e: UpperElement) -> Option<String> {
    match e {
        UpperElement::UpperOctaveMarker { value, .. } => value,
        UpperElement::Space { value, .. } => value,
        UpperElement::SlurIndicator { value, .. } => value,
        UpperElement::Mordent { value, .. } => value,
        UpperElement::Symbol { value, .. } => value,
    }
}

/// The `value` of a lower element.
pub open spec fn lower_value(e: LowerElement) -> Option<String> {
    match e {
        LowerElement::LowerOctaveMarker { value, .. } => value,
        LowerElement::Space { value, .. } => value,
        LowerElement::BeatGroupIndicator { value, .. } => value,
        LowerElement::Symbol { value, .. } => value,
    }
}

/// An upper element with its value taken.
pub open spec fn upper_taken(e: UpperElement) -> UpperElement {
    match e {
        UpperElement::UpperOctaveMarker { marker, char_index, .. } =>
            UpperElement::UpperOctaveMarker { marker, value: None, char_index },
        UpperElement::Space { count, char_index, .. } => UpperElement::Space { count, value: None, char_index },
        UpperElement::SlurIndicator { indicator_value, char_index, .. } =>
            UpperElement::SlurIndicator { value: None, indicator_value, char_index },
        UpperElement::Mordent { char_index, .. } => UpperElement::Mordent { value: None, char_index },
        UpperElement::Symbol { char_index, .. } => UpperElement::Symbol { value: None, char_index },
    }
}

/// A lower element with its value taken.
pub open spec fn lower_taken(e: LowerElement) -> LowerElement {
    match e {
        LowerElement::LowerOctaveMarker { marker, char_index, .. } =>
            LowerElement::LowerOctaveMarker { marker, value: None, char_index },
        LowerElement::Space { count, char_index, .. } => LowerElement::Space { count, value: None, char_index },
        LowerElement::BeatGroupIndicator { indicator_value, char_index, .. } =>
            LowerElement::BeatGroupIndicator { value: None, indicator_value, char_index },
        LowerElement::Symbol { char_index, .. } => LowerElement::Symbol { value: None, char_index },
    }
}

/// Copy of a string with the same view.
pub fn copy_string(s: &String) -> (r: String)
    ensures
        r == *s,
{
    s.clone()
}

/// Copy of an optional string.
pub fn copy_opt_string(s: &Option<String>) -> (r: Option<String>)
    ensures
        r == *s,
{
    match s {
        Some(v) => Some(v.clone()),
        None => None,
    }
}

impl UpperElement {
    /// A copy of the element.
    pub fn copy(&self) -> (r: Self)
        ensures
            r == *self,
    {
        match self {
            UpperElement::UpperOctaveMarker { marker, value, char_index } =>
                UpperElement::UpperOctaveMarker { marker: copy_string(marker), value: copy_opt_string(value), char_index: *char_index },
            UpperElement::Space { count, value, char_index } =>
                UpperElement::Space { count: *count, value: copy_opt_string(value), char_index: *char_index },
            UpperElement::SlurIndicator { value, indicator_value, char_index } =>
                UpperElement::SlurIndicator { value: copy_opt_string(value), indicator_value: copy_string(indicator_value), char_index: *char_index },
            UpperElement::Mordent { value, char_index } =>
                UpperElement::Mordent { value: copy_opt_string(value), char_index: *char_index },
            UpperElement::Symbol { value, char_index } =>
                UpperElement::Symbol { value: copy_opt_string(value), char_index: *char_index },
        }
    }

    /// A copy of the element with its value taken.
    pub fn taken(&self) -> (r: Self)
        ensures
            r == upper_taken(*self),
    {
        match self {
            UpperElement::UpperOctaveMarker { marker, char_index, .. } =>
                UpperElement::UpperOctaveMarker { marker: copy_string(marker), value: None, char_index: *char_index },
            UpperElement::Space { count, char_index, .. } =>
                UpperElement::Space { count: *count, value: None, char_index: *char_index },
            UpperElement::SlurIndicator { indicator_value, char_index, .. } =>
                UpperElement::SlurIndicator { value: None, indicator_value: copy_string(indicator_value), char_index: *char_index },
            UpperElement::Mordent { char_index, .. } => UpperElement::Mordent { value: None, char_index: *char_index },
            UpperElement::Symbol { char_index, .. } => UpperElement::Symbol { value: None, char_index: *char_index },
        }
    }
}

impl LowerElement {
    /// A copy of the element.
    pub fn copy(&self) -> (r: Self)
        ensures
            r == *self,
    {
        match self {
            LowerElement::LowerOctaveMarker { marker, value, char_index } =>
                LowerElement::LowerOctaveMarker { marker: copy_string(marker), value: copy_opt_string(value), char_index: *char_index },
            LowerElement::Space { count, value, char_index } =>
                LowerElement::Space { count: *count, value: copy_opt_string(value), char_index: *char_index },
            LowerElement::BeatGroupIndicator { value, indicator_value, char_index } =>
                LowerElement::BeatGroupIndicator { value: copy_opt_string(value), indicator_value: copy_string(indicator_value), char_index: *char_index },
            LowerElement::Symbol { value, char_index } =>
                LowerElement::Symbol { value: copy_opt_string(value), char_index: *char_index },
        }
    }

    /// A copy of the element with its value taken.
    pub fn taken(&self) -> (r: Self)
        ensures
            r == lower_taken(*self),
    {
        match self {
            LowerElement::LowerOctaveMarker { marker, char_index, .. } =>
                LowerElement::LowerOctaveMarker { marker: copy_string(marker), value: None, char_index: *char_index },
            LowerElement::Space { count, char_index, .. } =>
                LowerElement::Space { count: *count, value: None, char_index: *char_index },
            LowerElement::BeatGroupIndicator { indicator_value, char_index, .. } =>
                LowerElement::BeatGroupIndicator { value: None, indicator_value: copy_string(indicator_value), char_index: *char_index },
            LowerElement::Symbol { char_index, .. } => LowerElement::Symbol { value: None, char_index: *char_index },
        }
    }
}

} // verus!
