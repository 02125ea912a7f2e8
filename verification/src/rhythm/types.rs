//! Parsed musical elements as the rhythm stage consumes them.
use vstd::prelude::*;
use crate::pitch::Degree;

verus! {

/// Position of an element in the source text.
#[derive(Clone, Copy, Debug, PartialEq, Eq, Structural)]
pub struct Position {
    pub row: usize,
    pub col: usize,
    /// Zero-based character index into the whole document.
    pub char_index: usize,
}

/// Ornaments that can be attached to notes.
#[derive(Clone, Copy, Debug, PartialEq, Eq, Structural)]
pub enum OrnamentType {
    Mordent,
    Trill,
    Turn,
    Grace,
}

/// Children attached to notes through vertical (spatial) relationships.
#[derive(Clone, Debug, PartialEq)]
pub enum ParsedChild {
    /// Octave markers such as dots and colons.
    OctaveMarker { symbol: String, distance: i8 },
    /// Ornaments such as mordents and trills.
    Ornament { kind: OrnamentType, distance: i8 },
    /// Syllable of lyrics.
    Syllable { text: String, distance: i8 },
    /// Beat group indicator consumed by the first note of the group.
    BeatGroupIndicator { symbol: String, span: usize },
}

/// A child annotation as plain values.
pub enum ParsedChildView {
    OctaveMarker { symbol: Seq<char>, distance: i8 },
    Ornament { kind: OrnamentType, distance: i8 },
    Syllable { text: Seq<char>, distance: i8 },
    BeatGroupIndicator { symbol: Seq<char>, span: usize },
}

impl View for ParsedChild {
    type V = ParsedChildView;

    open spec fn view(&self) -> ParsedChildView {
        match *self {
            ParsedChild::OctaveMarker { symbol, distance } => ParsedChildView::OctaveMarker { symbol: symbol@, distance },
            ParsedChild::Ornament { kind, distance } => ParsedChildView::Ornament { kind, distance },
            ParsedChild::Syllable { text, distance } => ParsedChildView::Syllable { text: text@, distance },
            ParsedChild::BeatGroupIndicator { symbol, span } => ParsedChildView::BeatGroupIndicator { symbol: symbol@, span },
        }
    }
}

/// The views of a list of children.
pub open spec fn children_view(v: Seq<ParsedChild>) -> Seq<ParsedChildView> {
    v.map_values(|c: ParsedChild| c@)
}

/// Role of an element within a beat group.
#[derive(Clone, Copy, Debug, PartialEq, Eq, Structural)]
pub enum BeatGroupRole {
    Start,
    Middle,
    End,
}

/// Position of a note within a slur.
#[derive(Clone, Copy, Debug, PartialEq, Eq, Structural)]
pub enum SlurPosition {
    Unslurred,
    Start,
    Middle,
    End,
}

/// Flat elements extracted from a content line.
#[derive(Clone, Debug, PartialEq)]
#[allow(inconsistent_fields)]
pub enum ParsedElement {
    /// A note with its pitch.
    Note {
        degree: Degree,
        octave: i8,
        value: String,
        position: Position,
        children: Vec<ParsedChild>,
        duration: Option<(usize, usize)>,
        beat_group: Option<BeatGroupRole>,
        slur_position: SlurPosition,
        in_beat_group: bool,
    },
    /// A rest.
    Rest { value: String, position: Position, duration: Option<(usize, usize)> },
    /// A dash extending the preceding note.
    Dash { degree: Option<Degree>, octave: Option<i8>, position: Position, duration: Option<(usize, usize)> },
    /// A bar line such as `|` or `||`.
    Barline { style: String, position: Position, tala: Option<u8> },
    /// Whitespace separating beats.
    Whitespace { value: String, position: Position },
    /// A symbol such as a breath mark.
    Symbol { value: String, position: Position },
    /// Unrecognized consecutive characters.
    Unknown { value: String, position: Position },
    /// An explicit line terminator.
    Newline { value: String, position: Position },
    /// End of input.
    EndOfInput { position: Position },
}

impl ParsedElement {
    /// A note with no children, no duration and no group or slur membership.
    pub fn new_note(degree: Degree, octave: i8, value: String, position: Position) -> (r: Self)
        ensures
            r matches ParsedElement::Note { degree: d, octave: o, value: v, position: p, children: c,
                duration: du, beat_group: g, slur_position: sp, in_beat_group: ib }
                && d == degree && o == octave && v == value && p == position && c@.len() == 0
                && du is None && g is None && sp == SlurPosition::Unslurred && !ib,
    {
        ParsedElement::Note {
            degree,
            octave,
            value,
            position,
            children: Vec::new(),
            duration: None,
            beat_group: None,
            slur_position: SlurPosition::Unslurred,
            in_beat_group: false,
        }
    }
}

} // verus!

verus! {

/// A parsed element with its children as a sequence.
#[allow(inconsistent_fields)]
pub enum ParsedElementView {
    Note {
        degree: Degree,
        octave: i8,
        value: Seq<char>,
        position: Position,
        children: Seq<ParsedChildView>,
        duration: Option<(usize, usize)>,
        beat_group: Option<BeatGroupRole>,
        slur_position: SlurPosition,
        in_beat_group: bool,
    },
    Rest { value: Seq<char>, position: Position, duration: Option<(usize, usize)> },
    Dash { degree: Option<Degree>, octave: Option<i8>, position: Position, duration: Option<(usize, usize)> },
    Barline { style: Seq<char>, position: Position, tala: Option<u8> },
    Whitespace { value: Seq<char>, position: Position },
    Symbol { value: Seq<char>, position: Position },
    Unknown { value: Seq<char>, position: Position },
    Newline { value: Seq<char>, position: Position },
    EndOfInput { position: Position },
}

impl View for ParsedElement {
    type V = ParsedElementView;

    open spec fn view(&self) -> ParsedElementView {
        match *self {
            ParsedElement::Note { degree, octave, value, position, children, duration, beat_group, slur_position, in_beat_group } =>
                ParsedElementView::Note { degree, octave, value: value@, position, children: children_view(children@), duration, beat_group, slur_position, in_beat_group },
            ParsedElement::Rest { value, position, duration } => ParsedElementView::Rest { value: value@, position, duration },
            ParsedElement::Dash { degree, octave, position, duration } => ParsedElementView::Dash { degree, octave, position, duration },
            ParsedElement::Barline { style, position, tala } => ParsedElementView::Barline { style: style@, position, tala },
            ParsedElement::Whitespace { value, position } => ParsedElementView::Whitespace { value: value@, position },
            ParsedElement::Symbol { value, position } => ParsedElementView::Symbol { value: value@, position },
            ParsedElement::Unknown { value, position } => ParsedElementView::Unknown { value: value@, position },
            ParsedElement::Newline { value, position } => ParsedElementView::Newline { value: value@, position },
            ParsedElement::EndOfInput { position } => ParsedElementView::EndOfInput { position },
        }
    }
}

/// The views of a list of elements.
pub open spec fn elements_view(v: Seq<ParsedElement>) -> Seq<ParsedElementView> {
    v.map_values(|e: ParsedElement| e@)
}

/// A note with a child appended (and its octave replaced when `octave` is given);
/// other elements are unchanged.
pub open spec fn note_with_child(e: ParsedElementView, child: ParsedChildView, octave: Option<i8>) -> ParsedElementView {
    match e {
        ParsedElementView::Note { degree, octave: o, value, position, children, duration, beat_group, slur_position, in_beat_group } =>
            ParsedElementView::Note {
                degree,
                octave: if octave is Some { octave->0 } else { o },
                value,
                position,
                children: children.push(child),
                duration,
                beat_group,
                slur_position,
                in_beat_group,
            },
        _ => e,
    }
}

/// Appends a child to the note at `idx` (replacing its octave when `octave` is given).
pub fn add_child_to_note(elements: &mut Vec<ParsedElement>, idx: usize, child: ParsedChild, octave: Option<i8>)
    requires
        idx < old(elements)@.len(),
    ensures
        final(elements)@.len() == old(elements)@.len(),
        elements_view(final(elements)@) == elements_view(old(elements)@).update(
            idx as int, note_with_child(old(elements)@[idx as int]@, child@, octave)),
{
    let ghost before = elements@;
    let e = elements.remove(idx);
    let updated = match e {
        ParsedElement::Note { degree, octave: o, value, position, mut children, duration, beat_group, slur_position, in_beat_group } => {
            let ghost cv = child@;
            let ghost old_children = children@;
            children.push(child);
            assert(children_view(children@) =~= children_view(old_children).push(cv));
            let new_octave = match octave { Some(v) => v, None => o };
            ParsedElement::Note { degree, octave: new_octave, value, position, children, duration, beat_group, slur_position, in_beat_group }
        },
        other => other,
    };
    elements.insert(idx, updated);
    assert(elements_view(elements@) =~= elements_view(before).update(
        idx as int, note_with_child(before[idx as int]@, child@, octave)));
}

} // verus!
