//! The second rhythm state machine: parsed elements are grouped into beats
//! (a note opens or joins a beat, a dash lengthens the beat's last element or
//! opens a beat continuing the previous note, whitespace, bar lines and
//! breath marks close it), and each beat element gets its duration.
use vstd::prelude::*;
use crate::pitch::Degree;
use crate::rhythm::types::{ParsedElement, ParsedElementView, ParsedChild, ParsedChildView, OrnamentType, Position, SlurPosition,
    elements_view, children_view};
use crate::rhythm_fsm::{copy_element, degree_debug_name, degree_name, position_of, is_pow2, is_power_of_two,
    lower_power_of_2, find_next_lower_power_of_2, lemma_lower_power_of_2, is_breath, rest_view, reduced,
    element_position, rest_for, is_breath_mark};
use crate::rhythm_fsm_v2_clean::{reduce, reduce_fraction};
use crate::vexflow_measure::{child_ornaments, first_syllable, child_ornaments_of, first_syllable_of};
use crate::models::copy_string;
use crate::text::str_eq;

verus! {

/// The kind of element a beat element was made from.
#[derive(Clone, Copy, Debug, PartialEq, Eq, Structural)]
pub enum ParsedElementType {
    Note,
    Rest,
    Dash,
    Barline,
    SlurStart,
    SlurEnd,
    Whitespace,
    Newline,
    Word,
    Symbol,
    Unknown,
}

/// An element of a beat: its subdivision count and durations, the fields of
/// the parsed element it was made from, and what its children hold.
#[derive(Debug)]
pub struct BeatElement {
    pub subdivisions: usize,
    /// Share of the beat, in lowest terms.
    pub duration: (usize, usize),
    /// Duration as written: in a tuplet of base `p`, `subdivisions/(4p)`.
    pub tuplet_duration: (usize, usize),
    pub degree: Option<Degree>,
    pub octave: Option<i8>,
    pub value: String,
    pub position: Position,
    pub children: Vec<ParsedChild>,
    /// Duration the parsed element came with.
    pub element_duration: Option<(usize, usize)>,
    /// Text of the first syllable child.
    pub syl: Option<String>,
    pub ornaments: Vec<OrnamentType>,
    pub octave_markers: Vec<String>,
    pub element_type: ParsedElementType,
}

/// A beat element as plain values.
pub struct BeatElementView {
    pub subdivisions: usize,
    pub duration: (usize, usize),
    pub tuplet_duration: (usize, usize),
    pub degree: Option<Degree>,
    pub octave: Option<i8>,
    pub value: Seq<char>,
    pub position: Position,
    pub children: Seq<ParsedChildView>,
    pub element_duration: Option<(usize, usize)>,
    pub syl: Option<Seq<char>>,
    pub ornaments: Seq<OrnamentType>,
    pub octave_markers: Seq<Seq<char>>,
    pub element_type: ParsedElementType,
}

impl View for BeatElement {
    type V = BeatElementView;

    open spec fn view(&self) -> BeatElementView {
        BeatElementView {
            subdivisions: self.subdivisions,
            duration: self.duration,
            tuplet_duration: self.tuplet_duration,
            degree: self.degree,
            octave: self.octave,
            value: self.value@,
            position: self.position,
            children: children_view(self.children@),
            element_duration: self.element_duration,
            syl: match self.syl { Some(s) => Some(s@), None => None },
            ornaments: self.ornaments@,
            octave_markers: self.octave_markers@.map_values(|s: String| s@),
            element_type: self.element_type,
        }
    }
}

/// The symbols of the octave marker children, in order.
pub open spec fn child_octave_markers(c: Seq<ParsedChildView>) -> Seq<Seq<char>>
    decreases c.len(),
{
    if c.len() == 0 {
        Seq::empty()
    } else {
        child_octave_markers(c.drop_last()) + match c.last() {
            ParsedChildView::OctaveMarker { symbol, .. } => seq![symbol],
            _ => Seq::empty(),
        }
    }
}

/// The beat element made from a parsed element, with one subdivision and no
/// duration yet (0/1). Notes keep their pitch, text and children; a dash is
/// written `-`, whitespace ` `, a newline `\n`; the end of input reads as an
/// unknown element without text.
pub open spec fn beat_element_of(e: ParsedElementView) -> BeatElementView {
    let (degree, octave, value, position, children, element_duration, element_type):
        (Option<Degree>, Option<i8>, Seq<char>, Position, Seq<ParsedChildView>, Option<(usize, usize)>, ParsedElementType) = match e {
        ParsedElementView::Note { degree, octave, value, position, children, duration, .. } =>
            (Some(degree), Some(octave), value, position, children, duration, ParsedElementType::Note),
        ParsedElementView::Rest { value, position, duration } =>
            (None, None, value, position, Seq::empty(), duration, ParsedElementType::Rest),
        ParsedElementView::Dash { degree, octave, position, duration } =>
            (degree, octave, "-"@, position, Seq::empty(), duration, ParsedElementType::Dash),
        ParsedElementView::Barline { style, position, .. } =>
            (None, None, style, position, Seq::empty(), None, ParsedElementType::Barline),
        ParsedElementView::Whitespace { position, .. } =>
            (None, None, " "@, position, Seq::empty(), None, ParsedElementType::Whitespace),
        ParsedElementView::Newline { position, .. } =>
            (None, None, "\n"@, position, Seq::empty(), None, ParsedElementType::Newline),
        ParsedElementView::Symbol { value, position } =>
            (None, None, value, position, Seq::empty(), None, ParsedElementType::Symbol),
        ParsedElementView::Unknown { value, position } =>
            (None, None, value, position, Seq::empty(), None, ParsedElementType::Unknown),
        ParsedElementView::EndOfInput { position } =>
            (None, None, Seq::empty(), position, Seq::empty(), None, ParsedElementType::Unknown),
    };
    BeatElementView {
        subdivisions: 1,
        duration: (0, 1),
        tuplet_duration: (0, 1),
        degree,
        octave,
        value,
        position,
        children,
        element_duration,
        syl: first_syllable(children),
        ornaments: child_ornaments(children),
        octave_markers: child_octave_markers(children),
        element_type,
    }
}

fn child_octave_markers_of(children: &Vec<ParsedChild>) -> (r: Vec<String>)
    ensures
        r@.map_values(|s: String| s@) == child_octave_markers(children_view(children@)),
{
    let ghost cv = children_view(children@);
    let mut r: Vec<String> = Vec::new();
    let mut i: usize = 0;
    proof {
        assert(cv.take(0) =~= Seq::<ParsedChildView>::empty());
        assert(r@.map_values(|s: String| s@) =~= Seq::<Seq<char>>::empty());
    }
    while i < children.len()
        invariant
            cv == children_view(children@),
            i <= children@.len(),
            r@.map_values(|s: String| s@) == child_octave_markers(cv.take(i as int)),
        decreases children@.len() - i,
    {
        let ghost t = cv.take(i + 1);
        let ghost before = r@;
        proof {
            assert(t.drop_last() =~= cv.take(i as int));
            assert(t.last() == children@[i as int]@);
        }
        match &children[i] {
            ParsedChild::OctaveMarker { symbol, .. } => {
                r.push(copy_string(symbol));
                proof {
                    assert(r@.map_values(|s: String| s@) =~= before.map_values(|s: String| s@).push(symbol@));
                }
            },
            _ => {},
        }
        proof {
            assert(r@.map_values(|s: String| s@) =~= child_octave_markers(t));
        }
        i = i + 1;
    }
    proof {
        assert(cv.take(i as int) =~= cv);
    }
    r
}

impl BeatElement {
    /// The beat element made from a parsed element (see `beat_element_of`).
    pub fn from(element: ParsedElement) -> (r: Self)
        ensures
            r@ == beat_element_of(element@),
    {
        proof {
            reveal_strlit("-");
            reveal_strlit(" ");
            reveal_strlit("\n");
            reveal_strlit("");
        }
        let empty: Vec<ParsedChild> = Vec::new();
        proof {
            assert(children_view(empty@) =~= Seq::<ParsedChildView>::empty());
        }
        let (degree, octave, value, position, children, element_duration, element_type) = match element {
            ParsedElement::Note { degree, octave, value, position, children, duration, .. } =>
                (Some(degree), Some(octave), value, position, children, duration, ParsedElementType::Note),
            ParsedElement::Rest { value, position, duration } =>
                (None, None, value, position, empty, duration, ParsedElementType::Rest),
            ParsedElement::Dash { degree, octave, position, duration } =>
                (degree, octave, "-".to_owned(), position, empty, duration, ParsedElementType::Dash),
            ParsedElement::Barline { style, position, .. } =>
                (None, None, style, position, empty, None, ParsedElementType::Barline),
            ParsedElement::Whitespace { position, .. } =>
                (None, None, " ".to_owned(), position, empty, None, ParsedElementType::Whitespace),
            ParsedElement::Newline { position, .. } =>
                (None, None, "\n".to_owned(), position, empty, None, ParsedElementType::Newline),
            ParsedElement::Symbol { value, position } =>
                (None, None, value, position, empty, None, ParsedElementType::Symbol),
            ParsedElement::Unknown { value, position } =>
                (None, None, value, position, empty, None, ParsedElementType::Unknown),
            ParsedElement::EndOfInput { position } =>
                (None, None, String::new(), position, empty, None, ParsedElementType::Unknown),
        };
        let syl = first_syllable_of(&children);
        let ornaments = child_ornaments_of(&children);
        let octave_markers = child_octave_markers_of(&children);
        BeatElement {
            subdivisions: 1,
            duration: (0, 1),
            tuplet_duration: (0, 1),
            degree,
            octave,
            value,
            position,
            children,
            element_duration,
            syl,
            ornaments,
            octave_markers,
            element_type,
        }
    }

    /// The element with its subdivision count set.
    pub fn with_subdivisions(self, subdivisions: usize) -> (r: Self)
        ensures
            r@ == (BeatElementView { subdivisions, ..self@ }),
    {
        let mut s = self;
        s.subdivisions = subdivisions;
        s
    }

    /// Lengthens the element by one subdivision.
    pub fn extend_subdivision(&mut self)
        requires
            old(self).subdivisions < usize::MAX,
        ensures
            final(self)@ == (BeatElementView { subdivisions: (old(self).subdivisions + 1) as usize, ..old(self)@ }),
    {
        self.subdivisions = self.subdivisions + 1;
    }

    /// Whether the element was made from a note.
    pub fn is_note(&self) -> (r: bool)
        ensures
            r == (self.element_type == ParsedElementType::Note),
    {
        self.element_type == ParsedElementType::Note
    }

    /// Whether the element was made from a rest.
    pub fn is_rest(&self) -> (r: bool)
        ensures
            r == (self.element_type == ParsedElementType::Rest),
    {
        self.element_type == ParsedElementType::Rest
    }

    /// Whether the element was made from a dash.
    pub fn is_dash(&self) -> (r: bool)
        ensures
            r == (self.element_type == ParsedElementType::Dash),
    {
        self.element_type == ParsedElementType::Dash
    }

    /// Whether the element was made from a bar line.
    pub fn is_barline(&self) -> (r: bool)
        ensures
            r == (self.element_type == ParsedElementType::Barline),
    {
        self.element_type == ParsedElementType::Barline
    }

    /// Whether the element was made from a slur start.
    pub fn is_slur_start(&self) -> (r: bool)
        ensures
            r == (self.element_type == ParsedElementType::SlurStart),
    {
        self.element_type == ParsedElementType::SlurStart
    }

    /// Whether the element was made from a slur end.
    pub fn is_slur_end(&self) -> (r: bool)
        ensures
            r == (self.element_type == ParsedElementType::SlurEnd),
    {
        self.element_type == ParsedElementType::SlurEnd
    }
}


/// A beat of the machine's output.
#[derive(Debug)]
pub struct BeatV2 {
    pub divisions: usize,
    pub elements: Vec<BeatElement>,
    pub tied_to_previous: bool,
    pub is_tuplet: bool,
    /// For a tuplet: its subdivision count and the power of two it is played in.
    pub tuplet_ratio: Option<(usize, usize)>,
}

/// A beat as plain values.
pub struct BeatV2View {
    pub divisions: usize,
    pub elements: Seq<BeatElementView>,
    pub tied_to_previous: bool,
    pub is_tuplet: bool,
    pub tuplet_ratio: Option<(usize, usize)>,
}

/// The views of beat elements.
pub open spec fn beat_elements_view(v: Seq<BeatElement>) -> Seq<BeatElementView> {
    v.map_values(|e: BeatElement| e@)
}

impl View for BeatV2 {
    type V = BeatV2View;

    open spec fn view(&self) -> BeatV2View {
        BeatV2View {
            divisions: self.divisions,
            elements: beat_elements_view(self.elements@),
            tied_to_previous: self.tied_to_previous,
            is_tuplet: self.is_tuplet,
            tuplet_ratio: self.tuplet_ratio,
        }
    }
}

/// An item of the machine's output.
#[derive(Debug)]
pub enum OutputItemV2 {
    Beat(BeatV2),
    /// A bar line with its style.
    Barline(String),
    Breathmark,
    SlurStart,
    SlurEnd,
}

/// An output item as plain values.
pub enum OutputItemV2View {
    Beat(BeatV2View),
    Barline(Seq<char>),
    Breathmark,
    SlurStart,
    SlurEnd,
}

impl View for OutputItemV2 {
    type V = OutputItemV2View;

    open spec fn view(&self) -> OutputItemV2View {
        match self {
            OutputItemV2::Beat(b) => OutputItemV2View::Beat(b@),
            OutputItemV2::Barline(s) => OutputItemV2View::Barline(s@),
            OutputItemV2::Breathmark => OutputItemV2View::Breathmark,
            OutputItemV2::SlurStart => OutputItemV2View::SlurStart,
            OutputItemV2::SlurEnd => OutputItemV2View::SlurEnd,
        }
    }
}

/// The views of output items.
pub open spec fn output_view(v: Seq<OutputItemV2>) -> Seq<OutputItemV2View> {
    v.map_values(|i: OutputItemV2| i@)
}

/// The machine's control states.
#[derive(Clone, Copy, Debug, PartialEq, Eq, Structural)]
pub enum State {
    /// Between beats.
    S0,
    /// Building a beat.
    InBeat,
    /// Done.
    Halt,
}

/// The machine's state: control state, output so far, beat being built.
pub struct FsmV2View {
    pub state: State,
    pub output: Seq<OutputItemV2View>,
    pub current_beat: Option<BeatV2View>,
}

/// The state before any element.
pub open spec fn fsm_v2_initial() -> FsmV2View {
    FsmV2View { state: State::S0, output: Seq::empty(), current_beat: None }
}

/// A beat of one element of one subdivision.
pub open spec fn single_beat(e: BeatElementView, tied: bool) -> BeatV2View {
    BeatV2View { divisions: 1, elements: seq![e], tied_to_previous: tied, is_tuplet: false, tuplet_ratio: None }
}

/// Opens a beat with a note.
pub open spec fn start_beat_pitch(m: FsmV2View, e: ParsedElementView) -> FsmV2View {
    FsmV2View { current_beat: Some(single_beat(beat_element_of(e), false)), state: State::InBeat, ..m }
}

/// The last element of a list that was not made from a dash.
pub open spec fn last_non_dash_in(es: Seq<BeatElementView>) -> Option<BeatElementView>
    decreases es.len(),
{
    if es.len() == 0 {
        None
    } else if es.last().element_type != ParsedElementType::Dash {
        Some(es.last())
    } else {
        last_non_dash_in(es.drop_last())
    }
}

/// The last beat element of the output that was not made from a dash.
pub open spec fn last_non_dash(out: Seq<OutputItemV2View>) -> Option<BeatElementView>
    decreases out.len(),
{
    if out.len() == 0 {
        None
    } else {
        match out.last() {
            OutputItemV2View::Beat(b) => match last_non_dash_in(b.elements) {
                Some(x) => Some(x),
                None => last_non_dash(out.drop_last()),
            },
            _ => last_non_dash(out.drop_last()),
        }
    }
}

/// The note a dash at `position` continues: the pitch and octave of `prev`,
/// written as the pitch's name.
pub open spec fn tied_note(prev: BeatElementView, position: Position) -> ParsedElementView {
    ParsedElementView::Note {
        degree: prev.degree.unwrap(), octave: prev.octave.unwrap(), value: degree_name(prev.degree.unwrap()), position,
        children: Seq::empty(), duration: None, beat_group: None, slur_position: SlurPosition::Unslurred, in_beat_group: false,
    }
}

/// Opens a beat with a rest for a dash.
pub open spec fn create_rest_beat(m: FsmV2View, dash: ParsedElementView) -> FsmV2View {
    FsmV2View { current_beat: Some(single_beat(beat_element_of(rest_view(position_of(dash))), false)), state: State::InBeat, ..m }
}

/// Opens a beat with a dash: it continues the last note output before it
/// (a tied beat), or is a rest when the last element output was no note.
pub open spec fn start_beat_dash(m: FsmV2View, dash: ParsedElementView) -> FsmV2View {
    match last_non_dash(m.output) {
        Some(prev) => if prev.element_type == ParsedElementType::Note && prev.degree is Some {
            FsmV2View {
                current_beat: Some(single_beat(beat_element_of(tied_note(prev, position_of(dash))), true)),
                state: State::InBeat,
                ..m
            }
        } else {
            create_rest_beat(m, dash)
        },
        None => create_rest_beat(m, dash),
    }
}

/// A dash lengthens the beat and its last element by one subdivision.
pub open spec fn extend_last_element(m: FsmV2View) -> FsmV2View {
    match m.current_beat {
        Some(b) => FsmV2View {
            current_beat: Some(BeatV2View {
                divisions: (b.divisions + 1) as usize,
                elements: if b.elements.len() > 0 {
                    b.elements.update(b.elements.len() - 1,
                        BeatElementView { subdivisions: (b.elements.last().subdivisions + 1) as usize, ..b.elements.last() })
                } else {
                    b.elements
                },
                ..b
            }),
            ..m
        },
        None => m,
    }
}

/// A note joins the beat with one subdivision.
pub open spec fn add_pitch_to_beat(m: FsmV2View, e: ParsedElementView) -> FsmV2View {
    match m.current_beat {
        Some(b) => FsmV2View {
            current_beat: Some(BeatV2View {
                divisions: (b.divisions + 1) as usize,
                elements: b.elements.push(beat_element_of(e)),
                ..b
            }),
            ..m
        },
        None => m,
    }
}

/// Whether a beat is a tuplet: more than one element over a subdivision
/// count that is not a power of two.
pub open spec fn beat_is_tuplet(b: BeatV2View) -> bool {
    b.elements.len() > 1 && b.divisions > 1 && !is_pow2(b.divisions as nat)
}

/// An element of a closed beat with its durations: in a tuplet of base `p`
/// its share `s/divisions` of the beat and the written `s/(4p)`; otherwise
/// both `s/(4·divisions)`.
pub open spec fn timed_element(e: BeatElementView, divisions: usize, tuplet: bool, p: nat) -> BeatElementView {
    if tuplet {
        BeatElementView {
            duration: reduced(e.subdivisions as nat, divisions as nat),
            tuplet_duration: reduced(e.subdivisions as nat, 4 * p),
            ..e
        }
    } else {
        BeatElementView {
            duration: reduced(e.subdivisions as nat, 4 * divisions as nat),
            tuplet_duration: reduced(e.subdivisions as nat, 4 * divisions as nat),
            ..e
        }
    }
}

/// The closed form of a beat: tuplet flag and ratio, and timed elements.
pub open spec fn closed_beat_v2(b: BeatV2View) -> BeatV2View {
    let tuplet = beat_is_tuplet(b);
    let p = lower_power_of_2(b.divisions as nat);
    BeatV2View {
        divisions: b.divisions,
        elements: Seq::new(b.elements.len(), |i: int| timed_element(b.elements[i], b.divisions, tuplet, p)),
        tied_to_previous: b.tied_to_previous,
        is_tuplet: tuplet,
        tuplet_ratio: if tuplet { Some((b.divisions, p as usize)) } else { b.tuplet_ratio },
    }
}

/// Closes the beat being built, if any, into the output.
pub open spec fn finish_beat_v2(m: FsmV2View) -> FsmV2View {
    match m.current_beat {
        Some(b) => FsmV2View { current_beat: None, output: m.output.push(OutputItemV2View::Beat(closed_beat_v2(b))), ..m },
        None => m,
    }
}

/// Whether an element separates beats: whitespace or a newline.
pub open spec fn is_separator(e: ParsedElementView) -> bool {
    e is Whitespace || e is Newline
}

/// The style of a bar line element.
pub open spec fn barline_style(e: ParsedElementView) -> Seq<char> {
    match e {
        ParsedElementView::Barline { style, .. } => style,
        _ => Seq::empty(),
    }
}

/// One element's transition. Between beats: a bar line or breath mark is
/// output, a dash or note opens a beat; in a beat: a bar line, separator or
/// breath mark closes it (bar lines and breath marks are then output), a dash
/// lengthens it, a note joins it. Anything else changes nothing.
pub open spec fn fsm_v2_step(m: FsmV2View, e: ParsedElementView) -> FsmV2View {
    match m.state {
        State::S0 =>
            if e is Barline { FsmV2View { output: m.output.push(OutputItemV2View::Barline(barline_style(e))), ..m } }
            else if is_separator(e) { m }
            else if is_breath(e) { FsmV2View { output: m.output.push(OutputItemV2View::Breathmark), ..m } }
            else if e is Dash { start_beat_dash(m, e) }
            else if e is Note { start_beat_pitch(m, e) }
            else { m },
        State::InBeat =>
            if e is Barline || is_separator(e) {
                let f = finish_beat_v2(m);
                FsmV2View {
                    state: State::S0,
                    output: if e is Barline { f.output.push(OutputItemV2View::Barline(barline_style(e))) } else { f.output },
                    ..f
                }
            } else if is_breath(e) {
                let f = finish_beat_v2(m);
                FsmV2View { state: State::S0, output: f.output.push(OutputItemV2View::Breathmark), ..f }
            } else if e is Dash { extend_last_element(m) }
            else if e is Note { add_pitch_to_beat(m, e) }
            else { m },
        State::Halt => m,
    }
}

/// The state after a sequence of elements.
pub open spec fn fsm_v2_run(s: Seq<ParsedElementView>) -> FsmV2View
    decreases s.len(),
{
    if s.len() == 0 { fsm_v2_initial() } else { fsm_v2_step(fsm_v2_run(s.drop_last()), s.last()) }
}

/// The output for a sequence of elements: the run, with a beat still open at
/// the end closed.
pub open spec fn fsm_v2_output(s: Seq<ParsedElementView>) -> Seq<OutputItemV2View> {
    let m = fsm_v2_run(s);
    if m.state == State::InBeat { finish_beat_v2(m).output } else { m.output }
}

/// Whether every note element of a list has its pitch and octave.
pub open spec fn notes_pitched(es: Seq<BeatElementView>) -> bool {
    forall|i: int| 0 <= i < es.len() && #[trigger] es[i].element_type == ParsedElementType::Note
        ==> es[i].degree is Some && es[i].octave is Some
}

/// Whether every note element of every beat of an output has its pitch and octave.
pub open spec fn output_pitched(out: Seq<OutputItemV2View>) -> bool {
    forall|j: int| 0 <= j < out.len() ==> match #[trigger] out[j] {
        OutputItemV2View::Beat(b) => notes_pitched(b.elements),
        _ => true,
    }
}

/// Invariant of the machine after `k` elements: it is not halted; it builds a
/// beat exactly in state `InBeat`; that beat has between 1 and `k`
/// subdivisions, at least one element and none longer than the beat; and
/// all notes built have their pitch and octave.
pub open spec fn fsm_v2_wf(m: FsmV2View, k: nat) -> bool {
    &&& m.state != State::Halt
    &&& (m.state == State::InBeat <==> m.current_beat is Some)
    &&& (m.current_beat matches Some(b) ==> {
        &&& 1 <= b.divisions <= k
        &&& b.elements.len() >= 1
        &&& forall|i: int| 0 <= i < b.elements.len() ==> #[trigger] b.elements[i].subdivisions <= b.divisions
        &&& notes_pitched(b.elements)
    })
    &&& output_pitched(m.output)
}

proof fn lemma_last_non_dash_in_pitched(es: Seq<BeatElementView>)
    requires
        notes_pitched(es),
    ensures
        last_non_dash_in(es) matches Some(p) ==> (p.element_type == ParsedElementType::Note ==> p.degree is Some && p.octave is Some),
    decreases es.len(),
{
    if es.len() > 0 {
        assert(es.last() == es[es.len() - 1]);
        assert(notes_pitched(es.drop_last())) by {
            assert forall|i: int| 0 <= i < es.drop_last().len() && #[trigger] es.drop_last()[i].element_type == ParsedElementType::Note
                implies es.drop_last()[i].degree is Some && es.drop_last()[i].octave is Some by {
                assert(es.drop_last()[i] == es[i]);
            }
        }
        lemma_last_non_dash_in_pitched(es.drop_last());
    }
}

proof fn lemma_last_non_dash_pitched(out: Seq<OutputItemV2View>)
    requires
        output_pitched(out),
    ensures
        last_non_dash(out) matches Some(p) ==> (p.element_type == ParsedElementType::Note ==> p.degree is Some && p.octave is Some),
    decreases out.len(),
{
    if out.len() > 0 {
        assert(out.last() == out[out.len() - 1]);
        if let OutputItemV2View::Beat(b) = out.last() {
            lemma_last_non_dash_in_pitched(b.elements);
        }
        assert(output_pitched(out.drop_last())) by {
            assert forall|j: int| 0 <= j < out.drop_last().len() implies match #[trigger] out.drop_last()[j] {
                OutputItemV2View::Beat(b) => notes_pitched(b.elements),
                _ => true,
            } by {
                assert(out.drop_last()[j] == out[j]);
            }
        }
        lemma_last_non_dash_pitched(out.drop_last());
    }
}

proof fn lemma_beat_element_of_pitched(e: ParsedElementView)
    ensures
        beat_element_of(e).element_type == ParsedElementType::Note ==> beat_element_of(e).degree is Some && beat_element_of(e).octave is Some,
{
}

proof fn lemma_single_beat_wf(e: BeatElementView, tied: bool, k: nat)
    requires
        k >= 1,
        e.subdivisions == 1,
        e.element_type == ParsedElementType::Note ==> e.degree is Some && e.octave is Some,
    ensures
        ({
            let b = single_beat(e, tied);
            &&& 1 <= b.divisions <= k
            &&& b.elements.len() >= 1
            &&& forall|i: int| 0 <= i < b.elements.len() ==> #[trigger] b.elements[i].subdivisions <= b.divisions
            &&& notes_pitched(b.elements)
        }),
{
    let b = single_beat(e, tied);
    assert(b.elements[0] == e);
}

proof fn lemma_closed_beat_pitched(b: BeatV2View)
    requires
        notes_pitched(b.elements),
    ensures
        notes_pitched(closed_beat_v2(b).elements),
{
    let c = closed_beat_v2(b);
    assert forall|i: int| 0 <= i < c.elements.len() && #[trigger] c.elements[i].element_type == ParsedElementType::Note
        implies c.elements[i].degree is Some && c.elements[i].octave is Some by {
        assert(c.elements[i].element_type == b.elements[i].element_type);
    }
}

proof fn lemma_push_pitched(out: Seq<OutputItemV2View>, x: OutputItemV2View)
    requires
        output_pitched(out),
        x matches OutputItemV2View::Beat(b) ==> notes_pitched(b.elements),
    ensures
        output_pitched(out.push(x)),
{
    assert forall|j: int| 0 <= j < out.push(x).len() implies match #[trigger] out.push(x)[j] {
        OutputItemV2View::Beat(b) => notes_pitched(b.elements),
        _ => true,
    } by {
        if j < out.len() {
            assert(out.push(x)[j] == out[j]);
        }
    }
}

proof fn lemma_finish_wf(m: FsmV2View, k: nat)
    requires
        fsm_v2_wf(m, k),
    ensures
        output_pitched(finish_beat_v2(m).output),
        finish_beat_v2(m).current_beat is None,
        finish_beat_v2(m).state == m.state,
{
    if let Some(b) = m.current_beat {
        lemma_closed_beat_pitched(b);
        lemma_push_pitched(m.output, OutputItemV2View::Beat(closed_beat_v2(b)));
    }
}

proof fn lemma_step_wf(m: FsmV2View, e: ParsedElementView, k: nat)
    requires
        fsm_v2_wf(m, k),
        k < usize::MAX,
    ensures
        fsm_v2_wf(fsm_v2_step(m, e), k + 1),
{
    lemma_beat_element_of_pitched(e);
    lemma_finish_wf(m, k);
    lemma_last_non_dash_pitched(m.output);
    match m.state {
        State::S0 => {
            if e is Barline {
                lemma_push_pitched(m.output, OutputItemV2View::Barline(barline_style(e)));
            } else if is_separator(e) {
            } else if is_breath(e) {
                lemma_push_pitched(m.output, OutputItemV2View::Breathmark);
            } else if e is Dash {
                lemma_beat_element_of_pitched(rest_view(position_of(e)));
                match last_non_dash(m.output) {
                    Some(prev) => {
                        if prev.element_type == ParsedElementType::Note && prev.degree is Some {
                            let t = beat_element_of(tied_note(prev, position_of(e)));
                            lemma_single_beat_wf(t, true, k + 1);
                        } else {
                            lemma_single_beat_wf(beat_element_of(rest_view(position_of(e))), false, k + 1);
                        }
                    },
                    None => {
                        lemma_single_beat_wf(beat_element_of(rest_view(position_of(e))), false, k + 1);
                    },
                }
            } else if e is Note {
                lemma_single_beat_wf(beat_element_of(e), false, k + 1);
            }
        },
        State::InBeat => {
            let f = finish_beat_v2(m);
            if e is Barline || is_separator(e) {
                if e is Barline {
                    lemma_push_pitched(f.output, OutputItemV2View::Barline(barline_style(e)));
                }
            } else if is_breath(e) {
                lemma_push_pitched(f.output, OutputItemV2View::Breathmark);
            } else if e is Dash {
                let b = m.current_beat.unwrap();
                let n = b.elements.len();
                let last = b.elements.last();
                let upd = b.elements.update(n - 1, BeatElementView { subdivisions: (last.subdivisions + 1) as usize, ..last });
                assert(b.elements[n - 1].subdivisions <= b.divisions);
                assert forall|i: int| 0 <= i < upd.len() implies #[trigger] upd[i].subdivisions <= b.divisions + 1 by {
                    if i < n - 1 { assert(upd[i] == b.elements[i]); }
                }
                assert forall|i: int| 0 <= i < upd.len() && #[trigger] upd[i].element_type == ParsedElementType::Note
                    implies upd[i].degree is Some && upd[i].octave is Some by {
                    if i < n - 1 { assert(upd[i] == b.elements[i]); } else { assert(b.elements[n - 1] == last); }
                }
            } else if e is Note {
                let b = m.current_beat.unwrap();
                let pushed = b.elements.push(beat_element_of(e));
                assert forall|i: int| 0 <= i < pushed.len() implies #[trigger] pushed[i].subdivisions <= b.divisions + 1 by {
                    if i < b.elements.len() { assert(pushed[i] == b.elements[i]); }
                }
                assert forall|i: int| 0 <= i < pushed.len() && #[trigger] pushed[i].element_type == ParsedElementType::Note
                    implies pushed[i].degree is Some && pushed[i].octave is Some by {
                    if i < b.elements.len() { assert(pushed[i] == b.elements[i]); }
                }
            }
        },
        State::Halt => {},
    }
}

proof fn lemma_run_wf(s: Seq<ParsedElementView>)
    requires
        s.len() <= usize::MAX,
    ensures
        fsm_v2_wf(fsm_v2_run(s), s.len()),
    decreases s.len(),
{
    if s.len() > 0 {
        lemma_run_wf(s.drop_last());
        lemma_step_wf(fsm_v2_run(s.drop_last()), s.last(), s.drop_last().len());
    } else {
        assert(output_pitched(Seq::<OutputItemV2View>::empty()));
    }
}


/// The machine over parsed elements.
struct FSMV2 {
    state: State,
    output: Vec<OutputItemV2>,
    current_beat: Option<BeatV2>,
}

impl View for FSMV2 {
    type V = FsmV2View;

    closed spec fn view(&self) -> FsmV2View {
        FsmV2View {
            state: self.state,
            output: output_view(self.output@),
            current_beat: match self.current_beat { Some(b) => Some(b@), None => None },
        }
    }
}

fn single_beat_of(e: BeatElement, tied: bool) -> (b: BeatV2)
    ensures
        b@ == single_beat(e@, tied),
{
    let mut elements: Vec<BeatElement> = Vec::new();
    let ghost ev = e@;
    elements.push(e);
    let b = BeatV2 { divisions: 1, elements, tied_to_previous: tied, is_tuplet: false, tuplet_ratio: None };
    assert(beat_elements_view(b.elements@) =~= seq![ev]);
    b
}

fn is_barline_element(e: &ParsedElement) -> (r: bool)
    ensures
        r == (e@ is Barline),
{
    match e {
        ParsedElement::Barline { .. } => true,
        _ => false,
    }
}

fn is_separator_element(e: &ParsedElement) -> (r: bool)
    ensures
        r == is_separator(e@),
{
    match e {
        ParsedElement::Whitespace { .. } | ParsedElement::Newline { .. } => true,
        _ => false,
    }
}

fn style_of(e: &ParsedElement) -> (r: String)
    ensures
        r@ == barline_style(e@),
{
    match e {
        ParsedElement::Barline { style, .. } => copy_string(style),
        _ => {
            proof {
                reveal_strlit("");
            }
            String::new()
        },
    }
}

fn time_elements(v: Vec<BeatElement>, divisions: usize, tuplet: bool, power: usize) -> (r: Vec<BeatElement>)
    requires
        1 <= divisions <= usize::MAX / 8,
        tuplet ==> 2 <= power < divisions,
    ensures
        beat_elements_view(r@) == Seq::new(v@.len(), |i: int| timed_element(v@[i]@, divisions, tuplet, power as nat)),
{
    let ghost orig = beat_elements_view(v@);
    let ghost target = Seq::new(v@.len(), |i: int| timed_element(v@[i]@, divisions, tuplet, power as nat));
    let mut rest = v;
    let mut out: Vec<BeatElement> = Vec::new();
    let ghost mut k: int = 0;
    while rest.len() > 0
        invariant
            1 <= divisions <= usize::MAX / 8,
            tuplet ==> 2 <= power < divisions,
            0 <= k <= orig.len(),
            orig.len() == target.len(),
            beat_elements_view(rest@) == orig.skip(k),
            beat_elements_view(out@) == target.take(k),
            forall|i: int| 0 <= i < target.len() ==> #[trigger] target[i] == timed_element(orig[i], divisions, tuplet, power as nat),
        decreases rest@.len(),
    {
        let ghost before = rest@;
        let mut e = rest.remove(0);
        proof {
            assert(beat_elements_view(rest@) =~= beat_elements_view(before).skip(1));
            assert(orig.skip(k).skip(1) =~= orig.skip(k + 1));
            assert(beat_elements_view(before)[0] == orig.skip(k)[0]);
            assert(orig[k] == e@);
        }
        let sub = e.subdivisions;
        if tuplet {
            e.duration = reduce_fraction(sub, divisions);
            e.tuplet_duration = reduce_fraction(sub, 4 * power);
        } else {
            let d = reduce_fraction(sub, 4 * divisions);
            e.duration = d;
            e.tuplet_duration = d;
        }
        proof {
            assert(e@ == target[k]);
        }
        let ghost prev = out@;
        out.push(e);
        proof {
            assert(beat_elements_view(out@) =~= beat_elements_view(prev).push(target[k]));
            assert(target.take(k + 1) =~= target.take(k).push(target[k]));
            k = k + 1;
        }
    }
    proof {
        assert(target.take(k) =~= target);
    }
    out
}

proof fn lemma_last_non_dash_take(out: Seq<OutputItemV2View>, i: int)
    requires
        0 < i <= out.len(),
    ensures
        last_non_dash(out.take(i)) == match out[i - 1] {
            OutputItemV2View::Beat(b) => match last_non_dash_in(b.elements) {
                Some(x) => Some(x),
                None => last_non_dash(out.take(i - 1)),
            },
            _ => last_non_dash(out.take(i - 1)),
        },
{
    assert(out.take(i).drop_last() =~= out.take(i - 1));
    assert(out.take(i).last() == out[i - 1]);
}

impl FSMV2 {
    fn new() -> (f: Self)
        ensures
            f@ == fsm_v2_initial(),
    {
        let f = FSMV2 { state: State::S0, output: Vec::new(), current_beat: None };
        assert(output_view(f.output@) =~= Seq::<OutputItemV2View>::empty());
        f
    }

    fn push_item(&mut self, item: OutputItemV2)
        ensures
            final(self)@ == (FsmV2View { output: old(self)@.output.push(item@), ..old(self)@ }),
    {
        let ghost before = self.output@;
        let ghost iv = item@;
        self.output.push(item);
        assert(output_view(self.output@) =~= output_view(before).push(iv));
    }

    fn emit_barline(&mut self, value: String)
        ensures
            final(self)@ == (FsmV2View { output: old(self)@.output.push(OutputItemV2View::Barline(value@)), ..old(self)@ }),
    {
        self.push_item(OutputItemV2::Barline(value));
    }

    fn emit_breathmark(&mut self)
        ensures
            final(self)@ == (FsmV2View { output: old(self)@.output.push(OutputItemV2View::Breathmark), ..old(self)@ }),
    {
        self.push_item(OutputItemV2::Breathmark);
    }

    fn start_beat_pitch(&mut self, element: &ParsedElement)
        ensures
            final(self)@ == start_beat_pitch(old(self)@, element@),
    {
        let e = BeatElement::from(copy_element(element)).with_subdivisions(1);
        self.current_beat = Some(single_beat_of(e, false));
        self.state = State::InBeat;
    }

    fn create_rest_beat(&mut self, dash_element: &ParsedElement)
        ensures
            final(self)@ == create_rest_beat(old(self)@, dash_element@),
    {
        let e = BeatElement::from(rest_for(dash_element)).with_subdivisions(1);
        self.current_beat = Some(single_beat_of(e, false));
        self.state = State::InBeat;
    }

    fn find_last_non_dash_element(&self) -> (r: Option<&BeatElement>)
        ensures
            match r {
                Some(x) => last_non_dash(self@.output) == Some(x@),
                None => last_non_dash(self@.output) is None,
            },
    {
        let ghost out = self@.output;
        let mut i: usize = self.output.len();
        proof {
            assert(out.take(out.len() as int) =~= out);
        }
        while i > 0
            invariant
                out == self@.output,
                out.len() == self.output@.len(),
                i <= out.len(),
                last_non_dash(out) == last_non_dash(out.take(i as int)),
            decreases i,
        {
            proof {
                lemma_last_non_dash_take(out, i as int);
                assert(out[i - 1] == self.output@[i - 1]@);
            }
            match &self.output[i - 1] {
                OutputItemV2::Beat(beat) => {
                    let ghost es = beat@.elements;
                    let mut j: usize = beat.elements.len();
                    proof {
                        assert(es.take(es.len() as int) =~= es);
                        assert(out[i - 1] == OutputItemV2View::Beat(beat@));
                    }
                    let ghost rest = last_non_dash(out.take(i - 1));
                    while j > 0
                        invariant
                            last_non_dash(self@.output) == (match last_non_dash_in(es) { Some(x) => Some(x), None => rest }),
                            es == beat@.elements,
                            es.len() == beat.elements@.len(),
                            j <= es.len(),
                            last_non_dash_in(es) == last_non_dash_in(es.take(j as int)),
                        decreases j,
                    {
                        proof {
                            assert(es.take(j as int).drop_last() =~= es.take(j - 1));
                            assert(es.take(j as int).last() == es[j - 1]);
                            assert(es[j - 1] == beat.elements@[j - 1]@);
                        }
                        if !beat.elements[j - 1].is_dash() {
                            return Some(&beat.elements[j - 1]);
                        }
                        j = j - 1;
                    }
                    proof {
                        assert(es.take(0) =~= Seq::<BeatElementView>::empty());
                    }
                },
                _ => {},
            }
            i = i - 1;
        }
        proof {
            assert(out.take(0) =~= Seq::<OutputItemV2View>::empty());
        }
        None
    }

    fn start_beat_dash(&mut self, dash_element: &ParsedElement)
        requires
            output_pitched(old(self)@.output),
        ensures
            final(self)@ == start_beat_dash(old(self)@, dash_element@),
    {
        proof {
            lemma_last_non_dash_pitched(self@.output);
        }
        let last = self.find_last_non_dash_element();
        let pitch: Option<(Degree, i8)> = match last {
            Some(prev) => {
                if prev.is_note() && prev.degree.is_some() {
                    Some((prev.degree.unwrap(), prev.octave.unwrap()))
                } else {
                    None
                }
            },
            None => None,
        };
        match pitch {
            Some((degree, octave)) => {
                let tied = ParsedElement::Note {
                    degree,
                    octave,
                    value: degree_debug_name(degree),
                    position: element_position(dash_element),
                    children: Vec::new(),
                    duration: None,
                    beat_group: None,
                    slur_position: SlurPosition::Unslurred,
                    in_beat_group: false,
                };
                proof {
                    assert(children_view(Seq::<ParsedChild>::empty()) =~= Seq::empty());
                }
                let e = BeatElement::from(tied).with_subdivisions(1);
                self.current_beat = Some(single_beat_of(e, true));
                self.state = State::InBeat;
            },
            None => {
                self.create_rest_beat(dash_element);
            },
        }
    }

    fn extend_last_element(&mut self)
        requires
            old(self)@.current_beat matches Some(b) ==> b.divisions < usize::MAX
                && (b.elements.len() > 0 ==> b.elements.last().subdivisions < usize::MAX),
        ensures
            final(self)@ == extend_last_element(old(self)@),
    {
        match self.current_beat.take() {
            Some(mut beat) => {
                let ghost before = beat.elements@;
                beat.divisions = beat.divisions + 1;
                if beat.elements.len() > 0 {
                    let mut last = beat.elements.pop().unwrap();
                    last.extend_subdivision();
                    beat.elements.push(last);
                    proof {
                        let bv = beat_elements_view(before);
                        assert(beat_elements_view(beat.elements@) =~= bv.update(bv.len() - 1,
                            BeatElementView { subdivisions: (bv.last().subdivisions + 1) as usize, ..bv.last() }));
                    }
                }
                self.current_beat = Some(beat);
            },
            None => {},
        }
    }

    fn add_pitch_to_beat(&mut self, element: &ParsedElement)
        requires
            old(self)@.current_beat matches Some(b) ==> b.divisions < usize::MAX,
        ensures
            final(self)@ == add_pitch_to_beat(old(self)@, element@),
    {
        match self.current_beat.take() {
            Some(mut beat) => {
                let ghost before = beat.elements@;
                beat.divisions = beat.divisions + 1;
                let e = BeatElement::from(copy_element(element)).with_subdivisions(1);
                let ghost ev = e@;
                beat.elements.push(e);
                assert(beat_elements_view(beat.elements@) =~= beat_elements_view(before).push(ev));
                self.current_beat = Some(beat);
            },
            None => {},
        }
    }

    fn finish_beat(&mut self)
        requires
            old(self)@.current_beat matches Some(b) ==> 1 <= b.divisions <= usize::MAX / 8,
        ensures
            final(self)@ == finish_beat_v2(old(self)@),
    {
        match self.current_beat.take() {
            Some(beat) => {
                let ghost b = beat@;
                let n = beat.elements.len();
                let divisions = beat.divisions;
                let is_tuplet = n > 1 && divisions > 1 && !is_power_of_two(divisions);
                let power: usize = if is_tuplet { find_next_lower_power_of_2(divisions) } else { 0 };
                proof {
                    if is_tuplet {
                        assert(divisions >= 3) by {
                            assert(is_pow2(2)) by { assert(is_pow2(1)); }
                        }
                        lemma_lower_power_of_2(divisions as nat);
                    }
                    assert(beat_is_tuplet(b) == is_tuplet);
                }
                let tuplet_ratio = if is_tuplet { Some((divisions, power)) } else { beat.tuplet_ratio };
                let tied_to_previous = beat.tied_to_previous;
                let elements = time_elements(beat.elements, divisions, is_tuplet, power);
                let closed = BeatV2 { divisions, elements, tied_to_previous, is_tuplet, tuplet_ratio };
                proof {
                    let p = lower_power_of_2(divisions as nat);
                    assert(closed@.elements =~= closed_beat_v2(b).elements) by {
                        assert forall|i: int| 0 <= i < b.elements.len() implies
                            #[trigger] timed_element(b.elements[i], divisions, is_tuplet, power as nat)
                            == timed_element(b.elements[i], divisions, is_tuplet, p) by {
                            if is_tuplet { assert(power as nat == p); }
                        }
                    }
                    assert(closed@ == closed_beat_v2(b));
                }
                self.push_item(OutputItemV2::Beat(closed));
            },
            None => {},
        }
    }

    fn process(&mut self, elements: &[ParsedElement])
        requires
            old(self)@ == fsm_v2_initial(),
            elements@.len() <= usize::MAX / 8,
        ensures
            final(self)@.output == fsm_v2_output(elements_view(elements@)),
            final(self)@.state == State::Halt,
    {
        let ghost all = elements_view(elements@);
        let mut i: usize = 0;
        proof {
            assert(all.take(0) =~= Seq::<ParsedElementView>::empty());
            assert(output_pitched(Seq::<OutputItemV2View>::empty()));
        }
        while i < elements.len()
            invariant
                all == elements_view(elements@),
                elements@.len() <= usize::MAX / 8,
                i <= elements@.len(),
                self@ == fsm_v2_run(all.take(i as int)),
                fsm_v2_wf(self@, i as nat),
            decreases elements@.len() - i,
        {
            let element = &elements[i];
            proof {
                lemma_step_wf(self@, element@, i as nat);
                assert(all.take(i + 1).drop_last() =~= all.take(i as int));
                assert(all.take(i + 1).last() == element@);
                if let Some(b) = self@.current_beat {
                    assert(b.elements[b.elements.len() - 1].subdivisions <= b.divisions);
                }
            }
            match self.state {
                State::S0 => {
                    if is_barline_element(element) {
                        self.emit_barline(style_of(element));
                    } else if is_separator_element(element) {
                    } else if is_breath_mark(element) {
                        self.emit_breathmark();
                    } else if let ParsedElement::Dash { .. } = element {
                        self.start_beat_dash(element);
                    } else if let ParsedElement::Note { .. } = element {
                        self.start_beat_pitch(element);
                    }
                },
                State::InBeat => {
                    let barline = is_barline_element(element);
                    if barline || is_separator_element(element) {
                        self.finish_beat();
                        if barline {
                            self.emit_barline(style_of(element));
                        }
                        self.state = State::S0;
                    } else if is_breath_mark(element) {
                        self.finish_beat();
                        self.emit_breathmark();
                        self.state = State::S0;
                    } else if let ParsedElement::Dash { .. } = element {
                        self.extend_last_element();
                    } else if let ParsedElement::Note { .. } = element {
                        self.add_pitch_to_beat(element);
                    }
                },
                State::Halt => {},
            }
            i = i + 1;
        }
        proof {
            assert(all.take(i as int) =~= all);
        }
        if self.state == State::InBeat {
            self.finish_beat();
        }
        self.state = State::Halt;
    }
}

/// Groups parsed elements into beats with the machine and returns its output
/// (see `fsm_v2_step` and `fsm_v2_output`).
pub fn group_elements_with_fsm_full(elements: &[ParsedElement], _lines_of_music: &[usize]) -> (r: Vec<OutputItemV2>)
    requires
        elements@.len() <= usize::MAX / 8,
    ensures
        output_view(r@) == fsm_v2_output(elements_view(elements@)),
{
    let mut fsm = FSMV2::new();
    fsm.process(elements);
    fsm.output
}


/// The position elements rebuilt from output items without one get: the origin.
pub open spec fn origin() -> Position {
    Position { row: 0, col: 0, char_index: 0 }
}

/// The parsed element rebuilt from a beat element: notes, rests and dashes
/// with their written duration, anything else as a symbol with its text.
pub open spec fn element_of_beat_element(e: BeatElementView) -> ParsedElementView {
    match e.element_type {
        ParsedElementType::Note => ParsedElementView::Note {
            degree: e.degree.unwrap(), octave: e.octave.unwrap(), value: e.value, position: e.position, children: e.children,
            duration: Some(e.tuplet_duration), beat_group: None, slur_position: SlurPosition::Unslurred, in_beat_group: false,
        },
        ParsedElementType::Rest => ParsedElementView::Rest { value: e.value, position: e.position, duration: Some(e.tuplet_duration) },
        ParsedElementType::Dash => ParsedElementView::Dash {
            degree: e.degree, octave: e.octave, position: e.position, duration: Some(e.tuplet_duration),
        },
        _ => ParsedElementView::Symbol { value: e.value, position: e.position },
    }
}

/// The parsed elements rebuilt from one output item: a beat gives its
/// elements; a bar line, a breath mark (`'`) and slur starts and ends (`(`
/// and `)`, as symbols) one element at the origin.
pub open spec fn elements_of_item(item: OutputItemV2View) -> Seq<ParsedElementView> {
    match item {
        OutputItemV2View::Beat(b) => b.elements.map_values(|e: BeatElementView| element_of_beat_element(e)),
        OutputItemV2View::Barline(v) => seq![ParsedElementView::Barline { style: v, position: origin(), tala: None }],
        OutputItemV2View::Breathmark => seq![ParsedElementView::Symbol { value: "'"@, position: origin() }],
        OutputItemV2View::SlurStart => seq![ParsedElementView::Symbol { value: "("@, position: origin() }],
        OutputItemV2View::SlurEnd => seq![ParsedElementView::Symbol { value: ")"@, position: origin() }],
    }
}

/// The parsed elements rebuilt from output items, in order.
pub open spec fn elements_of_output(out: Seq<OutputItemV2View>) -> Seq<ParsedElementView>
    decreases out.len(),
{
    if out.len() == 0 { Seq::empty() } else { elements_of_output(out.drop_last()) + elements_of_item(out.last()) }
}

fn beat_elements_to_elements(v: Vec<BeatElement>, result: &mut Vec<ParsedElement>)
    requires
        notes_pitched(beat_elements_view(v@)),
    ensures
        elements_view(final(result)@) == elements_view(old(result)@)
            + beat_elements_view(v@).map_values(|e: BeatElementView| element_of_beat_element(e)),
{
    let ghost orig = beat_elements_view(v@);
    let ghost start = elements_view(result@);
    let ghost target = orig.map_values(|e: BeatElementView| element_of_beat_element(e));
    let mut rest = v;
    let ghost mut k: int = 0;
    proof {
        assert(start + target.take(0) =~= start);
    }
    while rest.len() > 0
        invariant
            0 <= k <= orig.len(),
            target.len() == orig.len(),
            notes_pitched(orig),
            beat_elements_view(rest@) == orig.skip(k),
            elements_view(result@) == start + target.take(k),
            forall|i: int| 0 <= i < orig.len() ==> #[trigger] target[i] == element_of_beat_element(orig[i]),
        decreases rest@.len(),
    {
        let ghost before = rest@;
        let e = rest.remove(0);
        proof {
            assert(beat_elements_view(rest@) =~= beat_elements_view(before).skip(1));
            assert(orig.skip(k).skip(1) =~= orig.skip(k + 1));
            assert(beat_elements_view(before)[0] == orig.skip(k)[0]);
            assert(orig[k] == e@);
        }
        proof {
            if e.element_type == ParsedElementType::Note {
                assert(orig[k].element_type == ParsedElementType::Note);
            }
        }
        let element = match e.element_type {
            ParsedElementType::Note => ParsedElement::Note {
                degree: e.degree.unwrap(),
                octave: e.octave.unwrap(),
                value: e.value,
                position: e.position,
                children: e.children,
                duration: Some(e.tuplet_duration),
                beat_group: None,
                slur_position: SlurPosition::Unslurred,
                in_beat_group: false,
            },
            ParsedElementType::Rest => ParsedElement::Rest { value: e.value, position: e.position, duration: Some(e.tuplet_duration) },
            ParsedElementType::Dash => ParsedElement::Dash {
                degree: e.degree, octave: e.octave, position: e.position, duration: Some(e.tuplet_duration),
            },
            _ => ParsedElement::Symbol { value: e.value, position: e.position },
        };
        proof {
            assert(element@ == target[k]);
        }
        let ghost prev = result@;
        result.push(element);
        proof {
            assert(elements_view(result@) =~= elements_view(prev).push(target[k]));
            assert(target.take(k + 1) =~= target.take(k).push(target[k]));
            k = k + 1;
        }
    }
    proof {
        assert(target.take(k) =~= target);
    }
}

fn origin_position() -> (p: Position)
    ensures
        p == origin(),
{
    Position { row: 0, col: 0, char_index: 0 }
}

fn push_symbol(result: &mut Vec<ParsedElement>, text: &str)
    ensures
        elements_view(final(result)@) == elements_view(old(result)@).push(ParsedElementView::Symbol { value: text@, position: origin() }),
{
    let ghost before = result@;
    result.push(ParsedElement::Symbol { value: text.to_owned(), position: origin_position() });
    assert(elements_view(result@) =~= elements_view(before).push(ParsedElementView::Symbol { value: text@, position: origin() }));
}

fn convert_fsm_output_to_elements(output: Vec<OutputItemV2>) -> (r: Vec<ParsedElement>)
    requires
        output_pitched(output_view(output@)),
    ensures
        elements_view(r@) == elements_of_output(output_view(output@)),
{
    let ghost orig = output_view(output@);
    let mut rest = output;
    let mut result: Vec<ParsedElement> = Vec::new();
    let ghost mut k: int = 0;
    proof {
        assert(elements_view(result@) =~= elements_of_output(orig.take(0)));
    }
    while rest.len() > 0
        invariant
            0 <= k <= orig.len(),
            output_pitched(orig),
            output_view(rest@) == orig.skip(k),
            elements_view(result@) == elements_of_output(orig.take(k)),
        decreases rest@.len(),
    {
        let ghost before = rest@;
        let item = rest.remove(0);
        proof {
            assert(output_view(rest@) =~= output_view(before).skip(1));
            assert(orig.skip(k).skip(1) =~= orig.skip(k + 1));
            assert(output_view(before)[0] == orig.skip(k)[0]);
            assert(orig[k] == item@);
            assert(orig.take(k + 1).drop_last() =~= orig.take(k));
            assert(orig.take(k + 1).last() == orig[k]);
        }
        let ghost r0 = elements_view(result@);
        match item {
            OutputItemV2::Beat(beat) => {
                proof {
                    assert(notes_pitched(beat@.elements));
                }
                beat_elements_to_elements(beat.elements, &mut result);
            },
            OutputItemV2::Barline(value) => {
                let ghost vv = value@;
                let position = origin_position();
                result.push(ParsedElement::Barline { style: value, position, tala: None });
                proof {
                    assert(elements_view(result@) =~= r0 + seq![ParsedElementView::Barline { style: vv, position: origin(), tala: None }]);
                }
            },
            OutputItemV2::Breathmark => {
                push_symbol(&mut result, "'");
                assert(elements_view(result@) =~= r0 + elements_of_item(orig[k]));
            },
            OutputItemV2::SlurStart => {
                push_symbol(&mut result, "(");
                assert(elements_view(result@) =~= r0 + elements_of_item(orig[k]));
            },
            OutputItemV2::SlurEnd => {
                push_symbol(&mut result, ")");
                assert(elements_view(result@) =~= r0 + elements_of_item(orig[k]));
            },
        }
        proof {
            assert(elements_view(result@) =~= elements_of_output(orig.take(k + 1)));
            k = k + 1;
        }
    }
    proof {
        assert(orig.take(k) =~= orig);
    }
    result
}

/// The parsed elements rebuilt from output items (see `elements_of_output`);
/// every note of every beat must carry its pitch and octave.
pub fn convert_fsm_output_to_elements_public(output: Vec<OutputItemV2>) -> (r: Vec<ParsedElement>)
    requires
        output_pitched(output_view(output@)),
    ensures
        elements_view(r@) == elements_of_output(output_view(output@)),
{
    convert_fsm_output_to_elements(output)
}

/// Groups parsed elements into beats with the machine and rebuilds them as
/// parsed elements with durations (see `fsm_v2_output` and `elements_of_output`).
pub fn group_elements_with_fsm(elements: &[ParsedElement], _lines_of_music: &[usize]) -> (r: Vec<ParsedElement>)
    requires
        elements@.len() <= usize::MAX / 8,
    ensures
        elements_view(r@) == elements_of_output(fsm_v2_output(elements_view(elements@))),
{
    let output = group_elements_with_fsm_full(elements, _lines_of_music);
    proof {
        let s = elements_view(elements@);
        lemma_run_wf(s);
        lemma_finish_wf(fsm_v2_run(s), s.len());
    }
    convert_fsm_output_to_elements(output)
}


/// Sum of the subdivision counts of beat elements.
pub open spec fn subdivision_total(es: Seq<BeatElementView>) -> nat
    decreases es.len(),
{
    if es.len() == 0 { 0 } else { subdivision_total(es.drop_last()) + es.last().subdivisions as nat }
}

/// Whether a beat is full: it has an element, and its elements' subdivisions
/// add up to its division count.
pub open spec fn beat_full(b: BeatV2View) -> bool {
    b.elements.len() >= 1 && subdivision_total(b.elements) == b.divisions
}

/// Whether the beat being built and every beat output are full.
pub open spec fn fsm_v2_full(m: FsmV2View) -> bool {
    &&& (m.current_beat matches Some(b) ==> beat_full(b))
    &&& forall|j: int| 0 <= j < m.output.len() ==> match #[trigger] m.output[j] {
        OutputItemV2View::Beat(b) => beat_full(b),
        _ => true,
    }
}

proof fn lemma_total_push(es: Seq<BeatElementView>, x: BeatElementView)
    ensures
        subdivision_total(es.push(x)) == subdivision_total(es) + x.subdivisions,
{
    assert(es.push(x).drop_last() =~= es);
}

proof fn lemma_total_same(a: Seq<BeatElementView>, b: Seq<BeatElementView>)
    requires
        a.len() == b.len(),
        forall|i: int| 0 <= i < a.len() ==> #[trigger] a[i].subdivisions == b[i].subdivisions,
    ensures
        subdivision_total(a) == subdivision_total(b),
    decreases a.len(),
{
    if a.len() > 0 {
        assert forall|i: int| 0 <= i < a.drop_last().len() implies #[trigger] a.drop_last()[i].subdivisions == b.drop_last()[i].subdivisions by {
            assert(a.drop_last()[i] == a[i] && b.drop_last()[i] == b[i]);
        }
        lemma_total_same(a.drop_last(), b.drop_last());
        assert(a.last().subdivisions == b.last().subdivisions) by {
            assert(a[a.len() - 1].subdivisions == b[b.len() - 1].subdivisions);
        }
    }
}

proof fn lemma_push_full(out: Seq<OutputItemV2View>, x: OutputItemV2View)
    requires
        forall|j: int| 0 <= j < out.len() ==> match #[trigger] out[j] { OutputItemV2View::Beat(b) => beat_full(b), _ => true },
        x matches OutputItemV2View::Beat(b) ==> beat_full(b),
    ensures
        forall|j: int| 0 <= j < out.push(x).len() ==> match #[trigger] out.push(x)[j] { OutputItemV2View::Beat(b) => beat_full(b), _ => true },
{
    assert forall|j: int| 0 <= j < out.push(x).len() implies match #[trigger] out.push(x)[j] {
        OutputItemV2View::Beat(b) => beat_full(b),
        _ => true,
    } by {
        if j < out.len() {
            assert(out.push(x)[j] == out[j]);
        }
    }
}

proof fn lemma_finish_full(m: FsmV2View)
    requires
        fsm_v2_full(m),
    ensures
        fsm_v2_full(finish_beat_v2(m)),
{
    if let Some(b) = m.current_beat {
        let c = closed_beat_v2(b);
        lemma_total_same(c.elements, b.elements);
        lemma_push_full(m.output, OutputItemV2View::Beat(c));
    }
}

proof fn lemma_step_full(m: FsmV2View, e: ParsedElementView, k: nat)
    requires
        fsm_v2_wf(m, k),
        fsm_v2_full(m),
        k < usize::MAX,
    ensures
        fsm_v2_full(fsm_v2_step(m, e)),
{
    lemma_finish_full(m);
    let f = finish_beat_v2(m);
    lemma_push_full(m.output, OutputItemV2View::Barline(barline_style(e)));
    lemma_push_full(m.output, OutputItemV2View::Breathmark);
    lemma_push_full(f.output, OutputItemV2View::Barline(barline_style(e)));
    lemma_push_full(f.output, OutputItemV2View::Breathmark);
    lemma_total_push(Seq::empty(), beat_element_of(e));
    assert(seq![beat_element_of(e)] =~= Seq::<BeatElementView>::empty().push(beat_element_of(e)));
    let r = rest_view(position_of(e));
    lemma_total_push(Seq::empty(), beat_element_of(r));
    assert(seq![beat_element_of(r)] =~= Seq::<BeatElementView>::empty().push(beat_element_of(r)));
    if let Some(prev) = last_non_dash(m.output) {
        let t = beat_element_of(tied_note(prev, position_of(e)));
        lemma_total_push(Seq::empty(), t);
        assert(seq![t] =~= Seq::<BeatElementView>::empty().push(t));
    }
    if let Some(b) = m.current_beat {
        lemma_total_push(b.elements, beat_element_of(e));
        let n = b.elements.len();
        let last = b.elements.last();
        let upd = b.elements.update(n - 1, BeatElementView { subdivisions: (last.subdivisions + 1) as usize, ..last });
        assert(b.elements[n - 1].subdivisions <= b.divisions);
        assert(upd.drop_last() =~= b.elements.drop_last());
        assert(subdivision_total(upd) == subdivision_total(b.elements) + 1);
    }
}

proof fn lemma_run_full(s: Seq<ParsedElementView>)
    requires
        s.len() <= usize::MAX,
    ensures
        fsm_v2_full(fsm_v2_run(s)),
    decreases s.len(),
{
    if s.len() > 0 {
        lemma_run_full(s.drop_last());
        lemma_run_wf(s.drop_last());
        lemma_step_full(fsm_v2_run(s.drop_last()), s.last(), s.drop_last().len());
    }
}

/// Every beat the machine outputs is full: it has at least one element, and
/// its elements' subdivision counts add up to its division count.
pub proof fn lemma_fsm_v2_beats_full(s: Seq<ParsedElementView>)
    requires
        s.len() <= usize::MAX,
    ensures
        forall|j: int| 0 <= j < fsm_v2_output(s).len() ==> match #[trigger] fsm_v2_output(s)[j] {
            OutputItemV2View::Beat(b) => beat_full(b),
            _ => true,
        },
{
    lemma_run_full(s);
    lemma_finish_full(fsm_v2_run(s));
}

} // verus!
