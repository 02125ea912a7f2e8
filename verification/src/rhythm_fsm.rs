//! Beat grouping with a hierarchical state machine: notes start or join a
//! beat, dashes lengthen the last element (or stand for rests, or tie over
//! from the previous beat's note), whitespace and bar lines close beats, and
//! closed beats get their durations and tuplet ratio.
use vstd::prelude::*;
use crate::pitch::Degree;
use crate::rhythm::types::{ParsedElement, ParsedElementView, ParsedChild, Position, SlurPosition, elements_view};
use crate::rhythm::converters::{BarlineType, barline_of};
use crate::rhythm_fsm_v2_clean::{reduce, reduce_fraction};
use crate::models::{copy_string};
use crate::text::str_eq;

verus! {

/// An element of a beat with the number of subdivisions it spans and its
/// durations: `duration` is its share of the beat (in a tuplet) or its length
/// as a fraction of a whole note; `tuplet_duration` is the length it is
/// written with.
pub struct BeatElement {
    pub element: ParsedElement,
    pub subdivisions: usize,
    pub duration: (usize, usize),
    pub tuplet_duration: (usize, usize),
    pub tuplet_display_duration: Option<(usize, usize)>,
}

/// A beat element seen through its element's view.
pub struct BeatElementView {
    pub element: ParsedElementView,
    pub subdivisions: usize,
    pub duration: (usize, usize),
    pub tuplet_duration: (usize, usize),
    pub tuplet_display_duration: Option<(usize, usize)>,
}

impl View for BeatElement {
    type V = BeatElementView;

    open spec fn view(&self) -> BeatElementView {
        BeatElementView {
            element: self.element@,
            subdivisions: self.subdivisions,
            duration: self.duration,
            tuplet_duration: self.tuplet_duration,
            tuplet_display_duration: self.tuplet_display_duration,
        }
    }
}

/// A closed beat: its subdivision count, elements, whether it continues the
/// previous beat's note, and its tuplet ratio (subdivisions, power of two)
/// when the subdivision count is not a power of two.
pub struct Beat {
    pub divisions: usize,
    pub elements: Vec<BeatElement>,
    pub tied_to_previous: bool,
    pub is_tuplet: bool,
    pub tuplet_ratio: Option<(usize, usize)>,
}

/// A beat seen through its elements' views.
pub struct BeatView {
    pub divisions: usize,
    pub elements: Seq<BeatElementView>,
    pub tied_to_previous: bool,
    pub is_tuplet: bool,
    pub tuplet_ratio: Option<(usize, usize)>,
}

/// The views of beat elements.
pub open spec fn beat_elements_view(v: Seq<BeatElement>) -> Seq<BeatElementView> {
    v.map_values(|e: BeatElement| e@)
}

impl View for Beat {
    type V = BeatView;

    open spec fn view(&self) -> BeatView {
        BeatView {
            divisions: self.divisions,
            elements: beat_elements_view(self.elements@),
            tied_to_previous: self.tied_to_previous,
            is_tuplet: self.is_tuplet,
            tuplet_ratio: self.tuplet_ratio,
        }
    }
}

/// Output of the state machine.
pub enum Item {
    Beat(Beat),
    /// A bar line with its tala marker.
    Barline(BarlineType, Option<u8>),
    Breathmark,
    SlurStart,
    SlurEnd,
}

/// An output item seen through views.
pub enum ItemView {
    Beat(BeatView),
    Barline(BarlineType, Option<u8>),
    Breathmark,
    SlurStart,
    SlurEnd,
}

impl View for Item {
    type V = ItemView;

    open spec fn view(&self) -> ItemView {
        match self {
            Item::Beat(b) => ItemView::Beat(b@),
            Item::Barline(t, tala) => ItemView::Barline(*t, *tala),
            Item::Breathmark => ItemView::Breathmark,
            Item::SlurStart => ItemView::SlurStart,
            Item::SlurEnd => ItemView::SlurEnd,
        }
    }
}

/// The views of output items.
pub open spec fn items_view(v: Seq<Item>) -> Seq<ItemView> {
    v.map_values(|i: Item| i@)
}

/// A copy of a child annotation.
pub fn copy_child(c: &ParsedChild) -> (r: ParsedChild)
    ensures
        r == *c,
{
    match c {
        ParsedChild::OctaveMarker { symbol, distance } => ParsedChild::OctaveMarker { symbol: copy_string(symbol), distance: *distance },
        ParsedChild::Ornament { kind, distance } => ParsedChild::Ornament { kind: *kind, distance: *distance },
        ParsedChild::Syllable { text, distance } => ParsedChild::Syllable { text: copy_string(text), distance: *distance },
        ParsedChild::BeatGroupIndicator { symbol, span } => ParsedChild::BeatGroupIndicator { symbol: copy_string(symbol), span: *span },
    }
}

/// A copy of a list of children.
pub fn copy_children(v: &Vec<ParsedChild>) -> (r: Vec<ParsedChild>)
    ensures
        r@ == v@,
{
    let mut r: Vec<ParsedChild> = Vec::new();
    let mut i: usize = 0;
    while i < v.len()
        invariant
            i <= v@.len(),
            r@ == v@.take(i as int),
        decreases v@.len() - i,
    {
        r.push(copy_child(&v[i]));
        i = i + 1;
        assert(r@ =~= v@.take(i as int));
    }
    assert(v@.take(v@.len() as int) =~= v@);
    r
}

/// A copy of a parsed element.
pub fn copy_element(e: &ParsedElement) -> (r: ParsedElement)
    ensures
        r@ == e@,
{
    match e {
        ParsedElement::Note { degree, octave, value, position, children, duration, beat_group, slur_position, in_beat_group } =>
            ParsedElement::Note {
                degree: *degree, octave: *octave, value: copy_string(value), position: *position,
                children: copy_children(children), duration: *duration, beat_group: *beat_group,
                slur_position: *slur_position, in_beat_group: *in_beat_group,
            },
        ParsedElement::Rest { value, position, duration } =>
            ParsedElement::Rest { value: copy_string(value), position: *position, duration: *duration },
        ParsedElement::Dash { degree, octave, position, duration } =>
            ParsedElement::Dash { degree: *degree, octave: *octave, position: *position, duration: *duration },
        ParsedElement::Barline { style, position, tala } =>
            ParsedElement::Barline { style: copy_string(style), position: *position, tala: *tala },
        ParsedElement::Whitespace { value, position } =>
            ParsedElement::Whitespace { value: copy_string(value), position: *position },
        ParsedElement::Symbol { value, position } =>
            ParsedElement::Symbol { value: copy_string(value), position: *position },
        ParsedElement::Unknown { value, position } =>
            ParsedElement::Unknown { value: copy_string(value), position: *position },
        ParsedElement::Newline { value, position } =>
            ParsedElement::Newline { value: copy_string(value), position: *position },
        ParsedElement::EndOfInput { position } => ParsedElement::EndOfInput { position: *position },
    }
}

/// The debug name of a scale degree (`N1`, `N4s`, `N7bb`, ...).
pub open spec fn degree_name(d: Degree) -> Seq<char> {
    match d {
        Degree::N1bb => "N1bb"@,
        Degree::N1b => "N1b"@,
        Degree::N1 => "N1"@,
        Degree::N1s => "N1s"@,
        Degree::N1ss => "N1ss"@,
        Degree::N2bb => "N2bb"@,
        Degree::N2b => "N2b"@,
        Degree::N2 => "N2"@,
        Degree::N2s => "N2s"@,
        Degree::N2ss => "N2ss"@,
        Degree::N3bb => "N3bb"@,
        Degree::N3b => "N3b"@,
        Degree::N3 => "N3"@,
        Degree::N3s => "N3s"@,
        Degree::N3ss => "N3ss"@,
        Degree::N4bb => "N4bb"@,
        Degree::N4b => "N4b"@,
        Degree::N4 => "N4"@,
        Degree::N4s => "N4s"@,
        Degree::N4ss => "N4ss"@,
        Degree::N5bb => "N5bb"@,
        Degree::N5b => "N5b"@,
        Degree::N5 => "N5"@,
        Degree::N5s => "N5s"@,
        Degree::N5ss => "N5ss"@,
        Degree::N6bb => "N6bb"@,
        Degree::N6b => "N6b"@,
        Degree::N6 => "N6"@,
        Degree::N6s => "N6s"@,
        Degree::N6ss => "N6ss"@,
        Degree::N7bb => "N7bb"@,
        Degree::N7b => "N7b"@,
        Degree::N7 => "N7"@,
        Degree::N7s => "N7s"@,
        Degree::N7ss => "N7ss"@,
    }
}

/// The debug name of a scale degree.
pub fn degree_debug_name(d: Degree) -> (r: String)
    ensures
        r@ == degree_name(d),
{
    let s = match d {
        Degree::N1bb => "N1bb",
        Degree::N1b => "N1b",
        Degree::N1 => "N1",
        Degree::N1s => "N1s",
        Degree::N1ss => "N1ss",
        Degree::N2bb => "N2bb",
        Degree::N2b => "N2b",
        Degree::N2 => "N2",
        Degree::N2s => "N2s",
        Degree::N2ss => "N2ss",
        Degree::N3bb => "N3bb",
        Degree::N3b => "N3b",
        Degree::N3 => "N3",
        Degree::N3s => "N3s",
        Degree::N3ss => "N3ss",
        Degree::N4bb => "N4bb",
        Degree::N4b => "N4b",
        Degree::N4 => "N4",
        Degree::N4s => "N4s",
        Degree::N4ss => "N4ss",
        Degree::N5bb => "N5bb",
        Degree::N5b => "N5b",
        Degree::N5 => "N5",
        Degree::N5s => "N5s",
        Degree::N5ss => "N5ss",
        Degree::N6bb => "N6bb",
        Degree::N6b => "N6b",
        Degree::N6 => "N6",
        Degree::N6s => "N6s",
        Degree::N6ss => "N6ss",
        Degree::N7bb => "N7bb",
        Degree::N7b => "N7b",
        Degree::N7 => "N7",
        Degree::N7s => "N7s",
        Degree::N7ss => "N7ss",
    };
    s.to_owned()
}

/// Whether `n` is a power of two.
pub open spec fn is_pow2(n: nat) -> bool
    decreases n,
{
    if n <= 1 { n == 1 } else { n % 2 == 0 && is_pow2(n / 2) }
}

/// Whether `n` is a power of two, computed.
pub fn is_power_of_two(n: usize) -> (r: bool)
    ensures
        r == is_pow2(n as nat),
    decreases n,
{
    if n <= 1 { n == 1 } else { n % 2 == 0 && is_power_of_two(n / 2) }
}

/// Doubling from `p` while twice the value stays below `n`.
pub open spec fn double_below(p: nat, n: nat) -> nat
    decreases n - p,
{
    if p > 0 && p * 2 < n { double_below(p * 2, n) } else { p }
}

/// The tuplet base of `n` subdivisions: the largest power of two below `n`
/// (the largest `p` with `2p >= n`), at least 2.
pub open spec fn lower_power_of_2(n: nat) -> nat {
    let p = double_below(1, n);
    if p < 2 { 2 } else { p }
}

proof fn lemma_double_below(p: nat, n: nat)
    requires
        p > 0,
        is_pow2(p),
        p < n || n <= 1,
    ensures
        is_pow2(double_below(p, n)),
        double_below(p, n) >= p,
        double_below(p, n) * 2 >= n,
        n > p ==> double_below(p, n) < n,
    decreases n - p,
{
    if p * 2 < n {
        assert((p * 2) / 2 == p);
        lemma_double_below(p * 2, n);
    }
}

/// The tuplet base of `n >= 3` subdivisions is a power of two `p` with
/// `p < n <= 2p`: a tuplet of `n` notes is played in the time of `p`.
pub proof fn lemma_lower_power_of_2(n: nat)
    requires
        n >= 3,
    ensures
        is_pow2(lower_power_of_2(n)),
        lower_power_of_2(n) < n,
        n <= 2 * lower_power_of_2(n),
{
    lemma_double_below(1, n);
    if double_below(1, n) < 2 {
        assert(is_pow2(2)) by { assert(is_pow2(1)); }
    }
}

/// The tuplet base of `n` subdivisions (see `lower_power_of_2`).
pub fn find_next_lower_power_of_2(n: usize) -> (r: usize)
    requires
        n <= usize::MAX / 2,
    ensures
        r == lower_power_of_2(n as nat),
{
    let mut power: usize = 1;
    while power * 2 < n
        invariant
            n <= usize::MAX / 2,
            1 <= power,
            power < n || power == 1,
            double_below(power as nat, n as nat) == double_below(1, n as nat),
        decreases n - power,
    {
        power = power * 2;
    }
    if power < 2 { 2 } else { power }
}


/// States of the machine.
#[derive(Clone, Copy, Debug, PartialEq, Eq, Structural)]
pub enum State {
    /// Between beats.
    S0,
    /// In a beat after a breath mark.
    InBeat,
    /// In a beat, extending the last note with dashes.
    CollectingPitch,
    /// In a beat that started with dashes (rests).
    CollectingRests,
    /// Done.
    Halt,
}

/// A beat under construction: elements with their subdivision counts, the
/// total subdivision count, and whether it continues the previous beat's note.
pub struct DraftView {
    pub elements: Seq<(ParsedElementView, usize)>,
    pub divisions: usize,
    pub tied: bool,
}

/// The machine's state: its control state, whether a dash may continue the
/// last note across beats and which note that is, the beat under
/// construction and the output so far.
pub struct FsmView {
    pub state: State,
    pub chain: bool,
    pub last_note: Option<Degree>,
    pub beat: Option<DraftView>,
    pub output: Seq<ItemView>,
}

/// The state before any element.
pub open spec fn fsm_initial() -> FsmView {
    FsmView { state: State::S0, chain: false, last_note: None, beat: None, output: Seq::empty() }
}

/// Position of an element in the source.
pub open spec fn position_of(e: ParsedElementView) -> Position {
    match e {
        ParsedElementView::Note { position, .. } => position,
        ParsedElementView::Rest { position, .. } => position,
        ParsedElementView::Dash { position, .. } => position,
        ParsedElementView::Barline { position, .. } => position,
        ParsedElementView::Whitespace { position, .. } => position,
        ParsedElementView::Symbol { position, .. } => position,
        ParsedElementView::Unknown { position, .. } => position,
        ParsedElementView::Newline { position, .. } => position,
        ParsedElementView::EndOfInput { position } => position,
    }
}

/// The note a dash at `position` continues across a beat boundary.
pub open spec fn tied_note_view(d: Degree, position: Position) -> ParsedElementView {
    ParsedElementView::Note {
        degree: d, octave: 0, value: degree_name(d), position, children: Seq::empty(), duration: None,
        beat_group: None, slur_position: SlurPosition::Unslurred, in_beat_group: false,
    }
}

/// The rest a dash at `position` stands for.
pub open spec fn rest_view(position: Position) -> ParsedElementView {
    ParsedElementView::Rest { value: "r"@, position, duration: None }
}

/// Whether an element is a breath mark (the symbol `'`).
pub open spec fn is_breath(e: ParsedElementView) -> bool {
    e matches ParsedElementView::Symbol { value, .. } && value == "'"@
}

/// Notes become the note a later dash may continue.
pub open spec fn chain_note(m: FsmView, e: ParsedElementView) -> FsmView {
    match e {
        ParsedElementView::Note { degree, .. } => FsmView { chain: true, last_note: Some(degree), ..m },
        _ => m,
    }
}

/// Starts a beat with a note; it continues the previous beat when it repeats
/// the pending note.
pub open spec fn start_note(m: FsmView, e: ParsedElementView) -> FsmView {
    let tied = match e { ParsedElementView::Note { degree, .. } => m.last_note == Some(degree), _ => false };
    let m1 = if tied { FsmView { last_note: None, ..m } } else { m };
    let m2 = FsmView { beat: Some(DraftView { elements: seq![(e, 1usize)], divisions: 1, tied }), ..m1 };
    FsmView { state: State::CollectingPitch, ..chain_note(m2, e) }
}

/// Starts a beat with a rest for a dash.
pub open spec fn start_rest(m: FsmView, dash: ParsedElementView) -> FsmView {
    FsmView {
        beat: Some(DraftView { elements: seq![(rest_view(position_of(dash)), 1usize)], divisions: 1, tied: false }),
        state: State::CollectingRests,
        ..m
    }
}

/// Starts a beat continuing the pending note for a dash.
pub open spec fn start_tied(m: FsmView, dash: ParsedElementView) -> FsmView {
    match m.last_note {
        Some(d) => FsmView {
            beat: Some(DraftView { elements: seq![(tied_note_view(d, position_of(dash)), 1usize)], divisions: 1, tied: true }),
            state: State::CollectingPitch,
            ..m
        },
        None => start_rest(m, dash),
    }
}

/// Adds a note to the beat under construction.
pub open spec fn add_note(m: FsmView, e: ParsedElementView) -> FsmView {
    match m.beat {
        Some(b) => chain_note(FsmView {
            beat: Some(DraftView { elements: b.elements.push((e, 1usize)), divisions: (b.divisions + 1) as usize, tied: b.tied }),
            ..m
        }, e),
        None => m,
    }
}

/// Adds a rest for a dash to the beat under construction.
pub open spec fn add_rest(m: FsmView, dash: ParsedElementView) -> FsmView {
    match m.beat {
        Some(b) => FsmView {
            beat: Some(DraftView {
                elements: b.elements.push((rest_view(position_of(dash)), 1usize)),
                divisions: (b.divisions + 1) as usize,
                tied: b.tied,
            }),
            ..m
        },
        None => m,
    }
}

/// A dash lengthens the last element of the beat by one subdivision.
pub open spec fn extend_last(m: FsmView) -> FsmView {
    match m.beat {
        Some(b) => FsmView {
            beat: Some(DraftView {
                elements: if b.elements.len() > 0 {
                    b.elements.update(b.elements.len() - 1, (b.elements.last().0, (b.elements.last().1 + 1) as usize))
                } else {
                    b.elements
                },
                divisions: (b.divisions + 1) as usize,
                tied: b.tied,
            }),
            ..m
        },
        None => m,
    }
}

/// A breath mark ends any note continuation and is output.
pub open spec fn breathmark(m: FsmView) -> FsmView {
    FsmView { chain: false, last_note: None, output: m.output.push(ItemView::Breathmark), ..m }
}

/// A bar line is output when its style is known; unknown styles are dropped.
pub open spec fn emit_barline(m: FsmView, e: ParsedElementView) -> FsmView {
    match e {
        ParsedElementView::Barline { style, tala, .. } => match barline_of(style) {
            Some(t) => FsmView { output: m.output.push(ItemView::Barline(t, tala)), ..m },
            None => m,
        },
        _ => m,
    }
}

/// A fraction in lowest terms, as machine integers.
pub open spec fn reduced(n: nat, d: nat) -> (usize, usize) {
    (reduce(n, d).0 as usize, reduce(n, d).1 as usize)
}

/// Whether a closed beat is a tuplet: more than one element over a
/// subdivision count that is not a power of two.
pub open spec fn draft_is_tuplet(b: DraftView) -> bool {
    b.elements.len() > 1 && b.divisions > 1 && !is_pow2(b.divisions as nat)
}

/// The elements of a closed beat with their durations. In a tuplet of base
/// `p`, an element of `s` subdivisions has duration `s/divisions` and is
/// written as `s/(4p)`; otherwise both are `s/(4·divisions)`.
pub open spec fn finished_element(e: ParsedElementView, sub: usize, divisions: usize, tuplet: bool, p: nat) -> BeatElementView {
    if tuplet {
        BeatElementView {
            element: e, subdivisions: sub,
            duration: reduced(sub as nat, divisions as nat),
            tuplet_duration: reduced(sub as nat, 4 * p),
            tuplet_display_duration: Some(reduced(sub as nat, 4 * p)),
        }
    } else {
        BeatElementView {
            element: e, subdivisions: sub,
            duration: reduced(sub as nat, 4 * divisions as nat),
            tuplet_duration: reduced(sub as nat, 4 * divisions as nat),
            tuplet_display_duration: None,
        }
    }
}

/// The closed form of a beat under construction.
pub open spec fn closed_beat(b: DraftView) -> BeatView {
    let tuplet = draft_is_tuplet(b);
    let p = lower_power_of_2(b.divisions as nat);
    BeatView {
        divisions: b.divisions,
        elements: Seq::new(b.elements.len(), |i: int| finished_element(b.elements[i].0, b.elements[i].1, b.divisions, tuplet, p)),
        tied_to_previous: b.tied,
        is_tuplet: tuplet,
        tuplet_ratio: if tuplet { Some((b.divisions, p as usize)) } else { None },
    }
}

/// Closes the beat under construction: it is output, and a note ending it
/// becomes the note a dash may continue while continuation is possible.
pub open spec fn finish_beat(m: FsmView) -> FsmView {
    match m.beat {
        None => m,
        Some(b) => {
            let last = b.elements.last().0;
            let last_note = if b.elements.len() > 0 && m.chain {
                match last { ParsedElementView::Note { degree, .. } => Some(degree), _ => m.last_note }
            } else {
                m.last_note
            };
            FsmView { beat: None, last_note, output: m.output.push(ItemView::Beat(closed_beat(b))), ..m }
        },
    }
}

/// One element's transition.
pub open spec fn fsm_step(m: FsmView, e: ParsedElementView) -> FsmView {
    match m.state {
        State::S0 => match e {
            ParsedElementView::Note { .. } => start_note(m, e),
            ParsedElementView::Dash { .. } => if m.chain && m.last_note is Some { start_tied(m, e) } else { start_rest(m, e) },
            ParsedElementView::Barline { .. } => emit_barline(m, e),
            _ => if is_breath(e) { breathmark(m) } else { m },
        },
        State::InBeat => match e {
            ParsedElementView::Note { .. } => FsmView { state: State::CollectingPitch, ..add_note(m, e) },
            ParsedElementView::Dash { .. } =>
                if m.beat is None || m.beat.unwrap().elements.len() == 0 {
                    FsmView { state: State::CollectingRests, ..add_rest(m, e) }
                } else {
                    FsmView { state: State::CollectingPitch, ..extend_last(m) }
                },
            ParsedElementView::Whitespace { .. } => FsmView { state: State::S0, ..finish_beat(m) },
            ParsedElementView::Barline { .. } => FsmView { state: State::S0, ..emit_barline(finish_beat(m), e) },
            _ => if is_breath(e) { breathmark(m) } else { m },
        },
        State::CollectingPitch | State::CollectingRests => match e {
            ParsedElementView::Dash { .. } => extend_last(m),
            ParsedElementView::Note { .. } => FsmView { state: State::CollectingPitch, ..add_note(m, e) },
            ParsedElementView::Whitespace { .. } => FsmView { state: State::S0, ..finish_beat(m) },
            ParsedElementView::Barline { .. } => FsmView { state: State::S0, ..emit_barline(finish_beat(m), e) },
            _ => if is_breath(e) { FsmView { state: State::InBeat, ..breathmark(m) } } else { m },
        },
        State::Halt => m,
    }
}

/// The state after a sequence of elements.
pub open spec fn fsm_run(s: Seq<ParsedElementView>) -> FsmView
    decreases s.len(),
{
    if s.len() == 0 { fsm_initial() } else { fsm_step(fsm_run(s.drop_last()), s.last()) }
}

/// The items the machine outputs for a sequence of elements: the run, with a
/// beat still open at the end closed.
pub open spec fn fsm_output(s: Seq<ParsedElementView>) -> Seq<ItemView> {
    let m = fsm_run(s);
    if m.state == State::S0 || m.state == State::Halt { m.output } else { finish_beat(m).output }
}

/// Bounds that keep the counters of a beat under construction in range after
/// `k` elements.
pub open spec fn fsm_bounded(m: FsmView, k: nat) -> bool {
    &&& m.state != State::Halt
    &&& (m.state == State::S0 <==> m.beat is None)
    &&& (m.beat matches Some(b) ==> b.divisions <= k && b.divisions >= 1
        && forall|i: int| 0 <= i < b.elements.len() ==> #[trigger] b.elements[i].1 <= b.divisions)
}

proof fn lemma_step_bounded(m: FsmView, e: ParsedElementView, k: nat)
    requires
        fsm_bounded(m, k),
        k < usize::MAX,
    ensures
        fsm_bounded(fsm_step(m, e), k + 1),
{
    let r = fsm_step(m, e);
    if let Some(b0) = m.beat {
        let n = b0.elements.len();
        let d1 = (b0.divisions + 1) as usize;
        assert(d1 == b0.divisions + 1);
        let pushed_note = b0.elements.push((e, 1usize));
        assert forall|i: int| 0 <= i < pushed_note.len() implies #[trigger] pushed_note[i].1 <= d1 by {
            if i < n { assert(b0.elements[i].1 <= b0.divisions); }
        }
        let pushed_rest = b0.elements.push((rest_view(position_of(e)), 1usize));
        assert forall|i: int| 0 <= i < pushed_rest.len() implies #[trigger] pushed_rest[i].1 <= d1 by {
            if i < n { assert(b0.elements[i].1 <= b0.divisions); }
        }
        if n > 0 {
            let ext = b0.elements.update(n - 1, (b0.elements.last().0, (b0.elements.last().1 + 1) as usize));
            assert(b0.elements[n - 1].1 <= b0.divisions);
            assert forall|i: int| 0 <= i < ext.len() implies #[trigger] ext[i].1 <= d1 by {
                if i < n - 1 { assert(b0.elements[i].1 <= b0.divisions); }
            }
        } else {
            assert forall|i: int| 0 <= i < b0.elements.len() implies #[trigger] b0.elements[i].1 <= d1 by {
                assert(b0.elements[i].1 <= b0.divisions);
            }
        }
    }
    if let Some(b) = r.beat {
        assert(b.divisions <= k + 1);
    }
}

proof fn lemma_run_bounded(s: Seq<ParsedElementView>)
    requires
        s.len() <= usize::MAX,
    ensures
        fsm_bounded(fsm_run(s), s.len()),
    decreases s.len(),
{
    if s.len() > 0 {
        lemma_run_bounded(s.drop_last());
        lemma_step_bounded(fsm_run(s.drop_last()), s.last(), s.drop_last().len());
    }
}


/// A beat under construction.
struct Draft {
    elements: Vec<(ParsedElement, usize)>,
    divisions: usize,
    tied: bool,
}

/// The views of a beat's elements with their subdivision counts.
pub open spec fn draft_elements_view(v: Seq<(ParsedElement, usize)>) -> Seq<(ParsedElementView, usize)> {
    v.map_values(|x: (ParsedElement, usize)| (x.0@, x.1))
}

impl View for Draft {
    type V = DraftView;

    closed spec fn view(&self) -> DraftView {
        DraftView { elements: draft_elements_view(self.elements@), divisions: self.divisions, tied: self.tied }
    }
}

/// The state machine over parsed elements.
struct Fsm {
    state: State,
    extension_chain_active: bool,
    last_note_across_beats: Option<Degree>,
    current_beat: Option<Draft>,
    output: Vec<Item>,
}

impl View for Fsm {
    type V = FsmView;

    closed spec fn view(&self) -> FsmView {
        FsmView {
            state: self.state,
            chain: self.extension_chain_active,
            last_note: self.last_note_across_beats,
            beat: match self.current_beat { Some(d) => Some(d@), None => None },
            output: items_view(self.output@),
        }
    }
}

pub(crate) fn element_position(e: &ParsedElement) -> (p: Position)
    ensures
        p == position_of(e@),
{
    match e {
        ParsedElement::Note { position, .. } => *position,
        ParsedElement::Rest { position, .. } => *position,
        ParsedElement::Dash { position, .. } => *position,
        ParsedElement::Barline { position, .. } => *position,
        ParsedElement::Whitespace { position, .. } => *position,
        ParsedElement::Symbol { position, .. } => *position,
        ParsedElement::Unknown { position, .. } => *position,
        ParsedElement::Newline { position, .. } => *position,
        ParsedElement::EndOfInput { position } => *position,
    }
}

pub(crate) fn rest_for(dash: &ParsedElement) -> (r: ParsedElement)
    ensures
        r@ == rest_view(position_of(dash@)),
{
    ParsedElement::Rest { value: "r".to_owned(), position: element_position(dash), duration: None }
}

fn single_draft(e: ParsedElement, tied: bool) -> (d: Draft)
    ensures
        d@ == (DraftView { elements: seq![(e@, 1usize)], divisions: 1, tied }),
{
    let mut elements: Vec<(ParsedElement, usize)> = Vec::new();
    elements.push((e, 1));
    let d = Draft { elements, divisions: 1, tied };
    assert(draft_elements_view(d.elements@) =~= seq![(e@, 1usize)]);
    d
}

pub(crate) fn is_breath_mark(e: &ParsedElement) -> (r: bool)
    ensures
        r == is_breath(e@),
{
    match e {
        ParsedElement::Symbol { value, .. } => str_eq(value.as_str(), "'"),
        _ => false,
    }
}

impl Fsm {
    fn new() -> (f: Self)
        ensures
            f@ == fsm_initial(),
    {
        let f = Fsm {
            state: State::S0,
            extension_chain_active: false,
            last_note_across_beats: None,
            current_beat: None,
            output: Vec::new(),
        };
        assert(items_view(f.output@) =~= Seq::<ItemView>::empty());
        f
    }

    fn check_for_tie(&mut self, element: &ParsedElement) -> (r: bool)
        ensures
            r == (match element@ { ParsedElementView::Note { degree, .. } => old(self)@.last_note == Some(degree), _ => false }),
            final(self)@ == if r { FsmView { last_note: None, ..old(self)@ } } else { old(self)@ },
    {
        if let ParsedElement::Note { degree, .. } = element {
            if let Some(pending_pitch) = self.last_note_across_beats {
                if *degree == pending_pitch {
                    self.last_note_across_beats = None;
                    return true;
                }
            }
        }
        false
    }

    fn update_extension_chain(&mut self, element: &ParsedElement)
        ensures
            final(self)@ == chain_note(old(self)@, element@),
    {
        if let ParsedElement::Note { degree, .. } = element {
            self.last_note_across_beats = Some(*degree);
            self.extension_chain_active = true;
        }
    }

    fn start_beat_with_note(&mut self, element: &ParsedElement)
        ensures
            final(self)@ == start_note(old(self)@, element@),
    {
        let tied_to_previous = self.check_for_tie(element);
        let beat = single_draft(copy_element(element), tied_to_previous);
        self.current_beat = Some(beat);
        self.update_extension_chain(element);
        self.state = State::CollectingPitch;
    }

    fn start_beat_with_rest(&mut self, dash_element: &ParsedElement)
        ensures
            final(self)@ == start_rest(old(self)@, dash_element@),
    {
        let beat = single_draft(rest_for(dash_element), false);
        self.current_beat = Some(beat);
        self.state = State::CollectingRests;
    }

    fn start_beat_with_tied_note(&mut self, dash_element: &ParsedElement)
        ensures
            final(self)@ == start_tied(old(self)@, dash_element@),
    {
        if let Some(degree) = self.last_note_across_beats {
            let tied_note = ParsedElement::Note {
                degree,
                octave: 0,
                value: degree_debug_name(degree),
                position: element_position(dash_element),
                children: Vec::new(),
                duration: None,
                beat_group: None,
                slur_position: SlurPosition::Unslurred,
                in_beat_group: false,
            };
            proof {
                assert(crate::rhythm::types::children_view(Seq::<ParsedChild>::empty()) =~= Seq::empty());
            }
            let beat = single_draft(tied_note, true);
            self.current_beat = Some(beat);
            self.state = State::CollectingPitch;
        } else {
            self.start_beat_with_rest(dash_element);
        }
    }

    fn add_note_to_beat(&mut self, element: &ParsedElement)
        requires
            old(self)@.beat matches Some(b) ==> b.divisions < usize::MAX,
        ensures
            final(self)@ == add_note(old(self)@, element@),
    {
        match self.current_beat.take() {
            Some(mut beat) => {
                let ghost before = beat.elements@;
                beat.divisions = beat.divisions + 1;
                beat.elements.push((copy_element(element), 1));
                assert(draft_elements_view(beat.elements@) =~= draft_elements_view(before).push((element@, 1usize)));
                self.current_beat = Some(beat);
                self.update_extension_chain(element);
            },
            None => {},
        }
    }

    fn add_rest_to_beat(&mut self, dash_element: &ParsedElement)
        requires
            old(self)@.beat matches Some(b) ==> b.divisions < usize::MAX,
        ensures
            final(self)@ == add_rest(old(self)@, dash_element@),
    {
        match self.current_beat.take() {
            Some(mut beat) => {
                let ghost before = beat.elements@;
                let rest = rest_for(dash_element);
                beat.divisions = beat.divisions + 1;
                beat.elements.push((rest, 1));
                assert(draft_elements_view(beat.elements@) =~=
                    draft_elements_view(before).push((rest_view(position_of(dash_element@)), 1usize)));
                self.current_beat = Some(beat);
            },
            None => {},
        }
    }

    fn extend_last_element(&mut self)
        requires
            old(self)@.beat matches Some(b) ==> b.divisions < usize::MAX
                && (b.elements.len() > 0 ==> b.elements.last().1 < usize::MAX),
        ensures
            final(self)@ == extend_last(old(self)@),
    {
        match self.current_beat.take() {
            Some(mut beat) => {
                let ghost before = beat.elements@;
                beat.divisions = beat.divisions + 1;
                if beat.elements.len() > 0 {
                    let (last, sub) = beat.elements.pop().unwrap();
                    beat.elements.push((last, sub + 1));
                    assert(draft_elements_view(beat.elements@) =~= draft_elements_view(before).update(
                        before.len() - 1, (draft_elements_view(before).last().0, (draft_elements_view(before).last().1 + 1) as usize)));
                }
                self.current_beat = Some(beat);
            },
            None => {},
        }
    }

    fn handle_breathmark(&mut self)
        ensures
            final(self)@ == breathmark(old(self)@),
    {
        self.extension_chain_active = false;
        self.last_note_across_beats = None;
        let ghost before = self.output@;
        self.output.push(Item::Breathmark);
        assert(items_view(self.output@) =~= items_view(before).push(ItemView::Breathmark));
    }

    fn emit_barline(&mut self, element: &ParsedElement)
        ensures
            final(self)@ == emit_barline(old(self)@, element@),
    {
        if let ParsedElement::Barline { style, tala, .. } = element {
            match BarlineType::from_str(style.as_str()) {
                Ok(barline_type) => {
                    let ghost before = self.output@;
                    self.output.push(Item::Barline(barline_type, *tala));
                    assert(items_view(self.output@) =~= items_view(before).push(ItemView::Barline(barline_type, *tala)));
                },
                Err(_) => {},
            }
        }
    }
}


proof fn lemma_draft_view_remove_first(v: Seq<(ParsedElement, usize)>)
    requires
        v.len() > 0,
    ensures
        draft_elements_view(v).len() == v.len(),
        draft_elements_view(v)[0] == (v[0].0@, v[0].1),
        draft_elements_view(v.subrange(1, v.len() as int)) == draft_elements_view(v).skip(1),
{
    assert(draft_elements_view(v.subrange(1, v.len() as int)) =~= draft_elements_view(v).skip(1));
}

fn finish_elements(v: Vec<(ParsedElement, usize)>, divisions: usize, tuplet: bool, power: usize) -> (r: Vec<BeatElement>)
    requires
        1 <= divisions <= usize::MAX / 8,
        tuplet ==> 2 <= power < divisions,
        forall|i: int| 0 <= i < v@.len() ==> #[trigger] v@[i].1 <= divisions,
    ensures
        beat_elements_view(r@) == Seq::new(v@.len(), |i: int|
            finished_element(draft_elements_view(v@)[i].0, draft_elements_view(v@)[i].1, divisions, tuplet, power as nat)),
{
    let ghost orig = draft_elements_view(v@);
    let ghost target = Seq::new(v@.len(), |i: int| finished_element(orig[i].0, orig[i].1, divisions, tuplet, power as nat));
    let mut rest = v;
    let mut out: Vec<BeatElement> = Vec::new();
    let ghost mut k: int = 0;
    while rest.len() > 0
        invariant
            1 <= divisions <= usize::MAX / 8,
            tuplet ==> 2 <= power < divisions,
            0 <= k <= orig.len(),
            orig.len() == target.len(),
            draft_elements_view(rest@) == orig.skip(k),
            forall|i: int| 0 <= i < rest@.len() ==> #[trigger] rest@[i].1 <= divisions,
            beat_elements_view(out@) == target.take(k),
            forall|i: int| 0 <= i < target.len() ==> #[trigger] target[i]
                == finished_element(orig[i].0, orig[i].1, divisions, tuplet, power as nat),
        decreases rest@.len(),
    {
        let ghost before = rest@;
        let (e, sub) = rest.remove(0);
        proof {
            lemma_draft_view_remove_first(before);
            assert(rest@ =~= before.subrange(1, before.len() as int));
            assert(orig.skip(k).skip(1) =~= orig.skip(k + 1));
            assert(draft_elements_view(before)[0] == orig.skip(k)[0]);
            assert(orig[k] == (e@, sub));
            assert(draft_elements_view(rest@) =~= orig.skip(k + 1));
            assert forall|i: int| 0 <= i < rest@.len() implies #[trigger] rest@[i].1 <= divisions by {
                assert(rest@[i] == before[i + 1]);
            }
            assert(before[0].1 <= divisions);
        }
        let element = if tuplet {
            let d = reduce_fraction(sub, divisions);
            let t = reduce_fraction(sub, 4 * power);
            BeatElement { element: e, subdivisions: sub, duration: d, tuplet_duration: t, tuplet_display_duration: Some(t) }
        } else {
            let d = reduce_fraction(sub, 4 * divisions);
            BeatElement { element: e, subdivisions: sub, duration: d, tuplet_duration: d, tuplet_display_duration: None }
        };
        proof {
            assert(element@ == target[k]);
        }
        let ghost prev = out@;
        out.push(element);
        proof {
            assert(beat_elements_view(out@) =~= beat_elements_view(prev).push(target[k]));
            assert(target.take(k + 1) =~= target.take(k).push(target[k]));
            k = k + 1;
        }
    }
    proof {
        assert(target.take(k) =~= target);
    }
    out
}

impl Fsm {
    fn finish_beat(&mut self)
        requires
            old(self)@.beat matches Some(b) ==> 1 <= b.divisions <= usize::MAX / 8
                && forall|i: int| 0 <= i < b.elements.len() ==> #[trigger] b.elements[i].1 <= b.divisions,
        ensures
            final(self)@ == finish_beat(old(self)@),
    {
        if let Some(draft) = self.current_beat.take() {
            let ghost b = draft@;
            let n = draft.elements.len();
            let divisions = draft.divisions;
            let is_tuplet = n > 1 && divisions > 1 && !is_power_of_two(divisions);
            let power: usize = if is_tuplet { find_next_lower_power_of_2(divisions) } else { 0 };
            proof {
                if is_tuplet {
                    assert(divisions >= 3) by {
                        assert(is_pow2(2)) by { assert(is_pow2(1)); }
                    }
                    lemma_lower_power_of_2(divisions as nat);
                }
                assert(old(self)@.beat == Some(b));
                assert forall|i: int| 0 <= i < draft.elements@.len() implies #[trigger] draft.elements@[i].1 <= divisions by {
                    assert(b.elements[i] == (draft.elements@[i].0@, draft.elements@[i].1));
                    assert(b.elements[i].1 <= b.divisions);
                }
                assert(draft_is_tuplet(b) == is_tuplet);
            }
            if n > 0 && self.extension_chain_active {
                if let ParsedElement::Note { degree, .. } = &draft.elements[n - 1].0 {
                    self.last_note_across_beats = Some(*degree);
                }
            }
            let tied_to_previous = draft.tied;
            let elements = finish_elements(draft.elements, divisions, is_tuplet, power);
            let tuplet_ratio = if is_tuplet { Some((divisions, power)) } else { None };
            let beat = Beat { divisions, elements, tied_to_previous, is_tuplet, tuplet_ratio };
            proof {
                let p = lower_power_of_2(divisions as nat);
                assert(beat@.elements =~= closed_beat(b).elements) by {
                    assert forall|i: int| 0 <= i < b.elements.len() implies
                        finished_element(b.elements[i].0, b.elements[i].1, divisions, is_tuplet, power as nat)
                        == finished_element(b.elements[i].0, b.elements[i].1, divisions, is_tuplet, p) by {
                        if is_tuplet { assert(power as nat == p); }
                    }
                }
                assert(beat@ == closed_beat(b));
            }
            let ghost before = self.output@;
            self.output.push(Item::Beat(beat));
            proof {
                assert(items_view(self.output@) =~= items_view(before).push(ItemView::Beat(closed_beat(b))));
            }
        }
    }

    fn process(&mut self, elements: &[ParsedElement])
        requires
            old(self)@ == fsm_initial(),
            elements@.len() <= usize::MAX / 8,
        ensures
            final(self)@.output == fsm_output(elements_view(elements@)),
    {
        let ghost all = elements_view(elements@);
        let mut i: usize = 0;
        proof {
            assert(all.take(0) =~= Seq::<ParsedElementView>::empty());
        }
        while i < elements.len()
            invariant
                all == elements_view(elements@),
                elements@.len() <= usize::MAX / 8,
                i <= elements@.len(),
                self@ == fsm_run(all.take(i as int)),
                fsm_bounded(self@, i as nat),
            decreases elements@.len() - i,
        {
            let element = &elements[i];
            proof {
                lemma_step_bounded(self@, element@, i as nat);
                assert(all.take(i + 1).drop_last() =~= all.take(i as int));
                assert(all.take(i + 1).last() == element@);
            }
            match self.state {
                State::S0 => match element {
                    ParsedElement::Note { .. } => self.start_beat_with_note(element),
                    ParsedElement::Dash { .. } => {
                        if self.extension_chain_active && self.last_note_across_beats.is_some() {
                            self.start_beat_with_tied_note(element);
                        } else {
                            self.start_beat_with_rest(element);
                        }
                    },
                    ParsedElement::Barline { .. } => self.emit_barline(element),
                    _ => {
                        if is_breath_mark(element) {
                            self.handle_breathmark();
                        }
                    },
                },
                State::InBeat => match element {
                    ParsedElement::Note { .. } => {
                        self.add_note_to_beat(element);
                        self.state = State::CollectingPitch;
                    },
                    ParsedElement::Dash { .. } => {
                        let empty = match &self.current_beat {
                            Some(b) => b.elements.len() == 0,
                            None => true,
                        };
                        if empty {
                            self.add_rest_to_beat(element);
                            self.state = State::CollectingRests;
                        } else {
                            self.extend_last_element();
                            self.state = State::CollectingPitch;
                        }
                    },
                    ParsedElement::Whitespace { .. } => {
                        self.finish_beat();
                        self.state = State::S0;
                    },
                    ParsedElement::Barline { .. } => {
                        self.finish_beat();
                        self.emit_barline(element);
                        self.state = State::S0;
                    },
                    _ => {
                        if is_breath_mark(element) {
                            self.handle_breathmark();
                        }
                    },
                },
                State::CollectingPitch | State::CollectingRests => match element {
                    ParsedElement::Dash { .. } => self.extend_last_element(),
                    ParsedElement::Note { .. } => {
                        self.add_note_to_beat(element);
                        self.state = State::CollectingPitch;
                    },
                    ParsedElement::Whitespace { .. } => {
                        self.finish_beat();
                        self.state = State::S0;
                    },
                    ParsedElement::Barline { .. } => {
                        self.finish_beat();
                        self.emit_barline(element);
                        self.state = State::S0;
                    },
                    _ => {
                        if is_breath_mark(element) {
                            self.handle_breathmark();
                            self.state = State::InBeat;
                        }
                    },
                },
                State::Halt => {},
            }
            i = i + 1;
        }
        proof {
            assert(all.take(i as int) =~= all);
        }
        if self.state == State::InBeat || self.state == State::CollectingPitch || self.state == State::CollectingRests {
            self.finish_beat();
        }
        self.state = State::Halt;
    }
}

/// Groups parsed elements into beats with the state machine and returns its
/// output items: see `fsm_step` for each element's effect and `fsm_output`
/// for the whole.
pub fn convert_parsed_to_fsm_output(elements: &[ParsedElement]) -> (r: Vec<Item>)
    requires
        elements@.len() <= usize::MAX / 8,
    ensures
        items_view(r@) == fsm_output(elements_view(elements@)),
{
    let mut fsm = Fsm::new();
    fsm.process(elements);
    fsm.output
}


/// Sum of the subdivision counts of a beat under construction.
pub open spec fn draft_sum(els: Seq<(ParsedElementView, usize)>) -> nat
    decreases els.len(),
{
    if els.len() == 0 { 0 } else { draft_sum(els.drop_last()) + els.last().1 as nat }
}

/// Sum of the subdivision counts of a closed beat's elements.
pub open spec fn beat_sum(els: Seq<BeatElementView>) -> nat
    decreases els.len(),
{
    if els.len() == 0 { 0 } else { beat_sum(els.drop_last()) + els.last().subdivisions as nat }
}

/// A beat under construction has elements, each spanning at least one
/// subdivision, and its subdivision count is their sum.
pub open spec fn draft_wf(b: DraftView) -> bool {
    &&& b.elements.len() > 0
    &&& b.divisions == draft_sum(b.elements)
    &&& forall|i: int| 0 <= i < b.elements.len() ==> #[trigger] b.elements[i].1 >= 1
}

/// The unit a closed beat's written durations are counted against: the
/// tuplet base for tuplets, the subdivision count otherwise.
pub open spec fn written_base(b: BeatView) -> nat {
    match b.tuplet_ratio {
        Some((_, p)) => p as nat,
        None => b.divisions as nat,
    }
}

/// What holds of every closed beat: it has elements of at least one
/// subdivision each, summing to its subdivision count; it is a tuplet exactly
/// when it has a ratio `(d, p)`, with `d` its subdivision count and `p` a
/// power of two with `p < d <= 2p`; and every element is written as its
/// subdivisions over four times the base (`s/(4p)` in a tuplet, `s/(4d)`
/// otherwise), so the written durations of a regular beat add up to a quarter
/// and those of a tuplet to `d/(4p)`, a quarter under the ratio `d:p`.
pub open spec fn beat_view_wf(b: BeatView) -> bool {
    &&& b.elements.len() > 0
    &&& b.divisions == beat_sum(b.elements)
    &&& forall|i: int| 0 <= i < b.elements.len() ==> #[trigger] b.elements[i].subdivisions >= 1
    &&& (b.is_tuplet <==> b.tuplet_ratio is Some)
    &&& (b.is_tuplet <==> (b.elements.len() > 1 && !is_pow2(b.divisions as nat)))
    &&& (b.tuplet_ratio matches Some((d, p)) ==> d == b.divisions && is_pow2(p as nat) && p < d && d <= 2 * p)
    &&& forall|i: int| 0 <= i < b.elements.len() ==> {
        &&& #[trigger] b.elements[i].tuplet_duration.1 > 0
        &&& b.elements[i].tuplet_duration.0 * (4 * written_base(b))
            == b.elements[i].subdivisions * b.elements[i].tuplet_duration.1
        &&& b.elements[i].duration.1 > 0
        &&& b.elements[i].duration.0 * sounding_base(b) == b.elements[i].subdivisions * b.elements[i].duration.1
        &&& b.elements[i].tuplet_display_duration
            == (if b.is_tuplet { Some(b.elements[i].tuplet_duration) } else { None })
        &&& !b.is_tuplet ==> b.elements[i].tuplet_duration == b.elements[i].duration
    }
}

/// The unit a closed beat's sounding durations are counted against: the
/// subdivision count in a tuplet (an element lasts `s/d` of the tuplet), four
/// times it otherwise (an element lasts `s/(4d)` of a whole note).
pub open spec fn sounding_base(b: BeatView) -> int {
    if b.is_tuplet { b.divisions as int } else { 4 * b.divisions }
}

/// The machine's invariant: the beat under construction and every beat output
/// are well formed.
pub open spec fn fsm_inv(m: FsmView) -> bool {
    &&& (m.beat matches Some(b) ==> draft_wf(b))
    &&& forall|i: int| 0 <= i < m.output.len() ==> (#[trigger] m.output[i] matches ItemView::Beat(bv) ==> beat_view_wf(bv))
}

proof fn lemma_draft_sum_push(els: Seq<(ParsedElementView, usize)>, x: (ParsedElementView, usize))
    ensures
        draft_sum(els.push(x)) == draft_sum(els) + x.1,
{
    assert(els.push(x).drop_last() =~= els);
}

proof fn lemma_draft_sum_single(x: (ParsedElementView, usize))
    ensures
        draft_sum(seq![x]) == x.1,
{
    let s1 = seq![x];
    assert(s1.len() == 1);
    assert(s1.last() == x);
    assert(s1.drop_last() =~= Seq::<(ParsedElementView, usize)>::empty());
    assert(draft_sum(Seq::<(ParsedElementView, usize)>::empty()) == 0);
    assert(draft_sum(s1) == draft_sum(s1.drop_last()) + s1.last().1 as nat);
}

proof fn lemma_draft_sum_update_last(els: Seq<(ParsedElementView, usize)>, v: usize)
    requires
        els.len() > 0,
    ensures
        draft_sum(els.update(els.len() - 1, (els.last().0, v))) == draft_sum(els.drop_last()) + v,
{
    assert(els.update(els.len() - 1, (els.last().0, v)).drop_last() =~= els.drop_last());
}

proof fn lemma_sums_match(els: Seq<(ParsedElementView, usize)>, closed: Seq<BeatElementView>)
    requires
        closed.len() == els.len(),
        forall|i: int| 0 <= i < els.len() ==> #[trigger] closed[i].subdivisions == els[i].1,
    ensures
        beat_sum(closed) == draft_sum(els),
    decreases els.len(),
{
    if els.len() > 0 {
        lemma_sums_match(els.drop_last(), closed.drop_last());
    }
}

proof fn lemma_closed_beat_wf(b: DraftView)
    requires
        draft_wf(b),
        b.divisions <= usize::MAX / 8,
        forall|i: int| 0 <= i < b.elements.len() ==> #[trigger] b.elements[i].1 <= b.divisions,
    ensures
        beat_view_wf(closed_beat(b)),
{
    let c = closed_beat(b);
    let tuplet = draft_is_tuplet(b);
    let p = lower_power_of_2(b.divisions as nat);
    assert(b.divisions >= 1) by {
        assert(b.elements[b.elements.len() - 1].1 >= 1);
        lemma_draft_sum_ge_last(b.elements);
    }
    lemma_sums_match(b.elements, c.elements);
    if tuplet {
        assert(b.divisions >= 3) by {
            assert(is_pow2(2)) by { assert(is_pow2(1)); }
        }
        lemma_lower_power_of_2(b.divisions as nat);
    }
    let base: nat = if tuplet { p } else { b.divisions as nat };
    assert(written_base(c) == base);
    assert(base >= 1);
    assert(4 * base <= usize::MAX);
    assert forall|i: int| 0 <= i < c.elements.len() implies {
        &&& #[trigger] c.elements[i].tuplet_duration.1 > 0
        &&& c.elements[i].tuplet_duration.0 * (4 * written_base(c)) == c.elements[i].subdivisions * c.elements[i].tuplet_duration.1
        &&& c.elements[i].duration.1 > 0
        &&& c.elements[i].duration.0 * sounding_base(c) == c.elements[i].subdivisions * c.elements[i].duration.1
        &&& c.elements[i].tuplet_display_duration
            == (if c.is_tuplet { Some(c.elements[i].tuplet_duration) } else { None })
        &&& !c.is_tuplet ==> c.elements[i].tuplet_duration == c.elements[i].duration
    } by {
        let sub = b.elements[i].1;
        assert(sub <= b.divisions);
        lemma_reduce_keeps_value_bounded(sub as nat, 4 * base);
        let sb: nat = if tuplet { b.divisions as nat } else { 4 * b.divisions as nat };
        assert(sounding_base(c) == sb);
        lemma_reduce_keeps_value_bounded(sub as nat, sb);
    }
    assert forall|i: int| 0 <= i < c.elements.len() implies #[trigger] c.elements[i].subdivisions >= 1 by {
        assert(b.elements[i].1 >= 1);
    }
}

proof fn lemma_draft_sum_ge_last(els: Seq<(ParsedElementView, usize)>)
    requires
        els.len() > 0,
    ensures
        draft_sum(els) >= els.last().1,
{
}

proof fn lemma_reduce_keeps_value_bounded(n: nat, d: nat)
    requires
        d > 0,
        d <= usize::MAX,
        n <= usize::MAX,
    ensures
        reduced(n, d).1 > 0,
        reduced(n, d).0 * d == n * reduced(n, d).1,
{
    crate::rhythm_fsm_v2_clean::lemma_reduce_keeps_value(n, d);
}

proof fn lemma_step_inv(m: FsmView, e: ParsedElementView, k: nat)
    requires
        fsm_bounded(m, k),
        fsm_inv(m),
        k < usize::MAX / 8,
    ensures
        fsm_inv(fsm_step(m, e)),
{
    let r = fsm_step(m, e);
    lemma_draft_sum_single((e, 1usize));
    lemma_draft_sum_single((rest_view(position_of(e)), 1usize));
    if let Some(d) = m.last_note {
        lemma_draft_sum_single((tied_note_view(d, position_of(e)), 1usize));
    }
    if let Some(b0) = m.beat {
        lemma_draft_sum_push(b0.elements, (e, 1usize));
        lemma_draft_sum_push(b0.elements, (rest_view(position_of(e)), 1usize));
        if b0.elements.len() > 0 {
            let last = b0.elements.last();
            lemma_draft_sum_update_last(b0.elements, (last.1 + 1) as usize);
            assert(b0.elements.drop_last().push(last) =~= b0.elements);
            lemma_draft_sum_push(b0.elements.drop_last(), last);
        }
        lemma_closed_beat_wf(b0);
        let cl = ItemView::Beat(closed_beat(b0));
        assert forall|i: int| 0 <= i < m.output.len() + 1 implies
            (#[trigger] m.output.push(cl)[i] matches ItemView::Beat(bv) ==> beat_view_wf(bv)) by {
            if i < m.output.len() { assert(m.output.push(cl)[i] == m.output[i]); }
        }
    }
    assert forall|i: int| 0 <= i < m.output.len() + 1 implies
        (#[trigger] m.output.push(ItemView::Breathmark)[i] matches ItemView::Beat(bv) ==> beat_view_wf(bv)) by {
        if i < m.output.len() { assert(m.output.push(ItemView::Breathmark)[i] == m.output[i]); }
    }
    if let ParsedElementView::Barline { style, tala, .. } = e {
        if let Some(t) = barline_of(style) {
            let bl = ItemView::Barline(t, tala);
            assert forall|i: int| 0 <= i < m.output.len() + 1 implies
                (#[trigger] m.output.push(bl)[i] matches ItemView::Beat(bv) ==> beat_view_wf(bv)) by {
                if i < m.output.len() { assert(m.output.push(bl)[i] == m.output[i]); }
            }
            if let Some(b0) = m.beat {
                let fm = finish_beat(m);
                assert forall|i: int| 0 <= i < fm.output.len() + 1 implies
                    (#[trigger] fm.output.push(bl)[i] matches ItemView::Beat(bv) ==> beat_view_wf(bv)) by {
                    if i < fm.output.len() { assert(fm.output.push(bl)[i] == fm.output[i]); }
                }
            }
        }
    }
    if let Some(b) = r.beat {
        assert forall|i: int| 0 <= i < b.elements.len() implies #[trigger] b.elements[i].1 >= 1 by {
            if let Some(b0) = m.beat {
                if i < b0.elements.len() { assert(b0.elements[i].1 >= 1); }
            }
        }
        assert(b.elements.len() > 0);
        assert(b.divisions == draft_sum(b.elements));
    }
    assert(forall|i: int| 0 <= i < r.output.len() ==> (#[trigger] r.output[i] matches ItemView::Beat(bv) ==> beat_view_wf(bv)));
}

proof fn lemma_run_inv(s: Seq<ParsedElementView>)
    requires
        s.len() <= usize::MAX / 8,
    ensures
        fsm_inv(fsm_run(s)),
        fsm_bounded(fsm_run(s), s.len()),
    decreases s.len(),
{
    if s.len() > 0 {
        lemma_run_inv(s.drop_last());
        lemma_step_bounded(fsm_run(s.drop_last()), s.last(), s.drop_last().len());
        lemma_step_inv(fsm_run(s.drop_last()), s.last(), s.drop_last().len());
    } else {
        assert(fsm_run(s) == fsm_initial());
    }
}

/// Every beat the machine outputs is well formed (see `beat_view_wf`): its
/// subdivisions add up to its count, a tuplet of `d` subdivisions has a base
/// `p` that is a power of two with `p < d <= 2p`, and each element is written
/// as its share of four times the base.
pub proof fn lemma_fsm_output_beats_wf(s: Seq<ParsedElementView>)
    requires
        s.len() <= usize::MAX / 8,
    ensures
        forall|i: int| 0 <= i < fsm_output(s).len() ==>
            (#[trigger] fsm_output(s)[i] matches ItemView::Beat(b) ==> beat_view_wf(b)),
{
    lemma_run_inv(s);
    let m = fsm_run(s);
    if !(m.state == State::S0 || m.state == State::Halt) {
        if let Some(b0) = m.beat {
            lemma_closed_beat_wf(b0);
            let cl = ItemView::Beat(closed_beat(b0));
            assert forall|i: int| 0 <= i < m.output.len() + 1 implies
                (#[trigger] m.output.push(cl)[i] matches ItemView::Beat(bv) ==> beat_view_wf(bv)) by {
                if i < m.output.len() { assert(m.output.push(cl)[i] == m.output[i]); }
            }
        }
    }
}

/// A beat the machine outputs is a tuplet exactly when it has more than one
/// element and its subdivision count is not a power of two; a tuplet of `d`
/// subdivisions has the ratio `d` to the power of two `p` with `p < d <= 2p`.
/// An element of `s` subdivisions lasts `s/d` of a tuplet and is written as
/// `s/(4p)`; in any other beat it lasts and is written as `s/(4d)`.
pub proof fn lemma_fsm_tuplets(s: Seq<ParsedElementView>, i: int)
    requires
        s.len() <= usize::MAX / 8,
        0 <= i < fsm_output(s).len(),
        fsm_output(s)[i] is Beat,
    ensures
        ({
            let b = fsm_output(s)[i]->Beat_0;
            &&& b.is_tuplet <==> (b.elements.len() > 1 && !is_pow2(b.divisions as nat))
            &&& b.is_tuplet ==> (b.tuplet_ratio matches Some((d, p)) && d == b.divisions
                && is_pow2(p as nat) && p < d && d <= 2 * p)
            &&& !b.is_tuplet ==> b.tuplet_ratio is None
            &&& forall|k: int| 0 <= k < b.elements.len() ==> {
                let e = #[trigger] b.elements[k];
                &&& e.duration.1 > 0 && e.tuplet_duration.1 > 0
                &&& b.is_tuplet ==> (b.tuplet_ratio matches Some((d, p))
                    && e.duration.0 * d == e.subdivisions * e.duration.1
                    && e.tuplet_duration.0 * (4 * p) == e.subdivisions * e.tuplet_duration.1
                    && e.tuplet_display_duration == Some(e.tuplet_duration))
                &&& !b.is_tuplet ==> (e.duration.0 * (4 * b.divisions) == e.subdivisions * e.duration.1
                    && e.tuplet_duration == e.duration
                    && e.tuplet_display_duration is None)
            }
        }),
{
    lemma_fsm_output_beats_wf(s);
    assert(fsm_output(s)[i] matches ItemView::Beat(b) ==> beat_view_wf(b));
    let b = fsm_output(s)[i]->Beat_0;
    assert(beat_view_wf(b));
    assert forall|k: int| 0 <= k < b.elements.len() implies {
        let e = #[trigger] b.elements[k];
        &&& e.duration.1 > 0 && e.tuplet_duration.1 > 0
        &&& b.is_tuplet ==> (b.tuplet_ratio matches Some((d, p))
            && e.duration.0 * d == e.subdivisions * e.duration.1
            && e.tuplet_duration.0 * (4 * p) == e.subdivisions * e.tuplet_duration.1
            && e.tuplet_display_duration == Some(e.tuplet_duration))
        &&& !b.is_tuplet ==> (e.duration.0 * (4 * b.divisions) == e.subdivisions * e.duration.1
            && e.tuplet_duration == e.duration
            && e.tuplet_display_duration is None)
    } by {
        assert(b.elements[k].tuplet_duration.1 > 0);
    }
}

} // verus!
