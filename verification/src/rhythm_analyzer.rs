//! Rhythm of beats: each note of a beat lasts one subdivision plus the dashes
//! after it, tuplets are the beats whose subdivision count is not a power of
//! two, and the tuplet's space is the power of two it is played in.
use vstd::prelude::*;
use crate::pitch::PitchCode;
use crate::rhythm_fsm::{is_pow2, is_power_of_two};
use crate::rhythm_fsm_v2_clean::{reduce, reduce_fraction, lemma_reduce_keeps_value};
use crate::vexflow_js_generator::{double_until, lemma_double_until};

verus! {

/// Whether a subdivision count makes a tuplet: it is positive and not a
/// power of two.
pub fn is_tuplet_division(divisions: usize) -> (r: bool)
    ensures
        r == (divisions > 0 && !is_pow2(divisions as nat)),
{
    divisions > 0 && !is_power_of_two(divisions)
}

/// The space of a tuplet of `d` subdivisions: the largest power of two not
/// above `d` (0 for no subdivisions).
pub open spec fn tuplet_space(d: nat) -> nat {
    let p = double_until(1, d);
    if p > d { p / 2 } else { p }
}

/// The tuplet ratio of `d` subdivisions: `d` in the time of 2 for 3, of 4 for
/// 5 to 7, of 8 for 9 to 12, else of `tuplet_space(d)`.
pub open spec fn tuplet_ratio(d: usize) -> (usize, usize) {
    if d == 3 { (3, 2) }
    else if d == 5 { (5, 4) } else if d == 6 { (6, 4) } else if d == 7 { (7, 4) }
    else if d == 9 { (9, 8) } else if d == 10 { (10, 8) } else if d == 11 { (11, 8) } else if d == 12 { (12, 8) }
    else { (d, tuplet_space(d as nat) as usize) }
}

/// The tuplet ratio of a subdivision count (see `tuplet_ratio`).
pub fn calculate_tuplet_ratio(divisions: usize) -> (r: (usize, usize))
    requires
        divisions <= usize::MAX / 2,
    ensures
        r == tuplet_ratio(divisions),
{
    match divisions {
        3 => (3, 2),
        5 => (5, 4),
        6 => (6, 4),
        7 => (7, 4),
        9 => (9, 8),
        10 => (10, 8),
        11 => (11, 8),
        12 => (12, 8),
        _ => {
            let mut power_of_two: usize = 1;
            while power_of_two < divisions
                invariant
                    divisions <= usize::MAX / 2,
                    1 <= power_of_two,
                    power_of_two < 2 * divisions || power_of_two == 1,
                    double_until(power_of_two as nat, divisions as nat) == double_until(1, divisions as nat),
                decreases 2 * divisions - power_of_two,
            {
                power_of_two = power_of_two * 2;
            }
            if power_of_two > divisions {
                power_of_two = power_of_two / 2;
            }
            (divisions, power_of_two)
        },
    }
}

/// A positive subdivision count lies between its tuplet space `p` and `2p`,
/// `p` a power of two.
pub proof fn lemma_tuplet_space(d: nat)
    requires
        d >= 1,
    ensures
        is_pow2(tuplet_space(d)),
        tuplet_space(d) <= d < 2 * tuplet_space(d),
{
    assert(is_pow2(1));
    if d == 1 {
        assert(double_until(1, 1) == 1);
    } else {
        lemma_double_until(1, d);
        let q = double_until(1, d);
        assert(q >= 2);
        if q > d {
            assert(q % 2 == 0) by {
                assert(is_pow2(q));
            }
            assert(is_pow2(q / 2));
        }
    }
}


/// The notation a note was written in.
#[derive(Clone, Copy, Debug, PartialEq, Eq, Structural)]
pub enum NotationSystem {
    Number,
    Western,
    Sargam,
    Doremi,
}

/// A note of a beat, with the duration the rhythm analysis gives it.
#[derive(Clone, Debug)]
pub struct Note {
    pub value: Option<String>,
    pub char_index: usize,
    pub pitch_code: PitchCode,
    pub notation_system: NotationSystem,
    /// Octave relative to the middle octave.
    pub octave: i8,
    /// Numerator of the note's duration as a fraction of a whole note.
    pub numerator: Option<u32>,
    /// Denominator of the note's duration as a fraction of a whole note.
    pub denominator: Option<u32>,
}

impl Note {
    /// A note with no duration yet.
    pub fn new(value: Option<String>, char_index: usize, pitch_code: PitchCode, notation_system: NotationSystem) -> (r: Note)
        ensures
            r.value == value,
            r.char_index == char_index,
            r.pitch_code == pitch_code,
            r.notation_system == notation_system,
            r.octave == 0,
            r.numerator is None,
            r.denominator is None,
    {
        Note { value, char_index, pitch_code, notation_system, octave: 0, numerator: None, denominator: None }
    }
}

/// A dash: it lengthens the note before it in the beat. A dash that stands
/// for a rest carries the rest's duration.
#[derive(Clone, Debug)]
pub struct Dash {
    pub value: Option<String>,
    pub char_index: usize,
    pub numerator: Option<u32>,
    pub denominator: Option<u32>,
}

/// A rest, with its duration once known.
#[derive(Clone, Debug)]
pub struct Rest {
    pub value: Option<String>,
    pub char_index: usize,
    pub numerator: Option<u32>,
    pub denominator: Option<u32>,
}

/// A breath mark: it takes no time.
#[derive(Clone, Debug)]
pub struct BreathMark {
    pub value: Option<String>,
    pub char_index: usize,
}

/// An element of a beat.
#[derive(Clone, Debug)]
pub enum BeatElement {
    Note(Note),
    Dash(Dash),
    BreathMark(BreathMark),
    Rest(Rest),
}

/// A beat: its elements and what the rhythm analysis finds of it.
#[derive(Clone, Debug)]
pub struct Beat {
    pub elements: Vec<BeatElement>,
    pub value: Option<String>,
    pub char_index: usize,
    /// Number of subdivisions of the beat.
    pub divisions: Option<usize>,
    /// Length of the beat as a fraction (numerator, denominator) of a whole note.
    pub total_duration: Option<(u64, u64)>,
    pub is_tuplet: Option<bool>,
    pub tuplet_ratio: Option<(usize, usize)>,
    /// Whether the beat opens with dashes that continue the previous beat.
    pub tied_to_previous: Option<bool>,
}

/// Number of notes among the first `i` elements.
pub open spec fn notes_before(es: Seq<BeatElement>, i: int) -> nat
    decreases i,
{
    if i <= 0 { 0 } else { notes_before(es, i - 1) + if es[i - 1] is Note { 1nat } else { 0nat } }
}

/// Number of subdivisions among the first `i` elements: every note, dash and
/// rest takes one; breath marks none.
pub open spec fn subdivisions_before(es: Seq<BeatElement>, i: int) -> nat
    decreases i,
{
    if i <= 0 { 0 } else { subdivisions_before(es, i - 1) + if es[i - 1] is BreathMark { 0nat } else { 1nat } }
}

/// Number of dashes in positions `i` to `j - 1` that come before any note
/// from position `i` on.
pub open spec fn dashes_between(es: Seq<BeatElement>, i: int, j: int) -> nat
    decreases j - i,
{
    if j <= i {
        0
    } else {
        dashes_between(es, i, j - 1)
            + if es[j - 1] is Dash && notes_before(es, j - 1) == notes_before(es, i) { 1nat } else { 0nat }
    }
}

/// Subdivisions the note at position `i` lasts: its own and those of the
/// dashes after it up to the next note.
pub open spec fn note_subdivisions(es: Seq<BeatElement>, i: int) -> nat {
    1 + dashes_between(es, i + 1, es.len() as int)
}

/// Whether the beat opens with a dash: the first element that is not a
/// breath mark is a dash.
pub open spec fn opens_with_dash(es: Seq<BeatElement>) -> bool {
    exists|i: int| 0 <= i < es.len() && #[trigger] es[i] is Dash && (forall|k: int| 0 <= k < i ==> #[trigger] es[k] is BreathMark)
}

/// An element after the analysis of a beat of `total` subdivisions: a note
/// at position `i` gets its share of the beat (a quarter note) in lowest
/// terms; other elements are unchanged.
pub open spec fn analyzed_element(es: Seq<BeatElement>, i: int, total: nat) -> BeatElement {
    match es[i] {
        BeatElement::Note(n) => {
            let d = reduce(note_subdivisions(es, i), 4 * total);
            BeatElement::Note(Note { numerator: Some(d.0 as u32), denominator: Some(d.1 as u32), ..n })
        },
        e => e,
    }
}

/// Whether `after` is `before` analyzed: a beat without elements is left as
/// it is; otherwise the beat is tied to the previous one when it opens with a
/// dash, its subdivision count is that of its notes, dashes and rests, it
/// lasts a quarter note, it is a tuplet when that count is not a power of two
/// (and then gets its tuplet ratio), and each note gets its share of the beat
/// (see `analyzed_element`).
pub open spec fn beat_analyzed(before: Beat, after: Beat) -> bool {
    if before.elements@.len() == 0 {
        after == before
    } else {
        let es = before.elements@;
        let total = subdivisions_before(es, es.len() as int);
        &&& after.elements@ == Seq::new(es.len(), |i: int| analyzed_element(es, i, total))
        &&& after.value == before.value
        &&& after.char_index == before.char_index
        &&& after.divisions == Some(total as usize)
        &&& after.total_duration == Some((1u64, 4u64))
        &&& after.is_tuplet == Some(total > 0 && !is_pow2(total))
        &&& after.tuplet_ratio == if total > 0 && !is_pow2(total) {
                Some(tuplet_ratio(total as usize))
            } else {
                before.tuplet_ratio
            }
        &&& after.tied_to_previous == if opens_with_dash(es) { Some(true) } else { before.tied_to_previous }
    }
}

/// Number of rests among the first `j` elements.
pub open spec fn rests_before(es: Seq<BeatElement>, j: int) -> nat
    decreases j,
{
    if j <= 0 { 0 } else { rests_before(es, j - 1) + if es[j - 1] is Rest { 1nat } else { 0nat } }
}

/// Subdivisions the element at position `i` lasts when the beat ends at
/// `j`: for a note, its own and those of the dashes after it before `j` up
/// to the next note; nothing for other elements.
pub open spec fn note_span(es: Seq<BeatElement>, i: int, j: int) -> nat {
    if es[i] is Note { 1 + dashes_between(es, i + 1, j) } else { 0 }
}

/// Sum of `note_span` over the first `n` positions, for a beat ending at `j`.
pub open spec fn notes_span(es: Seq<BeatElement>, n: int, j: int) -> nat
    decreases n,
{
    if n <= 0 { 0 } else { notes_span(es, n - 1, j) + note_span(es, n - 1, j) }
}

/// Number of notes among the first `n` elements after which `c` notes have been seen.
spec fn notes_reaching(es: Seq<BeatElement>, n: int, c: nat) -> nat
    decreases n,
{
    if n <= 0 { 0 } else {
        notes_reaching(es, n - 1, c) + if es[n - 1] is Note && notes_before(es, n) == c { 1nat } else { 0nat }
    }
}

proof fn lemma_notes_reaching(es: Seq<BeatElement>, n: int, c: nat)
    requires
        0 <= n <= es.len(),
    ensures
        notes_reaching(es, n, c) == if 1 <= c <= notes_before(es, n) { 1nat } else { 0nat },
    decreases n,
{
    if n > 0 {
        lemma_notes_reaching(es, n - 1, c);
    }
}

proof fn lemma_notes_span_step(es: Seq<BeatElement>, n: int, j: int)
    requires
        0 <= n <= j < es.len(),
    ensures
        notes_span(es, n, j + 1) == notes_span(es, n, j)
            + if es[j] is Dash { notes_reaching(es, n, notes_before(es, j)) } else { 0nat },
    decreases n,
{
    if n > 0 {
        lemma_notes_span_step(es, n - 1, j);
        let i = n - 1;
        assert(notes_before(es, i + 1) == notes_before(es, i) + if es[i] is Note { 1nat } else { 0nat });
    }
}

/// The subdivisions of a beat are exactly those of its notes (each with the
/// dashes after it up to the next note), of its rests, and of the dashes it
/// opens with: breath marks take none.
pub proof fn lemma_beat_subdivisions_partition(es: Seq<BeatElement>)
    ensures
        notes_span(es, es.len() as int, es.len() as int) + rests_before(es, es.len() as int) + dashes_between(es, 0, es.len() as int)
            == subdivisions_before(es, es.len() as int),
{
    lemma_partition_prefix(es, es.len() as int);
}

proof fn lemma_partition_prefix(es: Seq<BeatElement>, j: int)
    requires
        0 <= j <= es.len(),
    ensures
        notes_span(es, j, j) + rests_before(es, j) + dashes_between(es, 0, j) == subdivisions_before(es, j),
    decreases j,
{
    if j > 0 {
        let k = j - 1;
        lemma_partition_prefix(es, k);
        lemma_notes_span_step(es, k, k);
        lemma_notes_reaching(es, k, notes_before(es, k));
        assert(notes_span(es, j, j) == notes_span(es, k, j) + note_span(es, k, j));
        assert(dashes_between(es, k + 1, j) == 0);
    }
}

/// The FSM's states while walking a beat.
enum State {
    Initial,
    InNote { note_index: usize },
}

proof fn lemma_notes_before_bound(es: Seq<BeatElement>, i: int, j: int)
    requires
        0 <= i <= j,
    ensures
        notes_before(es, i) <= notes_before(es, j),
        subdivisions_before(es, i) <= subdivisions_before(es, j),
        notes_before(es, j) <= j,
        subdivisions_before(es, j) <= j,
        notes_before(es, j) <= subdivisions_before(es, j),
    decreases j,
{
    if i < j {
        lemma_notes_before_bound(es, i, j - 1);
    } else if j > 0 {
        lemma_notes_before_bound(es, j - 1, j - 1);
    }
}

proof fn lemma_dashes_between_bound(es: Seq<BeatElement>, i: int, j: int)
    requires
        0 <= i <= j,
    ensures
        dashes_between(es, i, j) <= subdivisions_before(es, j) - subdivisions_before(es, i),
    decreases j - i,
{
    if i < j {
        lemma_dashes_between_bound(es, i, j - 1);
        lemma_notes_before_bound(es, i, j - 1);
    }
}

/// Analyzes the rhythm of a beat. A beat without elements is left as it is.
/// Otherwise the beat is marked tied to the previous one when it opens with
/// a dash; its subdivision count is that of its notes, dashes and rests; it
/// lasts a quarter note; it is a tuplet when that count is not a power of
/// two, and then gets its tuplet ratio; each note gets its share of the beat
/// (see `analyzed_element`). The analysis always succeeds.
pub fn analyze_beat_rhythm_fsm(beat: &mut Beat) -> (r: Result<(), String>)
    requires
        4 * old(beat).elements@.len() <= u32::MAX,
    ensures
        r is Ok,
        beat_analyzed(*old(beat), *final(beat)),
{
    let element_count = beat.elements.len();
    if element_count == 0 {
        return Ok(());
    }
    let ghost es = beat.elements@;

    let mut leading_dash_count: usize = 0;
    let mut i: usize = 0;
    while i < beat.elements.len()
        invariant_except_break
            es == beat.elements@,
            i <= es.len(),
            forall|k: int| 0 <= k < i ==> #[trigger] es[k] is BreathMark,
            leading_dash_count == 0,
        ensures
            es == beat.elements@,
            (leading_dash_count > 0) == opens_with_dash(es),
        decreases es.len() - i,
    {
        match &beat.elements[i] {
            BeatElement::Dash(_) => {
                leading_dash_count = leading_dash_count + 1;
                proof {
                    assert(es[i as int] is Dash);
                    assert(opens_with_dash(es));
                }
                break;
            },
            BeatElement::Note(_) => {
                proof {
                    assert forall|j: int| 0 <= j < es.len() && #[trigger] es[j] is Dash
                        implies !(forall|k: int| 0 <= k < j ==> #[trigger] es[k] is BreathMark) by {
                        if j > i {
                            assert(!(es[i as int] is BreathMark));
                        }
                    }
                }
                break;
            },
            BeatElement::BreathMark(_) => {},
            BeatElement::Rest(_) => {
                proof {
                    assert forall|j: int| 0 <= j < es.len() && #[trigger] es[j] is Dash
                        implies !(forall|k: int| 0 <= k < j ==> #[trigger] es[k] is BreathMark) by {
                        if j > i {
                            assert(!(es[i as int] is BreathMark));
                        }
                    }
                }
                break;
            },
        }
        i = i + 1;
    }
    if leading_dash_count > 0 {
        beat.tied_to_previous = Some(true);
    }
    let ghost tied = beat.tied_to_previous;

    let mut note_subdivisions: Vec<usize> = Vec::new();
    let mut state = State::Initial;
    let mut total_subdivisions: usize = 0;
    let mut j: usize = 0;
    while j < beat.elements.len()
        invariant
            es == beat.elements@,
            4 * es.len() <= u32::MAX,
            j <= es.len(),
            total_subdivisions == subdivisions_before(es, j as int),
            total_subdivisions <= j,
            note_subdivisions@.len() == notes_before(es, j as int),
            forall|k: int| 0 <= k < note_subdivisions@.len() ==> 1 <= #[trigger] note_subdivisions@[k] <= total_subdivisions,
            forall|p: int| 0 <= p < j && #[trigger] es[p] is Note ==>
                note_subdivisions@[notes_before(es, p) as int] == 1 + dashes_between(es, p + 1, j as int),
            match state {
                State::Initial => note_subdivisions@.len() == 0,
                State::InNote { note_index } => note_subdivisions@.len() > 0 && note_index == note_subdivisions@.len() - 1,
            },
        decreases es.len() - j,
    {
        proof {
            lemma_notes_before_bound(es, j as int, j as int + 1);
        }
        let ghost before = note_subdivisions@;
        match &beat.elements[j] {
            BeatElement::Note(_) => {
                note_subdivisions.push(1);
                total_subdivisions = total_subdivisions + 1;
                state = State::InNote { note_index: note_subdivisions.len() - 1 };
                proof {
                    assert forall|p: int| 0 <= p < j + 1 && #[trigger] es[p] is Note implies
                        note_subdivisions@[notes_before(es, p) as int] == 1 + dashes_between(es, p + 1, j + 1) by {
                        if p < j {
                            lemma_notes_before_bound(es, p + 1, j as int);
                        }
                    }
                }
            },
            BeatElement::Dash(_) => {
                match state {
                    State::InNote { note_index } => {
                        let sub = note_subdivisions[note_index];
                        note_subdivisions.set(note_index, sub + 1);
                        total_subdivisions = total_subdivisions + 1;
                        proof {
                            assert forall|p: int| 0 <= p < j + 1 && #[trigger] es[p] is Note implies
                                note_subdivisions@[notes_before(es, p) as int] == 1 + dashes_between(es, p + 1, j + 1) by {
                                lemma_notes_before_bound(es, p + 1, j as int);
                            }
                        }
                    },
                    State::Initial => {
                        total_subdivisions = total_subdivisions + 1;
                        proof {
                            assert forall|p: int| 0 <= p < j + 1 && #[trigger] es[p] is Note implies false by {
                                lemma_notes_before_bound(es, p + 1, j as int);
                            }
                        }
                    },
                }
            },
            BeatElement::Rest(_) => {
                total_subdivisions = total_subdivisions + 1;
            },
            BeatElement::BreathMark(_) => {},
        }
        j = j + 1;
    }

    assert(beat.tied_to_previous == tied);
    beat.divisions = Some(total_subdivisions);
    beat.total_duration = Some((1u64, 4u64));
    let is_tuplet = is_tuplet_division(total_subdivisions);
    beat.is_tuplet = Some(is_tuplet);
    if is_tuplet {
        beat.tuplet_ratio = Some(calculate_tuplet_ratio(total_subdivisions));
    }

    let ghost fixed = (beat.value, beat.char_index, beat.divisions, beat.total_duration, beat.is_tuplet, beat.tuplet_ratio, beat.tied_to_previous);
    let mut note_index: usize = 0;
    let mut k: usize = 0;
    while k < beat.elements.len()
        invariant
            fixed == (beat.value, beat.char_index, beat.divisions, beat.total_duration, beat.is_tuplet, beat.tuplet_ratio, beat.tied_to_previous),
            beat.elements@.len() == es.len(),
            total_subdivisions <= es.len(),
            4 * es.len() <= u32::MAX,
            k <= es.len(),
            total_subdivisions == subdivisions_before(es, es.len() as int),
            note_subdivisions@.len() == notes_before(es, es.len() as int),
            forall|q: int| 0 <= q < note_subdivisions@.len() ==> 1 <= #[trigger] note_subdivisions@[q] <= total_subdivisions,
            forall|p: int| 0 <= p < es.len() && #[trigger] es[p] is Note ==>
                note_subdivisions@[notes_before(es, p) as int] == 1 + dashes_between(es, p + 1, es.len() as int),
            note_index == notes_before(es, k as int),
            forall|p: int| 0 <= p < k ==> #[trigger] beat.elements@[p] == analyzed_element(es, p, total_subdivisions as nat),
            forall|p: int| k <= p < es.len() ==> #[trigger] beat.elements@[p] == es[p],
        decreases es.len() - k,
    {
        proof {
            lemma_notes_before_bound(es, k as int + 1, es.len() as int);
            lemma_notes_before_bound(es, 0, es.len() as int);
        }
        let replacement = match &beat.elements[k] {
            BeatElement::Note(note) => {
                if note_index < note_subdivisions.len() {
                    let subdivisions = note_subdivisions[note_index];
                    let (numer, denom) = reduce_fraction(subdivisions, 4 * total_subdivisions);
                    proof {
                        lemma_reduce_keeps_value(subdivisions as nat, 4 * total_subdivisions as nat);
                    }
                    Some(BeatElement::Note(Note {
                        value: crate::models::copy_opt_string(&note.value),
                        char_index: note.char_index,
                        pitch_code: note.pitch_code,
                        notation_system: note.notation_system,
                        octave: note.octave,
                        numerator: Some(numer as u32),
                        denominator: Some(denom as u32),
                    }))
                } else {
                    None
                }
            },
            _ => None,
        };
        match replacement {
            Some(e) => {
                beat.elements.set(k, e);
                note_index = note_index + 1;
            },
            None => {},
        }
        k = k + 1;
    }
    proof {
        assert(beat.elements@ =~= Seq::new(es.len(), |i: int| analyzed_element(es, i, subdivisions_before(es, es.len() as int))));
    }
    Ok(())
}


/// The text and place of a bar line.
#[derive(Clone, Debug)]
pub struct BarlineToken {
    pub value: Option<String>,
    pub char_index: usize,
}

/// A bar line of a content line, by kind.
#[derive(Clone, Debug)]
pub enum Barline {
    Single(BarlineToken),
    Double(BarlineToken),
    Final(BarlineToken),
    RepeatStart(BarlineToken),
    RepeatEnd(BarlineToken),
    RepeatBoth(BarlineToken),
}

/// Whitespace between beats.
#[derive(Clone, Debug)]
pub struct Whitespace {
    pub value: Option<String>,
    pub char_index: usize,
}

/// Text the parser did not recognize.
#[derive(Clone, Debug)]
pub struct UnknownToken {
    pub value: Option<String>,
    pub char_index: usize,
}

/// An element of a content line.
#[derive(Clone, Debug)]
pub enum ContentElement {
    Beat(Beat),
    Barline(Barline),
    Whitespace(Whitespace),
    UnknownToken(UnknownToken),
}

/// A content line: its elements and the text it was read from.
#[derive(Clone, Debug)]
pub struct ContentLine {
    pub elements: Vec<ContentElement>,
    pub value: Option<String>,
}

/// Whether every beat of a content line is small enough to analyze.
pub open spec fn beats_fit(es: Seq<ContentElement>) -> bool {
    forall|i: int| 0 <= i < es.len() ==> (#[trigger] es[i] matches ContentElement::Beat(b) ==> 4 * b.elements@.len() <= u32::MAX)
}

/// Analyzes the rhythm of every beat of a content line (see
/// `analyze_beat_rhythm_fsm`); other elements are left as they are. The
/// analysis always succeeds.
pub fn analyze_content_line_rhythm(elements: &mut Vec<ContentElement>) -> (r: Result<(), String>)
    requires
        beats_fit(old(elements)@),
    ensures
        r is Ok,
        final(elements)@.len() == old(elements)@.len(),
        forall|i: int| 0 <= i < old(elements)@.len() ==> match (#[trigger] old(elements)@[i], final(elements)@[i]) {
            (ContentElement::Beat(before), ContentElement::Beat(after)) => beat_analyzed(before, after),
            (ContentElement::Beat(_), _) => false,
            (e, f) => f == e,
        },
{
    let ghost before = elements@;
    let mut i: usize = 0;
    while i < elements.len()
        invariant
            elements@.len() == before.len(),
            i <= before.len(),
            beats_fit(before),
            forall|j: int| i <= j < before.len() ==> #[trigger] elements@[j] == before[j],
            forall|j: int| 0 <= j < i ==> match (#[trigger] before[j], elements@[j]) {
                (ContentElement::Beat(b0), ContentElement::Beat(b1)) => beat_analyzed(b0, b1),
                (ContentElement::Beat(_), _) => false,
                (e, f) => f == e,
            },
        decreases before.len() - i,
    {
        let is_beat = match &elements[i] {
            ContentElement::Beat(_) => true,
            _ => false,
        };
        if is_beat {
            let element = elements.remove(i);
            match element {
                ContentElement::Beat(mut beat) => {
                    proof {
                        assert(before[i as int] == ContentElement::Beat(beat));
                    }
                    let _ = analyze_beat_rhythm_fsm(&mut beat);
                    elements.insert(i, ContentElement::Beat(beat));
                },
                other => {
                    elements.insert(i, other);
                },
            }
        }
        i = i + 1;
    }
    Ok(())
}

} // verus!
