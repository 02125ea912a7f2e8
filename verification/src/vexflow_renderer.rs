//! VexFlow data for staves of analyzed beats, as JSON values: notes with
//! their keys and durations, rests, breath marks, beams over consecutive
//! short notes, tuplets and bar lines.
use vstd::prelude::*;
use crate::pitch::{Degree, PitchCode, degree_step, degree_alteration};
use crate::rhythm::converters::{RhythmConverter, vexflow_lookup, duration_views};
use crate::rhythm_analyzer::{Beat, BeatElement, ContentLine, ContentElement, Barline};
use crate::json::{JsonValue, JsonView, json_view, json_views, json_field_views};
use crate::text::{nat_digits, str_eq};
use crate::to_staff_notation::append_digits;
use crate::vexflow_stave_js::{stave_key, alteration_symbol, VexFlowJSGenerator};

verus! {

/// Renders staves as VexFlow data.
pub struct VexFlowRenderer {}

/// The VexFlow duration (name, dots) of a note value: the first of its table
/// durations, a quarter where there is none.
pub open spec fn vexflow_value(n: u64, d: u64) -> (Seq<char>, u8) {
    let l = vexflow_lookup(n as int, d as int);
    if l.len() > 0 { l[0] } else { ("q"@, 0u8) }
}

/// The `dots` field, present when there are dots.
pub open spec fn dots_field(dots: u8) -> Seq<(Seq<char>, JsonView)> {
    if dots > 0 { seq![("dots"@, JsonView::Number(nat_digits(dots as nat)))] } else { Seq::empty() }
}

/// A rest of a VexFlow duration.
pub open spec fn rest_json(d: (Seq<char>, u8)) -> JsonView {
    JsonView::Object(seq![("type"@, JsonView::String("Rest"@)), ("duration"@, JsonView::String(d.0))] + dots_field(d.1))
}

/// The accidentals of a degree as JSON texts.
pub open spec fn accidentals_json(d: Degree) -> Seq<JsonView> {
    match alteration_symbol(degree_alteration(d)) {
        Some(a) => seq![JsonView::String(a)],
        None => Seq::empty(),
    }
}

/// A note at a key with a VexFlow duration and accidentals.
pub open spec fn note_json(key: Seq<char>, d: (Seq<char>, u8), accidentals: Seq<JsonView>) -> JsonView {
    JsonView::Object(
        seq![("type"@, JsonView::String("Note"@)), ("keys"@, JsonView::Array(seq![JsonView::String(key)])), ("duration"@, JsonView::String(d.0))]
            + dots_field(d.1)
            + if accidentals.len() > 0 { seq![("accidentals"@, JsonView::Array(accidentals))] } else { Seq::empty() },
    )
}

/// The duration a note is drawn with: its own, 1/4 where unknown.
pub open spec fn note_value(e: BeatElement) -> (Seq<char>, u8) {
    match e {
        BeatElement::Note(n) => vexflow_value(
            (match n.numerator { Some(x) => x, None => 1u32 }) as u64, (match n.denominator { Some(x) => x, None => 4u32 }) as u64),
        _ => ("q"@, 0u8),
    }
}

/// The data for one element of a beat: a note, a rest for a dash carrying a
/// duration, a breath mark symbol; nothing for other dashes and rests.
pub open spec fn element_json(e: BeatElement) -> Option<JsonView> {
    match e {
        BeatElement::Note(n) => Some(note_json(stave_key(n.pitch_code, n.octave), note_value(e), accidentals_json(n.pitch_code))),
        BeatElement::Dash(d) => match (d.numerator, d.denominator) {
            (Some(x), Some(y)) => Some(rest_json(vexflow_value(x as u64, y as u64))),
            _ => None,
        },
        BeatElement::BreathMark(_) => Some(JsonView::Object(seq![("type"@, JsonView::String("Symbol"@)), ("symbol"@, JsonView::String("breathmark"@))])),
        BeatElement::Rest(_) => None,
    }
}

/// The data for the first `k` elements of a beat, in order.
pub open spec fn elements_json(es: Seq<BeatElement>, k: int) -> Seq<JsonView>
    decreases k,
{
    if k <= 0 {
        Seq::empty()
    } else {
        elements_json(es, k - 1) + match element_json(es[k - 1]) { Some(v) => seq![v], None => Seq::empty() }
    }
}

/// Whether a VexFlow duration can be beamed: an eighth or shorter.
pub open spec fn beamable_value(d: Seq<char>) -> bool {
    d == "8"@ || d == "16"@ || d == "32"@ || d == "64"@
}

/// Positions (among the first `k` elements of a beat) of the notes that can
/// be beamed.
pub open spec fn beamable_positions(es: Seq<BeatElement>, k: int) -> Seq<int>
    decreases k,
{
    if k <= 0 {
        Seq::empty()
    } else {
        beamable_positions(es, k - 1) + if es[k - 1] is Note && beamable_value(note_value(es[k - 1]).0) {
            seq![k - 1]
        } else {
            Seq::empty()
        }
    }
}

/// Whether positions follow each other one by one.
pub open spec fn consecutive(p: Seq<int>) -> bool {
    forall|k: int| 1 <= k < p.len() ==> #[trigger] p[k] == p[k - 1] + 1
}

/// An object with a field added; other values are unchanged.
pub open spec fn with_field(v: JsonView, key: Seq<char>, value: JsonView) -> JsonView {
    match v {
        JsonView::Object(fields) => JsonView::Object(fields.push((key, value))),
        _ => v,
    }
}

/// An item marked with a field where `at` is a position of the items.
pub open spec fn mark_at(items: Seq<JsonView>, at: int, key: Seq<char>) -> Seq<JsonView> {
    if 0 <= at < items.len() { items.update(at, with_field(items[at], key, JsonView::Bool(true))) } else { items }
}

/// The data for a beat: a rest of the beat (a quarter where its length is
/// unknown) when it has no elements; otherwise the data of its elements,
/// where the output items at the first and last position of two or more
/// consecutive beamable notes start and end a beam.
pub open spec fn beat_json(b: Beat) -> Seq<JsonView> {
    let es = b.elements@;
    if es.len() == 0 {
        let t = match b.total_duration { Some(t) => t, None => (1u64, 4u64) };
        seq![rest_json(vexflow_value(t.0, t.1))]
    } else {
        let items = elements_json(es, es.len() as int);
        let p = beamable_positions(es, es.len() as int);
        if p.len() >= 2 && consecutive(p) {
            mark_at(mark_at(items, p[0], "beam_start"@), p.last(), "beam_end"@)
        } else {
            items
        }
    }
}

/// Whether every note of a beat has an octave whose VexFlow octave fits an `i8`.
pub open spec fn beat_octaves_fit(es: Seq<BeatElement>) -> bool {
    forall|i: int| 0 <= i < es.len() ==> (#[trigger] es[i] matches BeatElement::Note(n) ==> n.octave <= i8::MAX - 4)
}

fn text(s: &str) -> (r: JsonValue)
    ensures
        json_view(r) == JsonView::String(s@),
{
    JsonValue::String(s.to_owned())
}

fn number(n: usize) -> (r: JsonValue)
    ensures
        json_view(r) == JsonView::Number(nat_digits(n as nat)),
{
    let mut digits = String::new();
    append_digits(&mut digits, n);
    proof {
        assert(digits@ =~= Seq::<char>::empty() + nat_digits(n as nat));
    }
    JsonValue::Number(digits)
}

proof fn lemma_views_push(s: Seq<JsonValue>, x: JsonValue)
    ensures
        json_views(s.push(x)) == json_views(s).push(json_view(x)),
{
    assert(s.push(x).subrange(0, s.len() as int) =~= s);
}

proof fn lemma_field_views_push(s: Seq<(String, JsonValue)>, x: (String, JsonValue))
    ensures
        json_field_views(s.push(x)) == json_field_views(s).push((x.0@, json_view(x.1))),
{
    assert(s.push(x).subrange(0, s.len() as int) =~= s);
}

proof fn lemma_views_empty()
    ensures
        json_views(Seq::<JsonValue>::empty()) == Seq::<JsonView>::empty(),
        json_field_views(Seq::<(String, JsonValue)>::empty()) == Seq::<(Seq<char>, JsonView)>::empty(),
{
}

fn push_field(fields: &mut Vec<(String, JsonValue)>, key: &str, value: JsonValue)
    ensures
        json_field_views(final(fields)@) == json_field_views(old(fields)@).push((key@, json_view(value))),
{
    let ghost before = fields@;
    let ghost vv = json_view(value);
    let k = key.to_owned();
    let ghost pair = (k, value);
    fields.push((k, value));
    proof {
        lemma_field_views_push(before, pair);
    }
}

fn push_item(items: &mut Vec<JsonValue>, value: JsonValue)
    ensures
        json_views(final(items)@) == json_views(old(items)@).push(json_view(value)),
{
    let ghost before = items@;
    let ghost v = value;
    items.push(value);
    proof {
        lemma_views_push(before, v);
    }
}

/// The VexFlow duration of a note value (see `vexflow_value`).
pub fn convert_fraction_to_vexflow(numerator: u64, denominator: u64) -> (r: (String, u8))
    ensures
        (r.0@, r.1) == vexflow_value(numerator, denominator),
{
    let durations = RhythmConverter::fraction_to_vexflow(numerator, denominator);
    if durations.len() > 0 {
        let (d, dots) = (&durations[0].0, durations[0].1);
        proof {
            assert(duration_views(durations@)[0] == (durations@[0].0@, durations@[0].1));
        }
        (d.clone(), dots)
    } else {
        proof {
            assert(duration_views(durations@).len() == 0);
        }
        ("q".to_owned(), 0)
    }
}

/// The scale degree of a pitch code: the same degree.
pub fn pitch_code_to_degree(pitch_code: PitchCode) -> (r: Degree)
    ensures
        r == pitch_code,
{
    pitch_code
}

/// The key of a degree at an octave (see `stave_key`) and its accidentals as
/// JSON texts.
pub fn degree_to_vexflow_key(degree: Degree, octave: i8) -> (r: (String, Vec<JsonValue>))
    requires
        octave <= i8::MAX - 4,
    ensures
        r.0@ == stave_key(degree, octave),
        json_views(r.1@) == accidentals_json(degree),
{
    let generator = VexFlowJSGenerator::new();
    let (key, accidentals) = generator.degree_to_vexflow_key(degree, octave);
    let mut items: Vec<JsonValue> = Vec::new();
    proof {
        lemma_views_empty();
    }
    let ghost m = accidentals@.map_values(|s: String| s@);
    proof {
        assert(m.len() == accidentals@.len());
    }
    if accidentals.len() > 0 {
        proof {
            assert(m[0] == accidentals@[0]@);
            assert(alteration_symbol(degree_alteration(degree)) is Some);
        }
        push_item(&mut items, text(accidentals[0].as_str()));
        proof {
            assert(json_views(items@) =~= seq![JsonView::String(accidentals@[0]@)]);
            assert(json_views(items@) =~= accidentals_json(degree));
        }
    } else {
        proof {
            assert(alteration_symbol(degree_alteration(degree)) is None);
            assert(json_views(items@) =~= accidentals_json(degree));
        }
    }
    (key, items)
}

fn rest_object(d: &String, dots: u8) -> (r: JsonValue)
    ensures
        json_view(r) == rest_json((d@, dots)),
{
    let mut fields: Vec<(String, JsonValue)> = Vec::new();
    proof {
        lemma_views_empty();
    }
    push_field(&mut fields, "type", text("Rest"));
    push_field(&mut fields, "duration", text(d.as_str()));
    if dots > 0 {
        push_field(&mut fields, "dots", number(dots as usize));
    }
    proof {
        assert(json_field_views(fields@) =~= seq![("type"@, JsonView::String("Rest"@)), ("duration"@, JsonView::String(d@))] + dots_field(dots));
    }
    JsonValue::Object(fields)
}


proof fn lemma_views_len(s: Seq<JsonValue>)
    ensures
        json_views(s).len() == s.len(),
    decreases s.len(),
{
    if s.len() > 0 {
        lemma_views_len(s.subrange(0, s.len() - 1));
    }
}

proof fn lemma_views_index(s: Seq<JsonValue>, i: int)
    requires
        0 <= i < s.len(),
    ensures
        json_views(s)[i] == json_view(s[i]),
    decreases s.len(),
{
    let t = s.subrange(0, s.len() - 1);
    lemma_views_len(t);
    if i < s.len() - 1 {
        lemma_views_index(t, i);
    }
}

proof fn lemma_views_update(s: Seq<JsonValue>, i: int, x: JsonValue)
    requires
        0 <= i < s.len(),
    ensures
        json_views(s.update(i, x)) == json_views(s).update(i, json_view(x)),
{
    let a = json_views(s.update(i, x));
    let b = json_views(s).update(i, json_view(x));
    lemma_views_len(s.update(i, x));
    lemma_views_len(s);
    assert forall|k: int| 0 <= k < a.len() implies a[k] == b[k] by {
        lemma_views_index(s.update(i, x), k);
        lemma_views_index(s, k);
    }
    assert(a =~= b);
}

fn mark(items: &mut Vec<JsonValue>, at: usize, key: &str)
    ensures
        json_views(final(items)@) == mark_at(json_views(old(items)@), at as int, key@),
{
    proof {
        lemma_views_len(items@);
    }
    if at < items.len() {
        let ghost before = items@;
        let item = items.remove(at);
        let marked = match item {
            JsonValue::Object(fields) => {
                let mut fields = fields;
                let ghost fb = fields@;
                push_field(&mut fields, key, JsonValue::Bool(true));
                JsonValue::Object(fields)
            },
            other => other,
        };
        proof {
            lemma_views_index(before, at as int);
            assert(json_view(marked) == with_field(json_view(before[at as int]), key@, JsonView::Bool(true)));
        }
        items.insert(at, marked);
        proof {
            assert(items@ =~= before.update(at as int, marked));
            lemma_views_update(before, at as int, marked);
        }
    }
}

fn is_beamable_value(d: &String) -> (r: bool)
    ensures
        r == beamable_value(d@),
{
    str_eq(d.as_str(), "8") || str_eq(d.as_str(), "16") || str_eq(d.as_str(), "32") || str_eq(d.as_str(), "64")
}

fn note_object(key: String, d: &String, dots: u8, accidentals: Vec<JsonValue>) -> (r: JsonValue)
    ensures
        json_view(r) == note_json(key@, (d@, dots), json_views(accidentals@)),
{
    let mut fields: Vec<(String, JsonValue)> = Vec::new();
    let mut keys: Vec<JsonValue> = Vec::new();
    let ghost kv = key@;
    proof {
        lemma_views_empty();
    }
    push_item(&mut keys, JsonValue::String(key));
    push_field(&mut fields, "type", text("Note"));
    push_field(&mut fields, "keys", JsonValue::Array(keys));
    push_field(&mut fields, "duration", text(d.as_str()));
    if dots > 0 {
        push_field(&mut fields, "dots", number(dots as usize));
    }
    let ghost av = json_views(accidentals@);
    proof {
        lemma_views_len(accidentals@);
    }
    if accidentals.len() > 0 {
        push_field(&mut fields, "accidentals", JsonValue::Array(accidentals));
    }
    proof {
        assert(json_field_views(fields@) =~= seq![("type"@, JsonView::String("Note"@)), ("keys"@, JsonView::Array(seq![JsonView::String(kv)])),
            ("duration"@, JsonView::String(d@))] + dots_field(dots)
            + if av.len() > 0 { seq![("accidentals"@, JsonView::Array(av))] } else { Seq::empty() });
    }
    JsonValue::Object(fields)
}

proof fn lemma_positions_bound(es: Seq<BeatElement>, k: int)
    requires
        0 <= k,
    ensures
        forall|q: int| 0 <= q < beamable_positions(es, k).len() ==> 0 <= #[trigger] beamable_positions(es, k)[q] < k,
    decreases k,
{
    if k > 0 {
        lemma_positions_bound(es, k - 1);
        let prev = beamable_positions(es, k - 1);
        assert forall|q: int| 0 <= q < beamable_positions(es, k).len() implies 0 <= #[trigger] beamable_positions(es, k)[q] < k by {
            if q < prev.len() {
                assert(beamable_positions(es, k)[q] == prev[q]);
            }
        }
    }
}

/// The VexFlow data for a beat (see `beat_json`).
pub fn process_beat_to_vexflow(beat: &Beat) -> (r: Vec<JsonValue>)
    requires
        beat_octaves_fit(beat.elements@),
    ensures
        json_views(r@) == beat_json(*beat),
{
    let mut elements: Vec<JsonValue> = Vec::new();
    proof {
        lemma_views_empty();
    }
    if beat.elements.len() == 0 {
        let (n, d) = match beat.total_duration { Some(t) => t, None => (1, 4) };
        let (duration, dots) = convert_fraction_to_vexflow(n, d);
        push_item(&mut elements, rest_object(&duration, dots));
        proof {
            assert(json_views(elements@) =~= beat_json(*beat));
        }
        return elements;
    }
    let ghost es = beat.elements@;
    let mut beamable: Vec<usize> = Vec::new();
    let mut idx: usize = 0;
    while idx < beat.elements.len()
        invariant
            es == beat.elements@,
            idx <= es.len(),
            beat_octaves_fit(es),
            json_views(elements@) == elements_json(es, idx as int),
            beamable@.map_values(|x: usize| x as int) == beamable_positions(es, idx as int),
        decreases es.len() - idx,
    {
        let ghost before = elements@;
        let ghost bb = beamable@;
        match &beat.elements[idx] {
            BeatElement::Note(note) => {
                let numer = match note.numerator { Some(x) => x, None => 1 };
                let denom = match note.denominator { Some(x) => x, None => 4 };
                let (duration, dots) = convert_fraction_to_vexflow(numer as u64, denom as u64);
                if is_beamable_value(&duration) {
                    beamable.push(idx);
                }
                proof {
                    assert(beamable@.map_values(|x: usize| x as int) =~= beamable_positions(es, idx + 1));
                    assert(es[idx as int] matches BeatElement::Note(n) ==> n.octave <= i8::MAX - 4);
                }
                let degree = pitch_code_to_degree(note.pitch_code);
                let (key, accidentals) = degree_to_vexflow_key(degree, note.octave);
                let object = note_object(key, &duration, dots, accidentals);
                push_item(&mut elements, object);
            },
            BeatElement::Dash(dash) => {
                match (dash.numerator, dash.denominator) {
                    (Some(numer), Some(denom)) => {
                        let (duration, dots) = convert_fraction_to_vexflow(numer as u64, denom as u64);
                        push_item(&mut elements, rest_object(&duration, dots));
                    },
                    _ => {},
                }
                proof {
                    assert(beamable@.map_values(|x: usize| x as int) =~= beamable_positions(es, idx + 1));
                }
            },
            BeatElement::BreathMark(_) => {
                let mut fields: Vec<(String, JsonValue)> = Vec::new();
                push_field(&mut fields, "type", text("Symbol"));
                push_field(&mut fields, "symbol", text("breathmark"));
                proof {
                    assert(json_field_views(fields@) =~= seq![("type"@, JsonView::String("Symbol"@)), ("symbol"@, JsonView::String("breathmark"@))]);
                }
                push_item(&mut elements, JsonValue::Object(fields));
                proof {
                    assert(beamable@.map_values(|x: usize| x as int) =~= beamable_positions(es, idx + 1));
                }
            },
            BeatElement::Rest(_) => {
                proof {
                    assert(beamable@.map_values(|x: usize| x as int) =~= beamable_positions(es, idx + 1));
                }
            },
        }
        proof {
            assert(json_views(elements@) =~= elements_json(es, idx + 1));
        }
        idx = idx + 1;
    }
    let ghost p = beamable_positions(es, es.len() as int);
    let ghost items = elements_json(es, es.len() as int);
    proof {
        lemma_positions_bound(es, es.len() as int);
    }
    if beamable.len() >= 2 {
        let mut consecutive_run = true;
        let mut i: usize = 1;
        while i < beamable.len()
            invariant
                1 <= i <= beamable@.len(),
                beamable@.map_values(|x: usize| x as int) == p,
                forall|k: int| 0 <= k < p.len() ==> #[trigger] p[k] < es.len(),
                es.len() <= usize::MAX,
                consecutive_run == (forall|k: int| 1 <= k < i ==> #[trigger] p[k] == p[k - 1] + 1),
            decreases beamable@.len() - i,
        {
            proof {
                assert(p[i as int] == beamable@[i as int] as int);
                assert(p[i - 1] == beamable@[i - 1] as int);
            }
            if beamable[i] != beamable[i - 1] + 1 {
                consecutive_run = false;
            }
            i = i + 1;
        }
        if consecutive_run {
            let first = beamable[0];
            let last = beamable[beamable.len() - 1];
            proof {
                assert(p[0] == first as int);
                assert(p.last() == last as int);
            }
            mark(&mut elements, first, "beam_start");
            mark(&mut elements, last, "beam_end");
        }
    }
    elements
}


/// The VexFlow name of a bar line kind.
pub open spec fn barline_name(b: Barline) -> Seq<char> {
    match b {
        Barline::Single(_) => "single"@,
        Barline::Double(_) => "double"@,
        Barline::Final(_) => "end"@,
        Barline::RepeatStart(_) => "repeat-start"@,
        Barline::RepeatEnd(_) => "repeat-end"@,
        Barline::RepeatBoth(_) => "repeat-both"@,
    }
}

/// The data for a content element: a tuplet beat with notes as one tuplet
/// (its division count, 3 where unknown, its ratio, 3 in the time of 2 where
/// unknown, and its notes), another beat as its notes, a bar line by kind;
/// nothing for whitespace and unknown text.
pub open spec fn content_element_json(e: ContentElement) -> Seq<JsonView> {
    match e {
        ContentElement::Beat(b) => {
            let notes = beat_json(b);
            if b.is_tuplet == Some(true) && notes.len() > 0 {
                let d = match b.divisions { Some(x) => x, None => 3usize };
                let r = match b.tuplet_ratio { Some(x) => x, None => (3usize, 2usize) };
                seq![JsonView::Object(seq![
                    ("type"@, JsonView::String("Tuplet"@)),
                    ("divisions"@, JsonView::Number(nat_digits(d as nat))),
                    ("ratio"@, JsonView::Array(seq![JsonView::Number(nat_digits(r.0 as nat)), JsonView::Number(nat_digits(r.1 as nat))])),
                    ("notes"@, JsonView::Array(notes))
                ])]
            } else {
                notes
            }
        },
        ContentElement::Barline(b) => seq![JsonView::Object(seq![
            ("type"@, JsonView::String("BarLine"@)), ("bar_type"@, JsonView::String(barline_name(b)))])],
        _ => Seq::empty(),
    }
}

/// The data for the first `k` content elements, in order.
pub open spec fn content_elements_json(es: Seq<ContentElement>, k: int) -> Seq<JsonView>
    decreases k,
{
    if k <= 0 { Seq::empty() } else { content_elements_json(es, k - 1) + content_element_json(es[k - 1]) }
}

/// The data for the first `j` content lines, line after line.
pub open spec fn content_lines_json(lines: Seq<ContentLine>, j: int) -> Seq<JsonView>
    decreases j,
{
    if j <= 0 {
        Seq::empty()
    } else {
        content_lines_json(lines, j - 1) + content_elements_json(lines[j - 1].elements@, lines[j - 1].elements@.len() as int)
    }
}

/// Whether every beat of every content line has octaves that fit.
pub open spec fn content_lines_fit(lines: Seq<ContentLine>) -> bool {
    forall|j: int, i: int| 0 <= j < lines.len() && 0 <= i < lines[j].elements@.len() ==>
        (#[trigger] lines[j].elements@[i] matches ContentElement::Beat(b) ==> beat_octaves_fit(b.elements@))
}

proof fn lemma_views_concat(a: Seq<JsonValue>, b: Seq<JsonValue>)
    ensures
        json_views(a + b) == json_views(a) + json_views(b),
    decreases b.len(),
{
    if b.len() == 0 {
        assert(a + b =~= a);
        assert(json_views(a) + json_views(b) =~= json_views(a));
    } else {
        let bl = b.subrange(0, b.len() - 1);
        lemma_views_concat(a, bl);
        assert((a + b).subrange(0, (a + b).len() - 1) =~= a + bl);
        assert((a + b)[(a + b).len() - 1] == b[b.len() - 1]);
        assert(json_views(a + b) =~= json_views(a) + json_views(b));
    }
}

fn append_items(items: &mut Vec<JsonValue>, more: Vec<JsonValue>)
    ensures
        json_views(final(items)@) == json_views(old(items)@) + json_views(more@),
{
    let ghost start = items@;
    let ghost m = more@;
    let mut rest = more;
    let ghost mut k: int = 0;
    while rest.len() > 0
        invariant
            0 <= k <= m.len(),
            rest@ == m.skip(k),
            items@ == start + m.take(k),
        decreases rest@.len(),
    {
        let x = rest.remove(0);
        proof {
            assert(m.skip(k)[0] == x);
            assert(rest@ =~= m.skip(k + 1));
        }
        items.push(x);
        proof {
            assert(items@ =~= start + m.take(k + 1));
            k = k + 1;
        }
    }
    proof {
        assert(m.take(k) =~= m);
        lemma_views_concat(start, m);
    }
}

fn content_element_to_vexflow(element: &ContentElement, notes: &mut Vec<JsonValue>)
    requires
        element matches ContentElement::Beat(b) ==> beat_octaves_fit(b.elements@),
    ensures
        json_views(final(notes)@) == json_views(old(notes)@) + content_element_json(*element),
{
    proof {
        lemma_views_empty();
    }
    match element {
        ContentElement::Beat(beat) => {
            let beat_notes = process_beat_to_vexflow(beat);
            let ghost nv = json_views(beat_notes@);
            proof {
                lemma_views_len(beat_notes@);
            }
            let tuplet = match beat.is_tuplet { Some(true) => true, _ => false };
            if tuplet && beat_notes.len() > 0 {
                let divisions = match beat.divisions { Some(x) => x, None => 3 };
                let (num_notes, notes_occupied) = match beat.tuplet_ratio { Some(r) => r, None => (3, 2) };
                let mut ratio: Vec<JsonValue> = Vec::new();
                push_item(&mut ratio, number(num_notes));
                push_item(&mut ratio, number(notes_occupied));
                let mut fields: Vec<(String, JsonValue)> = Vec::new();
                push_field(&mut fields, "type", text("Tuplet"));
                push_field(&mut fields, "divisions", number(divisions));
                push_field(&mut fields, "ratio", JsonValue::Array(ratio));
                push_field(&mut fields, "notes", JsonValue::Array(beat_notes));
                let ghost before = notes@;
                proof {
                    assert(json_views(ratio@) =~= seq![JsonView::Number(nat_digits(num_notes as nat)), JsonView::Number(nat_digits(notes_occupied as nat))]);
                    assert(json_field_views(fields@) =~= seq![
                        ("type"@, JsonView::String("Tuplet"@)),
                        ("divisions"@, JsonView::Number(nat_digits(divisions as nat))),
                        ("ratio"@, JsonView::Array(seq![JsonView::Number(nat_digits(num_notes as nat)), JsonView::Number(nat_digits(notes_occupied as nat))])),
                        ("notes"@, JsonView::Array(nv))
                    ]);
                }
                let object = JsonValue::Object(fields);
                proof {
                    assert(json_view(object) == content_element_json(*element)[0]);
                }
                push_item(notes, object);
                proof {
                    assert(content_element_json(*element) =~= seq![json_view(object)]);
                }
            } else {
                append_items(notes, beat_notes);
            }
        },
        ContentElement::Barline(barline) => {
            let name = match barline {
                Barline::Single(_) => "single",
                Barline::Double(_) => "double",
                Barline::Final(_) => "end",
                Barline::RepeatStart(_) => "repeat-start",
                Barline::RepeatEnd(_) => "repeat-end",
                Barline::RepeatBoth(_) => "repeat-both",
            };
            let mut fields: Vec<(String, JsonValue)> = Vec::new();
            push_field(&mut fields, "type", text("BarLine"));
            push_field(&mut fields, "bar_type", text(name));
            let object = JsonValue::Object(fields);
            proof {
                assert(json_field_views(fields@) =~= seq![("type"@, JsonView::String("BarLine"@)), ("bar_type"@, JsonView::String(barline_name(*barline)))]);
            }
            push_item(notes, object);
            proof {
                assert(content_element_json(*element) =~= seq![json_view(object)]);
            }
        },
        _ => {
            proof {
                assert(json_views(notes@) =~= json_views(notes@) + content_element_json(*element));
            }
        },
    }
}

/// The VexFlow data for the content lines of a stave (see `content_lines_json`).
pub fn process_stave_to_vexflow(content_lines: &[ContentLine]) -> (r: Vec<JsonValue>)
    requires
        content_lines_fit(content_lines@),
    ensures
        json_views(r@) == content_lines_json(content_lines@, content_lines@.len() as int),
{
    let ghost lines = content_lines@;
    let mut notes: Vec<JsonValue> = Vec::new();
    proof {
        lemma_views_empty();
    }
    let mut j: usize = 0;
    while j < content_lines.len()
        invariant
            lines == content_lines@,
            j <= lines.len(),
            content_lines_fit(lines),
            json_views(notes@) == content_lines_json(lines, j as int),
        decreases lines.len() - j,
    {
        let es = &content_lines[j].elements;
        let ghost start = json_views(notes@);
        let mut i: usize = 0;
        while i < es.len()
            invariant
                es@ == lines[j as int].elements@,
                0 <= j < lines.len(),
                i <= es@.len(),
                content_lines_fit(lines),
                json_views(notes@) == start + content_elements_json(es@, i as int),
            decreases es@.len() - i,
        {
            proof {
                assert(lines[j as int].elements@[i as int] matches ContentElement::Beat(b) ==> beat_octaves_fit(b.elements@));
            }
            content_element_to_vexflow(&es[i], &mut notes);
            proof {
                assert(json_views(notes@) =~= start + content_elements_json(es@, i + 1));
            }
            i = i + 1;
        }
        j = j + 1;
    }
    notes
}

impl VexFlowRenderer {
    /// A renderer.
    pub fn new() -> (r: Self)
        ensures
            r == (VexFlowRenderer {}),
    {
        VexFlowRenderer {}
    }

    /// The script drawing an empty treble stave into `vexflow-output`.
    pub fn generate_empty_stave_js(&self) -> (r: String)
        ensures
            r@ == empty_stave_js(),
    {
        "(function() {\n  const container = document.getElementById('vexflow-output');\n  if (!container) return;\n  container.innerHTML = '';\n  \n  const { Renderer, Stave } = Vex.Flow;\n  \n  const renderer = new Renderer(container, Renderer.Backends.SVG);\n  renderer.resize(800, 200);\n  const context = renderer.getContext();\n  context.scale(0.9, 0.9);\n  \n  const stave = new Stave(10, 40, 700);\n  stave.addClef('treble');\n  stave.setContext(context);\n  stave.draw();\n})();\n".to_owned()
    }
}

/// The script drawing an empty treble stave into `vexflow-output`.
pub open spec fn empty_stave_js() -> Seq<char> {
    "(function() {\n  const container = document.getElementById('vexflow-output');\n  if (!container) return;\n  container.innerHTML = '';\n  \n  const { Renderer, Stave } = Vex.Flow;\n  \n  const renderer = new Renderer(container, Renderer.Backends.SVG);\n  renderer.resize(800, 200);\n  const context = renderer.getContext();\n  context.scale(0.9, 0.9);\n  \n  const stave = new Stave(10, 40, 700);\n  stave.addClef('treble');\n  stave.setContext(context);\n  stave.draw();\n})();\n"@
}


impl Default for VexFlowRenderer {
    fn default() -> (r: Self)
        ensures
            r == (VexFlowRenderer {}),
    {
        Self::new()
    }
}

} // verus!
