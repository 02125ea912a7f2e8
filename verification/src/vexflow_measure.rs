//! The measure that the VexFlow script draws, built from the state machine's
//! items: the notes with their beats, then slurs, beams, tuplets and bar
//! lines; and the parts of the script that write notes and tala markers.
use vstd::prelude::*;
use crate::rhythm::types::{OrnamentType, ParsedChild, ParsedChildView, ParsedElement, ParsedElementView};
use crate::rhythm::converters::{RhythmConverter, vexflow_lookup, duration_views};
use crate::rhythm_fsm::{BeatElement, BeatElementView, Item, ItemView, items_view, is_pow2};
use crate::text::{has_sub, remove_all, str_contains, str_remove_all, push_char, nat_digits};
use crate::vexflow_js_generator::{VexFlowNote, VexFlowSlur, VexFlowTuplet, VexFlowBarline, BarlinePosition, slur_views, tuplet_views,
    notes_occupied_for, get_next_power_of_2, lemma_notes_occupied, vexflow_key, degree_to_vexflow_key, join_lines, join_lines_of,
    vexflow_barline_constant, convert_barline_type_to_vexflow, VexFlowMeasure, create_beams_from_notes, beams_within_beats,
    note_beats, beam_views, beam_lines, tuplet_lines, generate_beam_creation_js, generate_tuplet_creation_js,
    generate_stave_barlines_js, generate_slur_creation_js, stave_barlines_js, barline_views};
use crate::to_staff_notation::append_digits;
use crate::rhythm::converters::BarlineType;
use crate::models::copy_string;

verus! {

/// A note of the script as plain values.
pub struct VexFlowNoteView {
    pub keys: Seq<Seq<char>>,
    pub duration: Seq<char>,
    pub dots: u8,
    pub tied: bool,
    pub beat_index: usize,
    pub ornaments: Seq<OrnamentType>,
    pub syl: Option<Seq<char>>,
}

/// The texts of a list of strings.
pub open spec fn string_views(v: Seq<String>) -> Seq<Seq<char>> {
    v.map_values(|s: String| s@)
}

impl View for VexFlowNote {
    type V = VexFlowNoteView;

    open spec fn view(&self) -> VexFlowNoteView {
        VexFlowNoteView {
            keys: string_views(self.keys@),
            duration: self.duration@,
            dots: self.dots,
            tied: self.tied,
            beat_index: self.beat_index,
            ornaments: self.ornaments@,
            syl: match self.syl { Some(s) => Some(s@), None => None },
        }
    }
}

/// A key split into its base key and the accidental it spells: `##` or `#`
/// anywhere, or `bb` / `b` where the key does not start with them (a key
/// starting with `b` names the note B).
pub open spec fn split_key(k: Seq<char>) -> (Seq<char>, Option<Seq<char>>) {
    let dsharp = seq!['#', '#'];
    let sharp = seq!['#'];
    let dflat = seq!['b', 'b'];
    let flat = seq!['b'];
    if has_sub(k, dsharp) {
        (remove_all(k, dsharp), Some(dsharp))
    } else if has_sub(k, sharp) {
        (remove_all(k, sharp), Some(sharp))
    } else if has_sub(k, dflat) && !(k.len() >= 2 && k.take(2) == dflat) {
        (remove_all(k, dflat), Some(dflat))
    } else if has_sub(k, flat) && !(k.len() >= 1 && k[0] == 'b') {
        (remove_all(k, flat), Some(flat))
    } else {
        (k, None)
    }
}

/// The base keys of a list of keys.
pub open spec fn base_keys(keys: Seq<Seq<char>>) -> Seq<Seq<char>> {
    keys.map_values(|k: Seq<char>| split_key(k).0)
}

/// The accidentals of a list of keys, each with the index of its key.
pub open spec fn key_accidentals(keys: Seq<Seq<char>>) -> Seq<(nat, Seq<char>)>
    decreases keys.len(),
{
    if keys.len() == 0 {
        Seq::empty()
    } else {
        key_accidentals(keys.drop_last()) + match split_key(keys.last()).1 {
            Some(a) => seq![((keys.len() - 1) as nat, a)],
            None => Seq::empty(),
        }
    }
}

/// Views of (key index, accidental) pairs.
pub open spec fn accidental_views(v: Seq<(usize, String)>) -> Seq<(nat, Seq<char>)> {
    v.map_values(|p: (usize, String)| (p.0 as nat, p.1@))
}

fn split_one_key(key: &str) -> (r: (String, Option<String>))
    ensures
        r.0@ == split_key(key@).0,
        match r.1 { Some(a) => split_key(key@).1 == Some(a@), None => split_key(key@).1 is None },
{
    proof {
        reveal_strlit("##");
        reveal_strlit("#");
        reveal_strlit("bb");
        reveal_strlit("b");
        assert("##"@ =~= seq!['#', '#']);
        assert("#"@ =~= seq!['#']);
        assert("bb"@ =~= seq!['b', 'b']);
        assert("b"@ =~= seq!['b']);
    }
    let n = key.unicode_len();
    let starts_bb = n >= 2 && key.get_char(0) == 'b' && key.get_char(1) == 'b';
    let starts_b = n >= 1 && key.get_char(0) == 'b';
    proof {
        if n >= 2 {
            assert(starts_bb == (key@.take(2) =~= seq!['b', 'b']));
        }
    }
    if str_contains(key, "##") {
        (str_remove_all(key, "##"), Some("##".to_owned()))
    } else if str_contains(key, "#") {
        (str_remove_all(key, "#"), Some("#".to_owned()))
    } else if str_contains(key, "bb") && !starts_bb {
        (str_remove_all(key, "bb"), Some("bb".to_owned()))
    } else if str_contains(key, "b") && !starts_b {
        (str_remove_all(key, "b"), Some("b".to_owned()))
    } else {
        (key.to_owned(), None)
    }
}

/// Splits each key into its base key and accidental (see `split_key`).
pub fn extract_accidentals_from_keys(keys: &[String]) -> (r: (Vec<String>, Vec<(usize, String)>))
    ensures
        string_views(r.0@) == base_keys(string_views(keys@)),
        accidental_views(r.1@) == key_accidentals(string_views(keys@)),
{
    let ghost kv = string_views(keys@);
    let mut base: Vec<String> = Vec::new();
    let mut accidentals: Vec<(usize, String)> = Vec::new();
    let mut i: usize = 0;
    proof {
        assert(kv.take(0) =~= Seq::<Seq<char>>::empty());
        assert(string_views(base@) =~= base_keys(kv.take(0)));
        assert(accidental_views(accidentals@) =~= key_accidentals(kv.take(0)));
    }
    while i < keys.len()
        invariant
            kv == string_views(keys@),
            i <= keys@.len(),
            base@.len() == i,
            string_views(base@) == base_keys(kv.take(i as int)),
            accidental_views(accidentals@) == key_accidentals(kv.take(i as int)),
        decreases keys@.len() - i,
    {
        let ghost b0 = base@;
        let ghost a0 = accidentals@;
        let (b, a) = split_one_key(keys[i].as_str());
        base.push(b);
        let ghost t = kv.take(i + 1);
        proof {
            assert(t.drop_last() =~= kv.take(i as int));
            assert(t.last() == keys@[i as int]@);
            assert(t[i as int] == keys@[i as int]@);
            assert(base@[i as int]@ == split_key(t[i as int]).0);
            assert forall|j: int| 0 <= j < i implies #[trigger] string_views(base@)[j] == base_keys(t)[j] by {
                assert(base@[j] == b0[j]);
                assert(string_views(b0)[j] == base_keys(kv.take(i as int))[j]);
                assert(t[j] == kv.take(i as int)[j]);
                assert(base_keys(t)[j] == split_key(t[j]).0);
                assert(base_keys(kv.take(i as int))[j] == split_key(kv.take(i as int)[j]).0);
            }
            assert(string_views(base@) =~= base_keys(t));
        }
        match a {
            Some(acc) => {
                accidentals.push((i, acc));
                proof {
                    assert(accidental_views(accidentals@) =~= accidental_views(a0).push((i as nat, split_key(t.last()).1->0)));
                }
            },
            None => {},
        }
        proof {
            assert(accidental_views(accidentals@) =~= key_accidentals(t));
        }
        i = i + 1;
    }
    proof {
        assert(kv.take(i as int) =~= kv);
    }
    (base, accidentals)
}


/// The kinds of the ornament children, in order.
pub open spec fn child_ornaments(c: Seq<ParsedChildView>) -> Seq<OrnamentType>
    decreases c.len(),
{
    if c.len() == 0 {
        Seq::empty()
    } else {
        child_ornaments(c.drop_last()) + match c.last() {
            ParsedChildView::Ornament { kind, .. } => seq![kind],
            _ => Seq::empty(),
        }
    }
}

/// The text of the first syllable child.
pub open spec fn first_syllable(c: Seq<ParsedChildView>) -> Option<Seq<char>>
    decreases c.len(),
{
    if c.len() == 0 {
        None
    } else {
        match c[0] {
            ParsedChildView::Syllable { text, .. } => Some(text),
            _ => first_syllable(c.skip(1)),
        }
    }
}

/// The duration a beat element is written with: its display duration in a
/// tuplet where it has one, else its tuplet duration.
pub open spec fn written_duration(e: BeatElementView) -> (usize, usize) {
    match e.tuplet_display_duration {
        Some(d) => d,
        None => e.tuplet_duration,
    }
}

/// The VexFlow duration (name, dots) a beat element is written with: the
/// first of its table durations, or a sixteenth where there is none.
pub open spec fn written_vexflow_duration(e: BeatElementView) -> (Seq<char>, u8) {
    let d = written_duration(e);
    let l = vexflow_lookup(d.0 as int, d.1 as int);
    if l.len() > 0 { l[0] } else { ("16"@, 0u8) }
}

/// The note of the script for a beat element that is a note: its key, written
/// duration, ornaments and first syllable, in beat 0 and not tied.
pub open spec fn beat_element_note(e: BeatElementView) -> Option<VexFlowNoteView> {
    match e.element {
        ParsedElementView::Note { degree, octave, children, .. } => Some(VexFlowNoteView {
            keys: seq![vexflow_key(degree, octave)],
            duration: written_vexflow_duration(e).0,
            dots: written_vexflow_duration(e).1,
            tied: false,
            beat_index: 0,
            ornaments: child_ornaments(children),
            syl: first_syllable(children),
        }),
        _ => None,
    }
}

/// Whether a note's key can be written (its VexFlow octave fits in an `i8`).
pub open spec fn octave_fits(e: BeatElementView) -> bool {
    e.element matches ParsedElementView::Note { octave, .. } ==> octave + 4 <= i8::MAX
}

pub(crate) fn child_ornaments_of(children: &Vec<ParsedChild>) -> (r: Vec<OrnamentType>)
    ensures
        r@ == child_ornaments(crate::rhythm::types::children_view(children@)),
{
    let ghost cv = crate::rhythm::types::children_view(children@);
    let mut r: Vec<OrnamentType> = Vec::new();
    let mut i: usize = 0;
    proof {
        assert(cv.take(0) =~= Seq::<ParsedChildView>::empty());
    }
    while i < children.len()
        invariant
            cv == crate::rhythm::types::children_view(children@),
            i <= children@.len(),
            r@ == child_ornaments(cv.take(i as int)),
        decreases children@.len() - i,
    {
        let ghost t = cv.take(i + 1);
        proof {
            assert(t.drop_last() =~= cv.take(i as int));
            assert(t.last() == children@[i as int]@);
        }
        match &children[i] {
            ParsedChild::Ornament { kind, .. } => {
                r.push(*kind);
            },
            _ => {},
        }
        proof {
            assert(r@ =~= child_ornaments(t));
        }
        i = i + 1;
    }
    proof {
        assert(cv.take(i as int) =~= cv);
    }
    r
}

pub(crate) fn first_syllable_of(children: &Vec<ParsedChild>) -> (r: Option<String>)
    ensures
        match r {
            Some(t) => first_syllable(crate::rhythm::types::children_view(children@)) == Some(t@),
            None => first_syllable(crate::rhythm::types::children_view(children@)) is None,
        },
{
    let ghost cv = crate::rhythm::types::children_view(children@);
    let mut i: usize = 0;
    proof {
        assert(cv.skip(0) =~= cv);
    }
    while i < children.len()
        invariant
            cv == crate::rhythm::types::children_view(children@),
            i <= children@.len(),
            first_syllable(cv) == first_syllable(cv.skip(i as int)),
        decreases children@.len() - i,
    {
        proof {
            assert(cv.skip(i as int)[0] == children@[i as int]@);
            assert(cv.skip(i as int).skip(1) =~= cv.skip(i + 1));
        }
        match &children[i] {
            ParsedChild::Syllable { text, .. } => {
                return Some(copy_string(text));
            },
            _ => {},
        }
        i = i + 1;
    }
    None
}

/// The note of the script for a beat element (see `beat_element_note`); an
/// element that is not a note is refused.
pub fn convert_beat_element_to_vexflow_note(beat_element: &BeatElement) -> (r: Result<VexFlowNote, String>)
    requires
        octave_fits(beat_element@),
    ensures
        match beat_element_note(beat_element@) {
            Some(n) => r matches Ok(v) && v@ == n,
            None => r matches Err(m) && m@ == "BeatElement is not a note"@,
        },
{
    match &beat_element.element {
        ParsedElement::Note { degree, octave, children, .. } => {
            let key = degree_to_vexflow_key(*degree, *octave);
            let d = match beat_element.tuplet_display_duration {
                Some(d) => d,
                None => beat_element.tuplet_duration,
            };
            let durations = RhythmConverter::fraction_to_vexflow(d.0 as u64, d.1 as u64);
            let (duration, dots) = if durations.len() > 0 {
                (copy_string(&durations[0].0), durations[0].1)
            } else {
                ("16".to_owned(), 0u8)
            };
            proof {
                if durations@.len() > 0 {
                    assert(duration_views(durations@)[0] == (durations@[0].0@, durations@[0].1));
                }
            }
            let mut keys: Vec<String> = Vec::new();
            keys.push(key);
            let v = VexFlowNote {
                keys,
                duration,
                dots,
                tied: false,
                beat_index: 0,
                ornaments: child_ornaments_of(children),
                syl: first_syllable_of(children),
            };
            proof {
                assert(string_views(v.keys@) =~= seq![vexflow_key(*degree, *octave)]);
            }
            Ok(v)
        },
        _ => Err("BeatElement is not a note".to_owned()),
    }
}


/// A note placed in a beat.
pub open spec fn in_beat(n: VexFlowNoteView, b: usize) -> VexFlowNoteView {
    VexFlowNoteView { keys: n.keys, duration: n.duration, dots: n.dots, tied: n.tied, beat_index: b, ornaments: n.ornaments, syl: n.syl }
}

/// The notes of a beat's elements, placed in beat `b`.
pub open spec fn beat_notes(es: Seq<BeatElementView>, b: usize) -> Seq<VexFlowNoteView>
    decreases es.len(),
{
    if es.len() == 0 {
        Seq::empty()
    } else {
        beat_notes(es.drop_last(), b) + match beat_element_note(es.last()) {
            Some(n) => seq![in_beat(n, b)],
            None => Seq::empty(),
        }
    }
}

/// The views of notes of the script.
pub open spec fn note_views(v: Seq<VexFlowNote>) -> Seq<VexFlowNoteView> {
    v.map_values(|n: VexFlowNote| n@)
}

/// Appends the notes of a beat's elements (see `beat_notes`) to `notes`.
pub fn extract_notes_from_beat_elements(elements: &[BeatElement], notes: &mut Vec<VexFlowNote>, beat_index: usize) -> (r: Result<(), String>)
    requires
        forall|j: int| 0 <= j < elements@.len() ==> octave_fits(#[trigger] elements@[j]@),
    ensures
        r is Ok,
        note_views(final(notes)@) == note_views(old(notes)@) + beat_notes(crate::rhythm_fsm::beat_elements_view(elements@), beat_index),
{
    let ghost ev = crate::rhythm_fsm::beat_elements_view(elements@);
    let ghost start = note_views(notes@);
    let mut i: usize = 0;
    proof {
        assert(ev.take(0) =~= Seq::<BeatElementView>::empty());
        assert(note_views(notes@) =~= start + beat_notes(ev.take(0), beat_index));
    }
    while i < elements.len()
        invariant
            ev == crate::rhythm_fsm::beat_elements_view(elements@),
            forall|j: int| 0 <= j < elements@.len() ==> octave_fits(#[trigger] elements@[j]@),
            i <= elements@.len(),
            note_views(notes@) == start + beat_notes(ev.take(i as int), beat_index),
        decreases elements@.len() - i,
    {
        let ghost t = ev.take(i + 1);
        let ghost before = notes@;
        proof {
            assert(t.drop_last() =~= ev.take(i as int));
            assert(t.last() == elements@[i as int]@);
        }
        let e = &elements[i];
        let is_note = match &e.element { ParsedElement::Note { .. } => true, _ => false };
        if is_note {
            let converted = convert_beat_element_to_vexflow_note(e);
            match converted {
                Ok(mut vf_note) => {
                    vf_note.beat_index = beat_index;
                    notes.push(vf_note);
                    proof {
                        assert(note_views(notes@) =~= note_views(before).push(vf_note@));
                    }
                },
                Err(m) => {
                    return Err(m);
                },
            }
        }
        proof {
            assert(note_views(notes@) =~= start + beat_notes(t, beat_index));
        }
        i = i + 1;
    }
    proof {
        assert(ev.take(i as int) =~= ev);
    }
    Ok(())
}


/// Whether the items can be written: every note's octave fits and every
/// tuplet's subdivision count can be doubled.
pub open spec fn item_fits(it: ItemView) -> bool {
    match it {
        ItemView::Beat(b) => (forall|j: int| 0 <= j < b.elements.len() ==> octave_fits(#[trigger] b.elements[j]))
            && (b.is_tuplet ==> b.divisions <= usize::MAX / 2),
        _ => true,
    }
}

/// Whether every item can be written (see `item_fits`).
pub open spec fn items_fit(items: Seq<ItemView>) -> bool {
    forall|i: int| 0 <= i < items.len() ==> item_fits(#[trigger] items[i])
}

/// The number of beats among the items.
pub open spec fn beats_in(items: Seq<ItemView>) -> nat
    decreases items.len(),
{
    if items.len() == 0 { 0 } else { beats_in(items.drop_last()) + if items.last() is Beat { 1nat } else { 0nat } }
}

/// The notes of the items' beats, in order, each placed in its beat
/// (counted from 0).
pub open spec fn measure_notes(items: Seq<ItemView>) -> Seq<VexFlowNoteView>
    decreases items.len(),
{
    if items.len() == 0 {
        Seq::empty()
    } else {
        measure_notes(items.drop_last()) + match items.last() {
            ItemView::Beat(b) => beat_notes(b.elements, beats_in(items.drop_last()) as usize),
            _ => Seq::empty(),
        }
    }
}

/// The number of notes among a beat's elements.
pub open spec fn note_count(es: Seq<BeatElementView>) -> nat
    decreases es.len(),
{
    if es.len() == 0 { 0 } else { note_count(es.drop_last()) + if es.last().element is Note { 1nat } else { 0nat } }
}

proof fn lemma_beat_notes_len(es: Seq<BeatElementView>, b: usize)
    ensures
        beat_notes(es, b).len() == note_count(es),
    decreases es.len(),
{
    if es.len() > 0 {
        lemma_beat_notes_len(es.drop_last(), b);
    }
}

proof fn lemma_beats_in_bound(items: Seq<ItemView>)
    ensures
        beats_in(items) <= items.len(),
    decreases items.len(),
{
    if items.len() > 0 {
        lemma_beats_in_bound(items.drop_last());
    }
}

proof fn lemma_measure_notes_prefix(items: Seq<ItemView>, k: int)
    requires
        0 <= k <= items.len(),
    ensures
        measure_notes(items.take(k)).len() <= measure_notes(items).len(),
    decreases items.len() - k,
{
    if k < items.len() {
        lemma_measure_notes_prefix(items, k + 1);
        assert(items.take(k + 1).drop_last() =~= items.take(k));
    } else {
        assert(items.take(k) =~= items);
    }
}

fn beat_note_count(elements: &Vec<BeatElement>) -> (r: usize)
    ensures
        r == note_count(crate::rhythm_fsm::beat_elements_view(elements@)),
{
    let ghost ev = crate::rhythm_fsm::beat_elements_view(elements@);
    let mut count: usize = 0;
    let mut i: usize = 0;
    proof {
        assert(ev.take(0) =~= Seq::<BeatElementView>::empty());
    }
    while i < elements.len()
        invariant
            ev == crate::rhythm_fsm::beat_elements_view(elements@),
            i <= elements@.len(),
            count <= i,
            count == note_count(ev.take(i as int)),
        decreases elements@.len() - i,
    {
        proof {
            let t = ev.take(i + 1);
            assert(t.drop_last() =~= ev.take(i as int));
            assert(t.last() == elements@[i as int]@);
        }
        match &elements[i].element {
            ParsedElement::Note { .. } => {
                count = count + 1;
            },
            _ => {},
        }
        i = i + 1;
    }
    proof {
        assert(ev.take(i as int) =~= ev);
    }
    count
}

/// Kind of a slur marker.
#[derive(Clone, Copy, Debug)]
pub enum SlurMarkerType {
    Start,
    End,
}

/// A slur start or end at a note index.
#[derive(Clone, Copy, Debug)]
pub struct SlurMarker {
    pub marker_type: SlurMarkerType,
    pub position: usize,
}

/// The notes of the items' beats (see `measure_notes`); the items mark no
/// slur that reaches the notes, so no slur marker comes out.
pub fn extract_notes_and_slur_markers(elements: &Vec<Item>) -> (r: Result<(Vec<VexFlowNote>, Vec<SlurMarker>), String>)
    requires
        items_fit(items_view(elements@)),
    ensures
        r matches Ok((notes, markers)) && note_views(notes@) == measure_notes(items_view(elements@)) && markers@.len() == 0,
{
    let ghost iv = items_view(elements@);
    let mut notes: Vec<VexFlowNote> = Vec::new();
    let mut beat_index: usize = 0;
    let mut i: usize = 0;
    proof {
        assert(iv.take(0) =~= Seq::<ItemView>::empty());
        assert(note_views(notes@) =~= Seq::<VexFlowNoteView>::empty());
    }
    while i < elements.len()
        invariant
            iv == items_view(elements@),
            items_fit(iv),
            i <= elements@.len(),
            beat_index <= i,
            beat_index == beats_in(iv.take(i as int)),
            note_views(notes@) == measure_notes(iv.take(i as int)),
        decreases elements@.len() - i,
    {
        let ghost t = iv.take(i + 1);
        proof {
            assert(t.drop_last() =~= iv.take(i as int));
            assert(t.last() == elements@[i as int]@);
            assert(item_fits(iv[i as int]));
        }
        match &elements[i] {
            Item::Beat(beat) => {
                proof {
                    assert(iv[i as int] == ItemView::Beat(beat@));
                    assert forall|j: int| 0 <= j < beat.elements@.len() implies octave_fits(#[trigger] beat.elements@[j]@) by {
                        assert(beat@.elements[j] == beat.elements@[j]@);
                    }
                }
                let r = extract_notes_from_beat_elements(beat.elements.as_slice(), &mut notes, beat_index);
                if let Err(m) = r {
                    return Err(m);
                }
                beat_index = beat_index + 1;
            },
            _ => {},
        }
        proof {
            assert(note_views(notes@) =~= measure_notes(t));
        }
        i = i + 1;
    }
    proof {
        assert(iv.take(i as int) =~= iv);
    }
    Ok((notes, Vec::new()))
}

/// Index of the first marker placed after note `p`.
pub open spec fn first_after(s: Seq<SlurMarker>, p: usize) -> int
    decreases s.len(),
{
    if s.len() == 0 { 0 } else if s[0].position > p { 0 } else { 1 + first_after(s.skip(1), p) }
}

/// The markers ordered by note index, markers on the same note keeping
/// their order (a stable sort).
pub open spec fn sorted_markers(s: Seq<SlurMarker>) -> Seq<SlurMarker>
    decreases s.len(),
{
    if s.len() == 0 {
        Seq::empty()
    } else {
        let r = sorted_markers(s.drop_last());
        r.insert(first_after(r, s.last().position), s.last())
    }
}

/// Slurs paired from markers in order: a start opens a slur (replacing an
/// open one), an end closes the open slur when it lies within the `n` notes
/// and does not end before it starts; the second part is the open slur.
pub open spec fn pair_slurs(ms: Seq<SlurMarker>, n: nat) -> (Seq<(nat, nat)>, Option<usize>)
    decreases ms.len(),
{
    if ms.len() == 0 {
        (Seq::empty(), None)
    } else {
        let prev = pair_slurs(ms.drop_last(), n);
        let m = ms.last();
        match m.marker_type {
            SlurMarkerType::Start => (prev.0, Some(m.position)),
            SlurMarkerType::End => match prev.1 {
                Some(s) => (
                    if s <= m.position && m.position < n { prev.0.push((s as nat, m.position as nat)) } else { prev.0 },
                    None,
                ),
                None => (prev.0, None),
            },
        }
    }
}

proof fn lemma_first_after_bound(s: Seq<SlurMarker>, p: usize)
    ensures
        0 <= first_after(s, p) <= s.len(),
    decreases s.len(),
{
    if s.len() > 0 {
        lemma_first_after_bound(s.skip(1), p);
    }
}

proof fn lemma_sorted_len(s: Seq<SlurMarker>)
    ensures
        sorted_markers(s).len() == s.len(),
    decreases s.len(),
{
    if s.len() > 0 {
        lemma_sorted_len(s.drop_last());
        lemma_first_after_bound(sorted_markers(s.drop_last()), s.last().position);
    }
}

fn insert_marker(r: &mut Vec<SlurMarker>, m: SlurMarker)
    ensures
        final(r)@ == old(r)@.insert(first_after(old(r)@, m.position), m),
{
    let ghost s = r@;
    let mut j: usize = 0;
    proof {
        assert(s.skip(0) =~= s);
    }
    while j < r.len() && r[j].position <= m.position
        invariant
            r@ == s,
            j <= s.len(),
            first_after(s, m.position) == j + first_after(s.skip(j as int), m.position),
        decreases s.len() - j,
    {
        proof {
            assert(s.skip(j as int)[0] == s[j as int]);
            assert(s.skip(j as int).skip(1) =~= s.skip(j + 1));
        }
        j = j + 1;
    }
    proof {
        if j < s.len() {
            assert(s.skip(j as int)[0] == s[j as int]);
        }
    }
    r.insert(j, m);
}

/// Slurs from markers: the markers are ordered by note index (see
/// `sorted_markers`) and paired (see `pair_slurs`).
pub fn create_slurs_from_markers(notes: &[VexFlowNote], slur_markers: &[SlurMarker]) -> (r: Vec<VexFlowSlur>)
    ensures
        slur_views(r@) == pair_slurs(sorted_markers(slur_markers@), notes@.len() as nat).0,
{
    let mut sorted: Vec<SlurMarker> = Vec::new();
    let mut i: usize = 0;
    proof {
        assert(slur_markers@.take(0) =~= Seq::<SlurMarker>::empty());
    }
    while i < slur_markers.len()
        invariant
            i <= slur_markers@.len(),
            sorted@ == sorted_markers(slur_markers@.take(i as int)),
        decreases slur_markers@.len() - i,
    {
        proof {
            let t = slur_markers@.take(i + 1);
            assert(t.drop_last() =~= slur_markers@.take(i as int));
            assert(t.last() == slur_markers@[i as int]);
        }
        insert_marker(&mut sorted, slur_markers[i]);
        i = i + 1;
    }
    proof {
        assert(slur_markers@.take(i as int) =~= slur_markers@);
    }
    let ghost sm = sorted@;
    let n = notes.len();
    let mut slurs: Vec<VexFlowSlur> = Vec::new();
    let mut pending: Option<usize> = None;
    let mut k: usize = 0;
    proof {
        assert(sm.take(0) =~= Seq::<SlurMarker>::empty());
        assert(slur_views(slurs@) =~= Seq::<(nat, nat)>::empty());
    }
    while k < sorted.len()
        invariant
            sorted@ == sm,
            n == notes@.len(),
            k <= sm.len(),
            slur_views(slurs@) == pair_slurs(sm.take(k as int), n as nat).0,
            pending == pair_slurs(sm.take(k as int), n as nat).1,
        decreases sm.len() - k,
    {
        let ghost t = sm.take(k + 1);
        let ghost before = slurs@;
        proof {
            assert(t.drop_last() =~= sm.take(k as int));
            assert(t.last() == sm[k as int]);
        }
        let marker = sorted[k];
        match marker.marker_type {
            SlurMarkerType::Start => {
                pending = Some(marker.position);
            },
            SlurMarkerType::End => {
                if let Some(start_idx) = pending {
                    let end_idx = marker.position;
                    if start_idx <= end_idx && end_idx < n {
                        slurs.push(VexFlowSlur { from_note: start_idx, to_note: end_idx });
                        proof {
                            assert(slur_views(slurs@) =~= slur_views(before).push((start_idx as nat, end_idx as nat)));
                        }
                    }
                    pending = None;
                }
            },
        }
        k = k + 1;
    }
    proof {
        assert(sm.take(k as int) =~= sm);
    }
    slurs
}


/// `k` consecutive note indices from `start`.
pub open spec fn index_run(start: nat, k: nat) -> Seq<nat> {
    Seq::new(k, |j: int| (start + j) as nat)
}

/// The tuplets of the items: one per tuplet beat, over that beat's notes,
/// with its subdivision count in the space of the largest power of two below it.
pub open spec fn measure_tuplets(items: Seq<ItemView>) -> Seq<(Seq<nat>, nat, nat)>
    decreases items.len(),
{
    if items.len() == 0 {
        Seq::empty()
    } else {
        measure_tuplets(items.drop_last()) + match items.last() {
            ItemView::Beat(b) => if b.is_tuplet {
                seq![(
                    index_run(measure_notes(items.drop_last()).len(), note_count(b.elements)),
                    b.divisions as nat,
                    notes_occupied_for(b.divisions as nat),
                )]
            } else {
                Seq::empty()
            },
            _ => Seq::empty(),
        }
    }
}

fn index_run_of(start: usize, k: usize) -> (r: Vec<usize>)
    requires
        start + k <= usize::MAX,
    ensures
        r@.map_values(|x: usize| x as nat) == index_run(start as nat, k as nat),
{
    let mut r: Vec<usize> = Vec::new();
    let mut j: usize = 0;
    while j < k
        invariant
            start + k <= usize::MAX,
            j <= k,
            r@.len() == j,
            forall|t: int| 0 <= t < j ==> r@[t] == start + t,
        decreases k - j,
    {
        r.push(start + j);
        j = j + 1;
    }
    assert(r@.map_values(|x: usize| x as nat) =~= index_run(start as nat, k as nat));
    r
}

/// The tuplets of the items (see `measure_tuplets`).
pub fn create_tuplets_from_beats(elements: &Vec<Item>, _notes: &[VexFlowNote]) -> (r: Result<Vec<VexFlowTuplet>, String>)
    requires
        items_fit(items_view(elements@)),
        measure_notes(items_view(elements@)).len() <= usize::MAX,
    ensures
        r matches Ok(t) && tuplet_views(t@) == measure_tuplets(items_view(elements@)),
{
    let ghost iv = items_view(elements@);
    let mut tuplets: Vec<VexFlowTuplet> = Vec::new();
    let mut note_index: usize = 0;
    let mut i: usize = 0;
    proof {
        assert(iv.take(0) =~= Seq::<ItemView>::empty());
        assert(tuplet_views(tuplets@) =~= Seq::<(Seq<nat>, nat, nat)>::empty());
    }
    while i < elements.len()
        invariant
            iv == items_view(elements@),
            items_fit(iv),
            measure_notes(iv).len() <= usize::MAX,
            i <= elements@.len(),
            note_index == measure_notes(iv.take(i as int)).len(),
            tuplet_views(tuplets@) == measure_tuplets(iv.take(i as int)),
        decreases elements@.len() - i,
    {
        let ghost t = iv.take(i + 1);
        let ghost before = tuplets@;
        proof {
            assert(t.drop_last() =~= iv.take(i as int));
            assert(t.last() == elements@[i as int]@);
            assert(item_fits(iv[i as int]));
            lemma_measure_notes_prefix(iv, i + 1);
        }
        match &elements[i] {
            Item::Beat(beat) => {
                let count = beat_note_count(&beat.elements);
                proof {
                    lemma_beat_notes_len(beat@.elements, beats_in(iv.take(i as int)) as usize);
                    assert(measure_notes(t).len() == note_index + count);
                }
                if beat.is_tuplet {
                    let divisions = beat.divisions;
                    let notes_occupied = get_next_power_of_2(divisions);
                    let indices = index_run_of(note_index, count);
                    tuplets.push(VexFlowTuplet { note_indices: indices, num_notes: divisions, notes_occupied });
                    proof {
                        assert(tuplet_views(tuplets@) =~= tuplet_views(before).push((
                            index_run(note_index as nat, count as nat), divisions as nat, notes_occupied_for(divisions as nat))));
                    }
                }
                note_index = note_index + count;
            },
            _ => {},
        }
        proof {
            assert(tuplet_views(tuplets@) =~= measure_tuplets(t));
        }
        i = i + 1;
    }
    proof {
        assert(iv.take(i as int) =~= iv);
    }
    Ok(tuplets)
}

/// Where the bar line at item `idx` of `len` items stands, `notes_before`
/// notes coming before it: first item at the beginning, last item at the
/// end, else after the last note before it (or the first note).
pub open spec fn barline_place(idx: int, len: int, notes_before: nat) -> BarlinePosition {
    if idx == 0 {
        BarlinePosition::Beginning
    } else if idx == len - 1 {
        BarlinePosition::End
    } else {
        BarlinePosition::Middle(if notes_before > 0 { (notes_before - 1) as usize } else { 0 })
    }
}

/// The bar lines among the first `k` items, with their places and talas.
pub open spec fn measure_barlines(items: Seq<ItemView>, k: int) -> Seq<(BarlineType, BarlinePosition, Option<u8>)>
    decreases k,
{
    if k <= 0 {
        Seq::empty()
    } else {
        measure_barlines(items, k - 1) + match items[k - 1] {
            ItemView::Barline(t, tala) => seq![(t, barline_place(k - 1, items.len() as int, measure_notes(items.take(k - 1)).len()), tala)],
            _ => Seq::empty(),
        }
    }
}

/// Views of bar lines as kind, place and tala.
pub open spec fn full_barline_views(v: Seq<VexFlowBarline>) -> Seq<(BarlineType, BarlinePosition, Option<u8>)> {
    v.map_values(|b: VexFlowBarline| (b.barline_type, b.position, b.tala))
}

/// The bar lines of the items (see `measure_barlines`).
pub fn create_barlines_from_elements(elements: &Vec<Item>, _notes: &[VexFlowNote]) -> (r: Vec<VexFlowBarline>)
    requires
        measure_notes(items_view(elements@)).len() <= usize::MAX,
    ensures
        full_barline_views(r@) == measure_barlines(items_view(elements@), elements@.len() as int),
{
    let ghost iv = items_view(elements@);
    let mut barlines: Vec<VexFlowBarline> = Vec::new();
    let mut note_index: usize = 0;
    let mut i: usize = 0;
    proof {
        assert(iv.take(0) =~= Seq::<ItemView>::empty());
        assert(full_barline_views(barlines@) =~= Seq::<(BarlineType, BarlinePosition, Option<u8>)>::empty());
    }
    while i < elements.len()
        invariant
            iv == items_view(elements@),
            measure_notes(iv).len() <= usize::MAX,
            i <= elements@.len(),
            note_index == measure_notes(iv.take(i as int)).len(),
            full_barline_views(barlines@) == measure_barlines(iv, i as int),
        decreases elements@.len() - i,
    {
        let ghost t = iv.take(i + 1);
        let ghost before = barlines@;
        proof {
            assert(t.drop_last() =~= iv.take(i as int));
            assert(t.last() == elements@[i as int]@);
            assert(iv[i as int] == elements@[i as int]@);
            lemma_measure_notes_prefix(iv, i + 1);
        }
        match &elements[i] {
            Item::Barline(barline_type, tala) => {
                let position = if i == 0 {
                    BarlinePosition::Beginning
                } else if i == elements.len() - 1 {
                    BarlinePosition::End
                } else {
                    BarlinePosition::Middle(if note_index > 0 { note_index - 1 } else { 0 })
                };
                barlines.push(VexFlowBarline { barline_type: *barline_type, position, tala: *tala });
                proof {
                    assert(full_barline_views(barlines@) =~= full_barline_views(before).push((*barline_type, position, *tala)));
                }
            },
            Item::Beat(beat) => {
                let count = beat_note_count(&beat.elements);
                proof {
                    lemma_beat_notes_len(beat@.elements, beats_in(iv.take(i as int)) as usize);
                    assert(measure_notes(t).len() == note_index + count);
                }
                note_index = note_index + count;
            },
            _ => {},
        }
        proof {
            assert(full_barline_views(barlines@) =~= measure_barlines(iv, i + 1));
        }
        i = i + 1;
    }
    barlines
}


/// Texts each enclosed in `q`, separated by `, `.
pub open spec fn join_quoted(ks: Seq<Seq<char>>, q: char) -> Seq<char>
    decreases ks.len(),
{
    if ks.len() == 0 {
        Seq::empty()
    } else if ks.len() == 1 {
        seq![q] + ks[0] + seq![q]
    } else {
        join_quoted(ks.drop_last(), q) + ", "@ + seq![q] + ks.last() + seq![q]
    }
}

fn join_quoted_of(keys: &Vec<String>, q: char) -> (r: String)
    ensures
        r@ == join_quoted(string_views(keys@), q),
{
    let ghost kv = string_views(keys@);
    let mut r = String::new();
    let mut i: usize = 0;
    proof {
        assert(kv.take(0) =~= Seq::<Seq<char>>::empty());
    }
    while i < keys.len()
        invariant
            kv == string_views(keys@),
            i <= keys@.len(),
            r@ == join_quoted(kv.take(i as int), q),
        decreases keys@.len() - i,
    {
        let ghost before = r@;
        if i > 0 {
            r.append(", ");
        }
        push_char(&mut r, q);
        r.append(keys[i].as_str());
        push_char(&mut r, q);
        proof {
            let t = kv.take(i + 1);
            assert(t.drop_last() =~= kv.take(i as int));
            assert(t.last() == keys@[i as int]@);
            if i == 0 {
                assert(r@ =~= seq![q] + t[0] + seq![q]);
            } else {
                assert(r@ =~= join_quoted(kv.take(i as int), q) + ", "@ + seq![q] + t.last() + seq![q]);
            }
        }
        i = i + 1;
    }
    proof {
        assert(kv.take(i as int) =~= kv);
    }
    r
}

/// `note<i>`, the script's name of note `i`.
pub open spec fn note_name(i: nat) -> Seq<char> {
    "note"@ + nat_digits(i)
}

/// How a tala marker is printed for debugging (`Some(n)` or `None`).
pub open spec fn tala_debug(t: Option<u8>) -> Seq<char> {
    match t {
        Some(n) => "Some("@ + nat_digits(n as nat) + ")"@,
        None => "None"@,
    }
}

/// The lines creating note `i`: its keys logged, the stave note with its base
/// keys and duration, its accidentals, dots and ornaments, its syllable kept
/// for later, and the note added to the list.
pub open spec fn note_head_lines(n: VexFlowNoteView, i: nat) -> Seq<Seq<char>> {
    let accs = key_accidentals(n.keys);
    seq![
        "console.log('Note keys: ["@ + join_quoted(n.keys, '"') + "]');"@,
        "const "@ + note_name(i) + " = new VF.StaveNote({ clef: 'treble', keys: ["@ + join_quoted(base_keys(n.keys), '\'')
            + "], duration: '"@ + n.duration + "' });"@,
    ]
        + Seq::new(accs.len(), |k: int| note_name(i) + ".addAccidental("@ + nat_digits(accs[k].0) + ", new VF.Accidental('"@ + accs[k].1 + "'));"@)
        + Seq::new(n.dots as nat, |k: int| note_name(i) + ".addDot(0);"@)
        + Seq::new(n.ornaments.len(), |k: int| note_name(i) + ".addModifier(new VF.Ornament('mordent'), 0);"@)
        + match n.syl {
            Some(syl) => seq![
                "console.log('\u{1F3B5} Storing lyric for note "@ + nat_digits(i) + ": "@ + syl + "');"@,
                "if (!window.vexflowSyllables) window.vexflowSyllables = [];"@,
                "window.vexflowSyllables.push({ noteIndex: "@ + nat_digits(i) + ", text: '"@ + syl + "', note: null });"@,
            ],
            None => Seq::empty(),
        }
        + seq!["vexNotes.push("@ + note_name(i) + ");"@]
}

/// Whether a bar line stands after note `i`.
pub open spec fn after_note(b: (BarlineType, BarlinePosition, Option<u8>), i: nat) -> bool {
    b.1 matches BarlinePosition::Middle(idx) && idx == i
}

/// The number of bar lines standing after note `i`.
pub open spec fn count_after(bs: Seq<(BarlineType, BarlinePosition, Option<u8>)>, i: nat) -> nat
    decreases bs.len(),
{
    if bs.len() == 0 { 0 } else { count_after(bs.drop_last(), i) + if after_note(bs.last(), i) { 1nat } else { 0nat } }
}

/// The number of bar notes written before note `i`'s.
pub open spec fn barnotes_before(bs: Seq<(BarlineType, BarlinePosition, Option<u8>)>, i: nat) -> nat
    decreases i,
{
    if i == 0 { 0 } else { barnotes_before(bs, (i - 1) as nat) + count_after(bs, (i - 1) as nat) }
}

/// The lines of bar note `c`, standing after note `i`.
pub open spec fn barnote_lines(b: (BarlineType, BarlinePosition, Option<u8>), c: nat, i: nat) -> Seq<Seq<char>> {
    seq!["const barNote"@ + nat_digits(c) + " = new VF.BarNote("@ + vexflow_barline_constant(b.0) + ");"@]
        + match b.2 {
            Some(t) => seq!["barNote"@ + nat_digits(c) + ".tala = "@ + nat_digits(t as nat) + ";  // Store tala on BarNote"@],
            None => Seq::empty(),
        }
        + seq![
            "vexNotes.push(barNote"@ + nat_digits(c) + ");"@,
            "console.log('Inserted BarNote "@ + nat_digits(c) + " after note "@ + nat_digits(i) + " (tala: "@ + tala_debug(b.2) + ")');"@,
        ]
}

/// The lines of the bar notes after note `i` among the first `k` bar lines,
/// numbered from `c`.
pub open spec fn barnotes_lines(bs: Seq<(BarlineType, BarlinePosition, Option<u8>)>, i: nat, c: nat, k: int) -> Seq<Seq<char>>
    decreases k,
{
    if k <= 0 {
        Seq::empty()
    } else {
        barnotes_lines(bs, i, c, k - 1) + if after_note(bs[k - 1], i) {
            barnote_lines(bs[k - 1], c + count_after(bs.take(k - 1), i), i)
        } else {
            Seq::empty()
        }
    }
}

/// The lines of the first `k` notes with the bar notes after them.
pub open spec fn notes_lines(ns: Seq<VexFlowNoteView>, bs: Seq<(BarlineType, BarlinePosition, Option<u8>)>, k: int) -> Seq<Seq<char>>
    decreases k,
{
    if k <= 0 {
        Seq::empty()
    } else {
        notes_lines(ns, bs, k - 1) + note_head_lines(ns[k - 1], (k - 1) as nat)
            + barnotes_lines(bs, (k - 1) as nat, barnotes_before(bs, (k - 1) as nat), bs.len() as int)
    }
}

/// The script creating the notes, with a bar note after each note that a bar
/// line stands after.
pub open spec fn notes_and_barlines_js(ns: Seq<VexFlowNoteView>, bs: Seq<(BarlineType, BarlinePosition, Option<u8>)>) -> Seq<char> {
    join_lines(notes_lines(ns, bs, ns.len() as int))
}


/// The views of a list of lines.
pub open spec fn line_views(v: Seq<String>) -> Seq<Seq<char>> {
    v.map_values(|l: String| l@)
}

fn push_line(lines: &mut Vec<String>, l: String)
    ensures
        line_views(final(lines)@) == line_views(old(lines)@).push(l@),
{
    let ghost before = lines@;
    let ghost lv = l@;
    lines.push(l);
    assert(line_views(lines@) =~= line_views(before).push(lv));
}

fn note_name_of(i: usize) -> (r: String)
    ensures
        r@ == note_name(i as nat),
{
    let mut r = "note".to_owned();
    append_digits(&mut r, i);
    r
}

fn push_note_head(lines: &mut Vec<String>, note: &VexFlowNote, i: usize)
    ensures
        line_views(final(lines)@) == line_views(old(lines)@) + note_head_lines(note@, i as nat),
{
    let ghost start = line_views(lines@);
    let ghost n = note@;
    let name = note_name_of(i);
    let mut l1 = "console.log('Note keys: [".to_owned();
    let quoted = join_quoted_of(&note.keys, '"');
    l1.append(quoted.as_str());
    l1.append("]');");
    push_line(lines, l1);
    let (base, accidentals) = extract_accidentals_from_keys(note.keys.as_slice());
    let mut l2 = "const ".to_owned();
    l2.append(name.as_str());
    l2.append(" = new VF.StaveNote({ clef: 'treble', keys: [");
    let quoted_base = join_quoted_of(&base, '\'');
    l2.append(quoted_base.as_str());
    l2.append("], duration: '");
    l2.append(note.duration.as_str());
    l2.append("' });");
    push_line(lines, l2);
    let ghost accs = key_accidentals(n.keys);
    let ghost after_head = line_views(lines@);
    proof {
        assert(accidental_views(accidentals@) == accs);
    }
    let mut k: usize = 0;
    while k < accidentals.len()
        invariant
            accidental_views(accidentals@) == accs,
            k <= accidentals@.len(),
            name@ == note_name(i as nat),
            line_views(lines@) == after_head + Seq::new(k as nat, |j: int| note_name(i as nat) + ".addAccidental("@ + nat_digits(accs[j].0) + ", new VF.Accidental('"@ + accs[j].1 + "'));"@),
        decreases accidentals@.len() - k,
    {
        let ghost before = line_views(lines@);
        let mut l = name.clone();
        l.append(".addAccidental(");
        append_digits(&mut l, accidentals[k].0);
        l.append(", new VF.Accidental('");
        l.append(accidentals[k].1.as_str());
        l.append("'));");
        proof {
            assert(accs[k as int] == (accidentals@[k as int].0 as nat, accidentals@[k as int].1@));
        }
        push_line(lines, l);
        proof {
            assert(line_views(lines@) =~= after_head + Seq::new((k + 1) as nat, |j: int| note_name(i as nat) + ".addAccidental("@ + nat_digits(accs[j].0) + ", new VF.Accidental('"@ + accs[j].1 + "'));"@));
        }
        k = k + 1;
    }
    let ghost after_accs = line_views(lines@);
    let mut d: u8 = 0;
    while d < note.dots
        invariant
            n == note@,
            d <= n.dots,
            name@ == note_name(i as nat),
            line_views(lines@) == after_accs + Seq::new(d as nat, |j: int| note_name(i as nat) + ".addDot(0);"@),
        decreases n.dots - d,
    {
        let mut l = name.clone();
        l.append(".addDot(0);");
        push_line(lines, l);
        proof {
            assert(line_views(lines@) =~= after_accs + Seq::new((d + 1) as nat, |j: int| note_name(i as nat) + ".addDot(0);"@));
        }
        d = d + 1;
    }
    let ghost after_dots = line_views(lines@);
    let mut o: usize = 0;
    while o < note.ornaments.len()
        invariant
            n == note@,
            o <= n.ornaments.len(),
            name@ == note_name(i as nat),
            line_views(lines@) == after_dots + Seq::new(o as nat, |j: int| note_name(i as nat) + ".addModifier(new VF.Ornament('mordent'), 0);"@),
        decreases n.ornaments.len() - o,
    {
        let mut l = name.clone();
        l.append(".addModifier(new VF.Ornament('mordent'), 0);");
        push_line(lines, l);
        proof {
            assert(line_views(lines@) =~= after_dots + Seq::new((o + 1) as nat, |j: int| note_name(i as nat) + ".addModifier(new VF.Ornament('mordent'), 0);"@));
        }
        o = o + 1;
    }
    let ghost after_orn = line_views(lines@);
    match &note.syl {
        Some(syl) => {
            let mut a = "console.log('\u{1F3B5} Storing lyric for note ".to_owned();
            append_digits(&mut a, i);
            a.append(": ");
            a.append(syl.as_str());
            a.append("');");
            push_line(lines, a);
            push_line(lines, "if (!window.vexflowSyllables) window.vexflowSyllables = [];".to_owned());
            let mut c = "window.vexflowSyllables.push({ noteIndex: ".to_owned();
            append_digits(&mut c, i);
            c.append(", text: '");
            c.append(syl.as_str());
            c.append("', note: null });");
            push_line(lines, c);
        },
        None => {},
    }
    let ghost after_syl = line_views(lines@);
    let mut last = "vexNotes.push(".to_owned();
    last.append(name.as_str());
    last.append(");");
    push_line(lines, last);
    proof {
        assert(line_views(lines@) =~= start + note_head_lines(n, i as nat));
    }
}


/// The number of bar lines standing after a note before note `i`.
pub open spec fn count_below(bs: Seq<(BarlineType, BarlinePosition, Option<u8>)>, i: nat) -> nat
    decreases bs.len(),
{
    if bs.len() == 0 {
        0
    } else {
        count_below(bs.drop_last(), i) + if bs.last().1 matches BarlinePosition::Middle(idx) && idx < i { 1nat } else { 0nat }
    }
}

proof fn lemma_count_below_step(bs: Seq<(BarlineType, BarlinePosition, Option<u8>)>, i: nat)
    ensures
        count_below(bs, i + 1) == count_below(bs, i) + count_after(bs, i),
        count_below(bs, i) <= bs.len(),
    decreases bs.len(),
{
    if bs.len() > 0 {
        lemma_count_below_step(bs.drop_last(), i);
    }
}

proof fn lemma_barnotes_before(bs: Seq<(BarlineType, BarlinePosition, Option<u8>)>, i: nat)
    ensures
        barnotes_before(bs, i) == count_below(bs, i),
        barnotes_before(bs, i) <= bs.len(),
    decreases i,
{
    if i == 0 {
        lemma_count_below_zero(bs);
    } else {
        lemma_barnotes_before(bs, (i - 1) as nat);
        lemma_count_below_step(bs, (i - 1) as nat);
    }
    lemma_count_below_step(bs, i);
}

proof fn lemma_count_below_zero(bs: Seq<(BarlineType, BarlinePosition, Option<u8>)>)
    ensures
        count_below(bs, 0) == 0,
    decreases bs.len(),
{
    if bs.len() > 0 {
        lemma_count_below_zero(bs.drop_last());
    }
}

fn tala_debug_of(t: Option<u8>) -> (r: String)
    ensures
        r@ == tala_debug(t),
{
    match t {
        Some(n) => {
            let mut r = "Some(".to_owned();
            append_digits(&mut r, n as usize);
            r.append(")");
            r
        },
        None => "None".to_owned(),
    }
}

/// Appends the lines of the bar notes standing after note `i`, numbered from
/// `counter`, and returns the next number.
fn push_barnotes(lines: &mut Vec<String>, barlines: &[VexFlowBarline], i: usize, counter: usize) -> (next: usize)
    requires
        counter + count_after(full_barline_views(barlines@), i as nat) <= usize::MAX,
    ensures
        next == counter + count_after(full_barline_views(barlines@), i as nat),
        line_views(final(lines)@) == line_views(old(lines)@)
            + barnotes_lines(full_barline_views(barlines@), i as nat, counter as nat, barlines@.len() as int),
{
    let ghost bs = full_barline_views(barlines@);
    let ghost start = line_views(lines@);
    let mut c = counter;
    let mut k: usize = 0;
    proof {
        assert(bs.take(0) =~= Seq::<(BarlineType, BarlinePosition, Option<u8>)>::empty());
        lemma_count_after_prefix(bs, i as nat, 0);
    }
    while k < barlines.len()
        invariant
            bs == full_barline_views(barlines@),
            counter + count_after(bs, i as nat) <= usize::MAX,
            k <= barlines@.len(),
            c == counter + count_after(bs.take(k as int), i as nat),
            line_views(lines@) == start + barnotes_lines(bs, i as nat, counter as nat, k as int),
        decreases barlines@.len() - k,
    {
        let ghost t = bs.take(k + 1);
        proof {
            assert(t.drop_last() =~= bs.take(k as int));
            assert(t.last() == bs[k as int]);
            assert(bs[k as int] == (barlines@[k as int].barline_type, barlines@[k as int].position, barlines@[k as int].tala));
            lemma_count_after_prefix(bs, i as nat, k + 1);
        }
        let barline = &barlines[k];
        let matches_note = match barline.position {
            BarlinePosition::Middle(idx) => idx == i,
            _ => false,
        };
        if matches_note {
            let vf = convert_barline_type_to_vexflow(&barline.barline_type);
            let mut a = "const barNote".to_owned();
            append_digits(&mut a, c);
            a.append(" = new VF.BarNote(");
            a.append(vf.as_str());
            a.append(");");
            push_line(lines, a);
            match barline.tala {
                Some(t) => {
                    let mut b = "barNote".to_owned();
                    append_digits(&mut b, c);
                    b.append(".tala = ");
                    append_digits(&mut b, t as usize);
                    b.append(";  // Store tala on BarNote");
                    push_line(lines, b);
                },
                None => {},
            }
            let mut d = "vexNotes.push(barNote".to_owned();
            append_digits(&mut d, c);
            d.append(");");
            push_line(lines, d);
            let mut e = "console.log('Inserted BarNote ".to_owned();
            append_digits(&mut e, c);
            e.append(" after note ");
            append_digits(&mut e, i);
            e.append(" (tala: ");
            let td = tala_debug_of(barline.tala);
            e.append(td.as_str());
            e.append(")');");
            push_line(lines, e);
            proof {
                assert(line_views(lines@) =~= start + barnotes_lines(bs, i as nat, counter as nat, k + 1));
            }
            c = c + 1;
        } else {
            proof {
                assert(barnotes_lines(bs, i as nat, counter as nat, k + 1) =~= barnotes_lines(bs, i as nat, counter as nat, k as int));
            }
        }
        k = k + 1;
    }
    proof {
        assert(bs.take(k as int) =~= bs);
    }
    c
}

proof fn lemma_count_after_prefix(bs: Seq<(BarlineType, BarlinePosition, Option<u8>)>, i: nat, k: int)
    requires
        0 <= k <= bs.len(),
    ensures
        count_after(bs.take(k), i) <= count_after(bs, i),
    decreases bs.len() - k,
{
    if k < bs.len() {
        lemma_count_after_prefix(bs, i, k + 1);
        assert(bs.take(k + 1).drop_last() =~= bs.take(k));
    } else {
        assert(bs.take(k) =~= bs);
    }
}

/// The script creating the notes and the bar notes between them (see
/// `notes_and_barlines_js`).
pub fn generate_notes_and_barlines_js(notes: &[VexFlowNote], barlines: &[VexFlowBarline]) -> (r: Result<String, String>)
    ensures
        r matches Ok(js) && js@ == notes_and_barlines_js(note_views(notes@), full_barline_views(barlines@)),
{
    let ghost ns = note_views(notes@);
    let ghost bs = full_barline_views(barlines@);
    let mut js_lines: Vec<String> = Vec::new();
    let mut barline_counter: usize = 0;
    let nb = barlines.len();
    let mut i: usize = 0;
    proof {
        assert(line_views(js_lines@) =~= notes_lines(ns, bs, 0));
        lemma_barnotes_before(bs, 0);
    }
    while i < notes.len()
        invariant
            ns == note_views(notes@),
            bs == full_barline_views(barlines@),
            nb == barlines@.len(),
            i <= notes@.len(),
            barline_counter == barnotes_before(bs, i as nat),
            line_views(js_lines@) == notes_lines(ns, bs, i as int),
        decreases notes@.len() - i,
    {
        proof {
            lemma_barnotes_before(bs, (i + 1) as nat);
            assert(barnotes_before(bs, (i + 1) as nat) == barnotes_before(bs, i as nat) + count_after(bs, i as nat));
            assert(bs.len() == barlines@.len());
            assert(ns[i as int] == notes@[i as int]@);
        }
        push_note_head(&mut js_lines, &notes[i], i);
        barline_counter = push_barnotes(&mut js_lines, barlines, i, barline_counter);
        proof {
            assert(line_views(js_lines@) =~= notes_lines(ns, bs, i + 1));
        }
        i = i + 1;
    }
    proof {
        assert(line_views(js_lines@) == js_lines@.map_values(|l: String| l@));
    }
    Ok(join_lines_of(&js_lines))
}


/// How a tala marker is shown: `+` for 255, else its number.
pub open spec fn tala_display(t: u8) -> Seq<char> {
    if t == 255 { "+"@ } else { nat_digits(t as nat) }
}

/// The script expression for the x position of tala `t` at a bar line.
pub open spec fn tala_x(pos: BarlinePosition, t: u8) -> Seq<char> {
    match pos {
        BarlinePosition::Beginning => "stave.getX()"@,
        BarlinePosition::End => "(vexNotes[vexNotes.length - 1].getAbsoluteX() + vexNotes[vexNotes.length - 1].getWidth() + 20)"@,
        BarlinePosition::Middle(idx) => "(function() { \n                        // Find BarNote with tala "@ + nat_digits(t as nat) + "\n                        for (let i = 0; i < vexNotes.length; i++) {\n                            if (vexNotes[i].attrs && vexNotes[i].attrs.type === 'BarNote' && vexNotes[i].tala === "@ + nat_digits(t as nat) + ") {\n                                return vexNotes[i].getAbsoluteX();\n                            }\n                        }\n                        // Fallback: find any BarNote after note "@ + nat_digits(idx as nat) + "\n                        for (let i = "@ + nat_digits((idx + 1) as nat) + "; i < vexNotes.length; i++) {\n                            if (vexNotes[i].attrs && vexNotes[i].attrs.type === 'BarNote') {\n                                return vexNotes[i].getAbsoluteX();\n                            }\n                        }\n                        // Final fallback\n                        return stave.getX() + stave.getWidth()/2;\n                    })()"@,
    }
}

/// The script drawing tala `t` of bar line `i` at its place.
pub open spec fn tala_block(i: nat, pos: BarlinePosition, t: u8) -> Seq<char> {
    "\n// Draw tala marker "@ + tala_display(t) + " at barline "@ + nat_digits(i) + "\nconsole.log('Drawing tala "@ + tala_display(t) + " at barline "@ + nat_digits(i) + "');\ncontext.save();\ncontext.font = 'bold 14px Arial';\ncontext.textAlign = 'center';\ncontext.fillStyle = 'black';\nconst talaX"@ + nat_digits(i) + " = "@ + tala_x(pos, t) + ";\nconst talaY"@ + nat_digits(i) + " = stave.getYForLine(-1) - 10; // Above staff\nconsole.log('Tala "@ + tala_display(t) + " position: x=' + talaX"@ + nat_digits(i) + " + ', y=' + talaY"@ + nat_digits(i) + ");\ncontext.fillText('"@ + tala_display(t) + "', talaX"@ + nat_digits(i) + ", talaY"@ + nat_digits(i) + ");\ncontext.restore();\nconsole.log('Tala "@ + tala_display(t) + " drawn successfully');"@
}

/// The blocks drawing the talas of the first `k` bar lines.
pub open spec fn tala_blocks(bs: Seq<(BarlineType, BarlinePosition, Option<u8>)>, k: int) -> Seq<Seq<char>>
    decreases k,
{
    if k <= 0 {
        Seq::empty()
    } else {
        tala_blocks(bs, k - 1) + match bs[k - 1].2 {
            Some(t) => seq![tala_block((k - 1) as nat, bs[k - 1].1, t)],
            None => Seq::empty(),
        }
    }
}

/// Whether some bar line carries a tala.
pub open spec fn has_tala(bs: Seq<(BarlineType, BarlinePosition, Option<u8>)>) -> bool {
    exists|k: int| 0 <= k < bs.len() && (#[trigger] bs[k]).2 is Some
}

/// The script drawing the tala markers above their bar lines.
pub open spec fn tala_rendering_js(bs: Seq<(BarlineType, BarlinePosition, Option<u8>)>) -> Seq<char> {
    join_lines(seq!["// Tala rendering after all VexFlow elements"@] + if has_tala(bs) {
        seq!["// Render tala markers above barlines"@] + tala_blocks(bs, bs.len() as int)
    } else {
        seq!["// No tala markers to render"@]
    })
}

/// Whether the bar lines' places can be written: a bar line with a tala
/// after a note stands after a note index below `usize::MAX`.
pub open spec fn tala_places_fit(bs: Seq<(BarlineType, BarlinePosition, Option<u8>)>) -> bool {
    forall|k: int| 0 <= k < bs.len() && (#[trigger] bs[k]).2 is Some ==>
        (bs[k].1 matches BarlinePosition::Middle(idx) ==> idx < usize::MAX)
}

fn tala_display_of(t: u8) -> (r: String)
    ensures
        r@ == tala_display(t),
{
    if t == 255 {
        "+".to_owned()
    } else {
        let mut r = String::new();
        append_digits(&mut r, t as usize);
        r
    }
}

fn tala_x_of(pos: BarlinePosition, t: u8) -> (r: String)
    requires
        pos matches BarlinePosition::Middle(idx) ==> idx < usize::MAX,
    ensures
        r@ == tala_x(pos, t),
{
    match pos {
        BarlinePosition::Beginning => "stave.getX()".to_owned(),
        BarlinePosition::End => "(vexNotes[vexNotes.length - 1].getAbsoluteX() + vexNotes[vexNotes.length - 1].getWidth() + 20)".to_owned(),
        BarlinePosition::Middle(idx) => {
            let mut r = String::new();
            r.append("(function() { \n                        // Find BarNote with tala ");
            append_digits(&mut r, t as usize);
            r.append("\n                        for (let i = 0; i < vexNotes.length; i++) {\n                            if (vexNotes[i].attrs && vexNotes[i].attrs.type === 'BarNote' && vexNotes[i].tala === ");
            append_digits(&mut r, t as usize);
            r.append(") {\n                                return vexNotes[i].getAbsoluteX();\n                            }\n                        }\n                        // Fallback: find any BarNote after note ");
            append_digits(&mut r, idx);
            r.append("\n                        for (let i = ");
            append_digits(&mut r, idx + 1);
            r.append("; i < vexNotes.length; i++) {\n                            if (vexNotes[i].attrs && vexNotes[i].attrs.type === 'BarNote') {\n                                return vexNotes[i].getAbsoluteX();\n                            }\n                        }\n                        // Final fallback\n                        return stave.getX() + stave.getWidth()/2;\n                    })()");
            proof {
                assert(r@ =~= tala_x(pos, t));
            }
            r
        },
    }
}

fn tala_block_of(i: usize, pos: BarlinePosition, t: u8) -> (r: String)
    requires
        pos matches BarlinePosition::Middle(idx) ==> idx < usize::MAX,
    ensures
        r@ == tala_block(i as nat, pos, t),
{
    let display = tala_display_of(t);
    let x = tala_x_of(pos, t);
    let mut r = String::new();
    r.append("\n// Draw tala marker ");
    r.append(display.as_str());
    r.append(" at barline ");
    append_digits(&mut r, i);
    r.append("\nconsole.log('Drawing tala ");
    r.append(display.as_str());
    r.append(" at barline ");
    append_digits(&mut r, i);
    r.append("');\ncontext.save();\ncontext.font = 'bold 14px Arial';\ncontext.textAlign = 'center';\ncontext.fillStyle = 'black';\nconst talaX");
    append_digits(&mut r, i);
    r.append(" = ");
    r.append(x.as_str());
    r.append(";\nconst talaY");
    append_digits(&mut r, i);
    r.append(" = stave.getYForLine(-1) - 10; // Above staff\nconsole.log('Tala ");
    r.append(display.as_str());
    r.append(" position: x=' + talaX");
    append_digits(&mut r, i);
    r.append(" + ', y=' + talaY");
    append_digits(&mut r, i);
    r.append(");\ncontext.fillText('");
    r.append(display.as_str());
    r.append("', talaX");
    append_digits(&mut r, i);
    r.append(", talaY");
    append_digits(&mut r, i);
    r.append(");\ncontext.restore();\nconsole.log('Tala ");
    r.append(display.as_str());
    r.append(" drawn successfully');");
    proof {
        assert(r@ =~= tala_block(i as nat, pos, t));
    }
    r
}

/// The script drawing the tala markers (see `tala_rendering_js`).
pub fn generate_tala_rendering_js(barlines: &[VexFlowBarline]) -> (r: Result<String, String>)
    requires
        tala_places_fit(full_barline_views(barlines@)),
    ensures
        r matches Ok(js) && js@ == tala_rendering_js(full_barline_views(barlines@)),
{
    let ghost bs = full_barline_views(barlines@);
    let mut js_lines: Vec<String> = Vec::new();
    push_line(&mut js_lines, "// Tala rendering after all VexFlow elements".to_owned());
    let mut has_talas = false;
    let mut k: usize = 0;
    while k < barlines.len()
        invariant
            bs == full_barline_views(barlines@),
            k <= barlines@.len(),
            has_talas == exists|j: int| 0 <= j < k && (#[trigger] bs[j]).2 is Some,
        decreases barlines@.len() - k,
    {
        proof {
            assert(bs[k as int].2 == barlines@[k as int].tala);
        }
        if barlines[k].tala.is_some() {
            has_talas = true;
        }
        k = k + 1;
    }
    if !has_talas {
        push_line(&mut js_lines, "// No tala markers to render".to_owned());
        proof {
            assert(line_views(js_lines@) =~= seq!["// Tala rendering after all VexFlow elements"@, "// No tala markers to render"@]);
            assert(!has_tala(bs));
            assert(seq!["// Tala rendering after all VexFlow elements"@] + seq!["// No tala markers to render"@]
                =~= seq!["// Tala rendering after all VexFlow elements"@, "// No tala markers to render"@]);
        }
        return Ok(join_lines_of(&js_lines));
    }
    proof {
        assert(has_tala(bs));
    }
    push_line(&mut js_lines, "// Render tala markers above barlines".to_owned());
    let ghost head = line_views(js_lines@);
    let mut i: usize = 0;
    proof {
        assert(head + tala_blocks(bs, 0) =~= head);
    }
    while i < barlines.len()
        invariant
            bs == full_barline_views(barlines@),
            tala_places_fit(bs),
            i <= barlines@.len(),
            line_views(js_lines@) == head + tala_blocks(bs, i as int),
        decreases barlines@.len() - i,
    {
        let barline = &barlines[i];
        proof {
            assert(bs[i as int] == (barline.barline_type, barline.position, barline.tala));
        }
        match barline.tala {
            Some(t) => {
                let block = tala_block_of(i, barline.position, t);
                push_line(&mut js_lines, block);
            },
            None => {},
        }
        proof {
            assert(line_views(js_lines@) =~= head + tala_blocks(bs, i + 1));
        }
        i = i + 1;
    }
    proof {
        assert(line_views(js_lines@) =~= seq!["// Tala rendering after all VexFlow elements"@] + (seq!["// Render tala markers above barlines"@] + tala_blocks(bs, bs.len() as int)));
    }
    Ok(join_lines_of(&js_lines))
}


/// The whole script around its parts: the notes and bar notes, beams,
/// tuplets, the stave's bar lines, slurs and tala markers.
pub open spec fn script_around(notes_js: Seq<char>, beams_js: Seq<char>, tuplets_js: Seq<char>, stave_js: Seq<char>, slurs_js: Seq<char>, tala_js: Seq<char>) -> Seq<char> {
    "(function() { // IIFE Start\n// VexFlow rendering with auto-sizing\n\n// Clear the canvas\nconst canvas = document.getElementById('vexflow-canvas');\nif (!canvas) { console.error('VexFlow canvas not found'); return; }\ncanvas.innerHTML = '';\ncanvas.classList.add('has-content');\n\n// Initialize VexFlow renderer\nconst VF = Vex.Flow;\nconst renderer = new VF.Renderer(canvas, VF.Renderer.Backends.SVG);\nconst context = renderer.getContext();\n\n// Create notes\nconst notes = {};\nconst vexNotes = [];\n\n// Add notes to array\n"@ + notes_js + "\n\n// Create voice and add notes\n// Set up voice with standard 4/4 time (4 beats, quarter note value)\nconst voice = new VF.Voice({ num_beats: 4, beat_value: 4 });\nvoice.setMode(VF.Voice.Mode.SOFT);  // Allow incomplete measures\nvoice.addTickables(vexNotes);\n\n// Create beams (BEFORE formatting - this is crucial!)\n"@ + beams_js + "\n\n// Create tuplets (BEFORE formatting - also crucial!)\n"@ + tuplets_js + "\n\n// Use VexFlow's automatic width calculation for consistent spacing\nconst formatter = new VF.Formatter().joinVoices([voice]);\nlet minWidth = formatter.preCalculateMinTotalWidth([voice]);\nconsole.log('VexFlow Debug: Raw minWidth=', minWidth);\n\n// Safety check: if minWidth is NaN (VexFlow bug), use fallback calculation\nif (isNaN(minWidth) || minWidth <= 0) {\n    console.log('VexFlow Debug: minWidth is invalid, using fallback calculation');\n    // Estimate width: ~40px per quarter note + margins\n    const noteCount = vexNotes.length;\n    minWidth = noteCount * 50 + 100; // Conservative estimate\n    console.log('VexFlow Debug: Fallback minWidth=', minWidth);\n}\n\nconst padding = 80; // Minimal margins for full width\n// Use full viewport width for canvas  \nconst viewportWidth = window.innerWidth || document.documentElement.clientWidth || 800;\nconst canvasWidth = Math.max(viewportWidth - 20, minWidth + padding); // Nearly full width with 20px margin\nconsole.log('VexFlow Debug: Final minWidth=', minWidth, 'viewportWidth=', viewportWidth, 'canvasWidth=', canvasWidth);\nconst canvasHeight = 200; // Compact height for better layout\n\n// Set canvas and stave size based on calculated width\nrenderer.resize(canvasWidth, canvasHeight);\n// Reduce scaling to allow more horizontal space\ncontext.scale(0.9, 0.9);\n\n// Create stave with full available width (minimal margins)\nconst stave = new VF.Stave(10, 40, canvasWidth - 20);\nstave.addClef('treble').setContext(context);\n\n// Set beginning and end barlines on the stave\n"@ + stave_js + "\n\nstave.draw();\n\n// Format with calculated width for consistent spacing\ntry {\n    formatter.format([voice], minWidth);\n    console.log('VexFlow Debug: Formatting successful');\n} catch (error) {\n    console.log('VexFlow Debug: Formatting failed, using basic formatting:', error.message);\n    // Fallback: try formatting without explicit width\n    try {\n        formatter.format([voice]);\n    } catch (fallbackError) {\n        console.log('VexFlow Debug: Basic formatting also failed:', fallbackError.message);\n    }\n}\nvoice.draw(context, stave);\n\n// Draw beams (after voice is drawn)\nbeams.forEach(beam => beam.draw());\n\n// Draw tuplets (after voice is drawn)\ntuplets.forEach(tuplet => tuplet.draw());\n\n// Create slurs\n"@ + slurs_js + "\n\n// Draw syllables at consistent Y position below staff\nif (window.vexflowSyllables && window.vexflowSyllables.length > 0) {\n    // Calculate maximum Y extent of all rendered elements\n    let maxY = stave.getYForLine(4) + 10; // Start with staff bottom + small margin\n    \n    // Check note extents (stems, beams, etc.)\n    vexNotes.forEach((note, index) => {\n        if (note.getBoundingBox) {\n            const bbox = note.getBoundingBox();\n            maxY = Math.max(maxY, bbox.y + bbox.h + 5);\n        }\n    });\n    \n    // Add extra space for syllables\n    const syllableY = maxY + 20;\n    \n    // Draw each syllable at the calculated Y position\n    window.vexflowSyllables.forEach(syl => {\n        const note = vexNotes[syl.noteIndex];\n        if (note && note.getAbsoluteX) {\n            const noteX = note.getAbsoluteX();\n            context.save();\n            context.font = 'italic 0.8em Arial';\n            context.textAlign = 'center';\n            context.fillStyle = '#000';\n            context.fillText(syl.text, noteX, syllableY);\n            context.restore();\n            console.log('\u{1F3B5} Drew syllable \"' + syl.text + '\" at x=' + noteX + ', y=' + syllableY);\n        }\n    });\n    \n    // Clear syllables for next render\n    window.vexflowSyllables = [];\n}\n\n// Render tala markers (after all VexFlow formatting is complete)\n"@ + tala_js + "\n})(); // IIFE End"@
}

fn script_around_of(notes_js: String, beams_js: String, tuplets_js: String, stave_js: String, slurs_js: String, tala_js: String) -> (r: String)
    ensures
        r@ == script_around(notes_js@, beams_js@, tuplets_js@, stave_js@, slurs_js@, tala_js@),
{
    let mut r = String::new();
    r.append("(function() { // IIFE Start\n// VexFlow rendering with auto-sizing\n\n// Clear the canvas\nconst canvas = document.getElementById('vexflow-canvas');\nif (!canvas) { console.error('VexFlow canvas not found'); return; }\ncanvas.innerHTML = '';\ncanvas.classList.add('has-content');\n\n// Initialize VexFlow renderer\nconst VF = Vex.Flow;\nconst renderer = new VF.Renderer(canvas, VF.Renderer.Backends.SVG);\nconst context = renderer.getContext();\n\n// Create notes\nconst notes = {};\nconst vexNotes = [];\n\n// Add notes to array\n");
    r.append(notes_js.as_str());
    r.append("\n\n// Create voice and add notes\n// Set up voice with standard 4/4 time (4 beats, quarter note value)\nconst voice = new VF.Voice({ num_beats: 4, beat_value: 4 });\nvoice.setMode(VF.Voice.Mode.SOFT);  // Allow incomplete measures\nvoice.addTickables(vexNotes);\n\n// Create beams (BEFORE formatting - this is crucial!)\n");
    r.append(beams_js.as_str());
    r.append("\n\n// Create tuplets (BEFORE formatting - also crucial!)\n");
    r.append(tuplets_js.as_str());
    r.append("\n\n// Use VexFlow's automatic width calculation for consistent spacing\nconst formatter = new VF.Formatter().joinVoices([voice]);\nlet minWidth = formatter.preCalculateMinTotalWidth([voice]);\nconsole.log('VexFlow Debug: Raw minWidth=', minWidth);\n\n// Safety check: if minWidth is NaN (VexFlow bug), use fallback calculation\nif (isNaN(minWidth) || minWidth <= 0) {\n    console.log('VexFlow Debug: minWidth is invalid, using fallback calculation');\n    // Estimate width: ~40px per quarter note + margins\n    const noteCount = vexNotes.length;\n    minWidth = noteCount * 50 + 100; // Conservative estimate\n    console.log('VexFlow Debug: Fallback minWidth=', minWidth);\n}\n\nconst padding = 80; // Minimal margins for full width\n// Use full viewport width for canvas  \nconst viewportWidth = window.innerWidth || document.documentElement.clientWidth || 800;\nconst canvasWidth = Math.max(viewportWidth - 20, minWidth + padding); // Nearly full width with 20px margin\nconsole.log('VexFlow Debug: Final minWidth=', minWidth, 'viewportWidth=', viewportWidth, 'canvasWidth=', canvasWidth);\nconst canvasHeight = 200; // Compact height for better layout\n\n// Set canvas and stave size based on calculated width\nrenderer.resize(canvasWidth, canvasHeight);\n// Reduce scaling to allow more horizontal space\ncontext.scale(0.9, 0.9);\n\n// Create stave with full available width (minimal margins)\nconst stave = new VF.Stave(10, 40, canvasWidth - 20);\nstave.addClef('treble').setContext(context);\n\n// Set beginning and end barlines on the stave\n");
    r.append(stave_js.as_str());
    r.append("\n\nstave.draw();\n\n// Format with calculated width for consistent spacing\ntry {\n    formatter.format([voice], minWidth);\n    console.log('VexFlow Debug: Formatting successful');\n} catch (error) {\n    console.log('VexFlow Debug: Formatting failed, using basic formatting:', error.message);\n    // Fallback: try formatting without explicit width\n    try {\n        formatter.format([voice]);\n    } catch (fallbackError) {\n        console.log('VexFlow Debug: Basic formatting also failed:', fallbackError.message);\n    }\n}\nvoice.draw(context, stave);\n\n// Draw beams (after voice is drawn)\nbeams.forEach(beam => beam.draw());\n\n// Draw tuplets (after voice is drawn)\ntuplets.forEach(tuplet => tuplet.draw());\n\n// Create slurs\n");
    r.append(slurs_js.as_str());
    r.append("\n\n// Draw syllables at consistent Y position below staff\nif (window.vexflowSyllables && window.vexflowSyllables.length > 0) {\n    // Calculate maximum Y extent of all rendered elements\n    let maxY = stave.getYForLine(4) + 10; // Start with staff bottom + small margin\n    \n    // Check note extents (stems, beams, etc.)\n    vexNotes.forEach((note, index) => {\n        if (note.getBoundingBox) {\n            const bbox = note.getBoundingBox();\n            maxY = Math.max(maxY, bbox.y + bbox.h + 5);\n        }\n    });\n    \n    // Add extra space for syllables\n    const syllableY = maxY + 20;\n    \n    // Draw each syllable at the calculated Y position\n    window.vexflowSyllables.forEach(syl => {\n        const note = vexNotes[syl.noteIndex];\n        if (note && note.getAbsoluteX) {\n            const noteX = note.getAbsoluteX();\n            context.save();\n            context.font = 'italic 0.8em Arial';\n            context.textAlign = 'center';\n            context.fillStyle = '#000';\n            context.fillText(syl.text, noteX, syllableY);\n            context.restore();\n            console.log('\u{1F3B5} Drew syllable \"' + syl.text + '\" at x=' + noteX + ', y=' + syllableY);\n        }\n    });\n    \n    // Clear syllables for next render\n    window.vexflowSyllables = [];\n}\n\n// Render tala markers (after all VexFlow formatting is complete)\n");
    r.append(tala_js.as_str());
    r.append("\n})(); // IIFE End");
    proof {
        assert(r@ =~= script_around(notes_js@, beams_js@, tuplets_js@, stave_js@, slurs_js@, tala_js@));
    }
    r
}


/// The (duration, beat) of each note.
pub open spec fn note_view_beats(ns: Seq<VexFlowNoteView>) -> Seq<(Seq<char>, usize)> {
    ns.map_values(|n: VexFlowNoteView| (n.duration, n.beat_index))
}

/// The kind and place of each bar line.
pub open spec fn barline_kinds_places(bs: Seq<(BarlineType, BarlinePosition, Option<u8>)>) -> Seq<(BarlineType, BarlinePosition)> {
    bs.map_values(|b: (BarlineType, BarlinePosition, Option<u8>)| (b.0, b.1))
}

/// The VexFlow script of the items: their notes and bar notes, the beams
/// within beats, the tuplets, the stave's first and last bar lines, no slurs
/// (the items give none) and the tala markers.
pub open spec fn vexflow_script(items: Seq<ItemView>) -> Seq<char> {
    let notes = measure_notes(items);
    let bars = measure_barlines(items, items.len() as int);
    let beams = beams_within_beats(note_view_beats(notes));
    let tuplets = measure_tuplets(items);
    script_around(
        notes_and_barlines_js(notes, bars),
        join_lines(beam_lines(beams, beams.len() as int)),
        join_lines(tuplet_lines(tuplets, tuplets.len() as int)),
        stave_barlines_js(barline_kinds_places(bars)),
        Seq::empty(),
        tala_rendering_js(bars),
    )
}

proof fn lemma_barline_places(items: Seq<ItemView>, k: int)
    requires
        0 <= k <= items.len(),
        measure_notes(items).len() <= usize::MAX,
    ensures
        forall|j: int| 0 <= j < measure_barlines(items, k).len() ==>
            ((#[trigger] measure_barlines(items, k)[j]).1 matches BarlinePosition::Middle(idx) ==> idx < usize::MAX),
    decreases k,
{
    if k > 0 {
        lemma_barline_places(items, k - 1);
        lemma_measure_notes_prefix(items, k - 1);
        let prev = measure_barlines(items, k - 1);
        let cur = measure_barlines(items, k);
        assert forall|j: int| 0 <= j < cur.len() implies
            ((#[trigger] cur[j]).1 matches BarlinePosition::Middle(idx) ==> idx < usize::MAX) by {
            if j < prev.len() {
                assert(cur[j] == prev[j]);
            }
        }
    }
}

/// The VexFlow script of the state machine's items (see `vexflow_script`).
pub fn generate_vexflow_js(elements: &Vec<Item>) -> (r: Result<String, String>)
    requires
        items_fit(items_view(elements@)),
        measure_notes(items_view(elements@)).len() <= usize::MAX,
    ensures
        r matches Ok(js) && js@ == vexflow_script(items_view(elements@)),
{
    let ghost iv = items_view(elements@);
    let (notes, slur_markers) = match extract_notes_and_slur_markers(elements) {
        Ok(x) => x,
        Err(e) => return Err(e),
    };
    let slurs = create_slurs_from_markers(notes.as_slice(), slur_markers.as_slice());
    let beams = create_beams_from_notes(notes.as_slice());
    let tuplets = match create_tuplets_from_beats(elements, notes.as_slice()) {
        Ok(t) => t,
        Err(e) => return Err(e),
    };
    let barlines = create_barlines_from_elements(elements, notes.as_slice());
    proof {
        assert(slur_markers@ =~= Seq::<SlurMarker>::empty());
        assert(slurs@.len() == slur_views(slurs@).len());
        assert(note_beats(notes@) =~= note_view_beats(note_views(notes@)));
        assert(barline_views(barlines@) =~= barline_kinds_places(full_barline_views(barlines@)));
        lemma_barline_places(iv, iv.len() as int);
        assert(tala_places_fit(full_barline_views(barlines@)));
    }
    let measure = VexFlowMeasure { notes, slurs, beams, tuplets, barlines };
    let notes_js = match generate_notes_and_barlines_js(measure.notes.as_slice(), measure.barlines.as_slice()) {
        Ok(j) => j,
        Err(e) => return Err(e),
    };
    let beams_js = match generate_beam_creation_js(measure.beams.as_slice()) {
        Ok(j) => j,
        Err(e) => return Err(e),
    };
    let tuplets_js = match generate_tuplet_creation_js(measure.tuplets.as_slice()) {
        Ok(j) => j,
        Err(e) => return Err(e),
    };
    let stave_js = match generate_stave_barlines_js(measure.barlines.as_slice()) {
        Ok(j) => j,
        Err(e) => return Err(e),
    };
    let slurs_js = match generate_slur_creation_js(measure.slurs.as_slice()) {
        Ok(j) => j,
        Err(e) => return Err(e),
    };
    let tala_js = match generate_tala_rendering_js(measure.barlines.as_slice()) {
        Ok(j) => j,
        Err(e) => return Err(e),
    };
    proof {
        assert(beam_views(measure.beams@).len() == measure.beams@.len());
        assert(tuplet_views(measure.tuplets@).len() == measure.tuplets@.len());
        assert(slurs_js@ =~= Seq::<char>::empty());
    }
    Ok(script_around_of(notes_js, beams_js, tuplets_js, stave_js, slurs_js, tala_js))
}


/// Every paired slur runs forward within the notes: `from <= to < n`.
pub proof fn lemma_pair_slurs_within(ms: Seq<SlurMarker>, n: nat)
    ensures
        forall|k: int| 0 <= k < pair_slurs(ms, n).0.len() ==>
            (#[trigger] pair_slurs(ms, n).0[k]).0 <= pair_slurs(ms, n).0[k].1 < n,
    decreases ms.len(),
{
    if ms.len() > 0 {
        lemma_pair_slurs_within(ms.drop_last(), n);
        let prev = pair_slurs(ms.drop_last(), n);
        let cur = pair_slurs(ms, n);
        assert forall|k: int| 0 <= k < cur.0.len() implies (#[trigger] cur.0[k]).0 <= cur.0[k].1 < n by {
            if k < prev.0.len() {
                assert(cur.0[k] == prev.0[k]);
            }
        }
    }
}

proof fn lemma_first_after(s: Seq<SlurMarker>, p: usize)
    ensures
        0 <= first_after(s, p) <= s.len(),
        forall|i: int| 0 <= i < first_after(s, p) ==> (#[trigger] s[i]).position <= p,
        first_after(s, p) < s.len() ==> s[first_after(s, p)].position > p,
    decreases s.len(),
{
    if s.len() > 0 && s[0].position <= p {
        lemma_first_after(s.skip(1), p);
        assert forall|i: int| 0 <= i < first_after(s, p) implies (#[trigger] s[i]).position <= p by {
            if i > 0 {
                assert(s[i] == s.skip(1)[i - 1]);
            }
        }
        if first_after(s, p) < s.len() {
            assert(s[first_after(s, p)] == s.skip(1)[first_after(s.skip(1), p)]);
        }
    }
}

/// Sorting markers orders them by note index and keeps their number.
pub proof fn lemma_sorted_markers(s: Seq<SlurMarker>)
    ensures
        sorted_markers(s).len() == s.len(),
        forall|i: int, j: int| 0 <= i < j < s.len() ==>
            (#[trigger] sorted_markers(s)[i]).position <= (#[trigger] sorted_markers(s)[j]).position,
    decreases s.len(),
{
    if s.len() > 0 {
        lemma_sorted_markers(s.drop_last());
        let r = sorted_markers(s.drop_last());
        let x = s.last();
        let f = first_after(r, x.position);
        lemma_first_after(r, x.position);
        let out = r.insert(f, x);
        assert forall|i: int, j: int| 0 <= i < j < out.len() implies
            (#[trigger] out[i]).position <= (#[trigger] out[j]).position by {
            if j < f {
                assert(out[i] == r[i] && out[j] == r[j]);
            } else if j == f {
                assert(out[j] == x);
                assert(out[i] == r[i]);
            } else if i < f {
                assert(out[i] == r[i]);
                assert(out[j] == r[j - 1]);
                assert(r[i].position <= r[j - 1].position);
            } else if i == f {
                assert(out[i] == x);
                assert(out[j] == r[j - 1]);
                assert(r[f].position > x.position);
                if j - 1 > f {
                    assert(r[f].position <= r[j - 1].position);
                }
            } else {
                assert(out[i] == r[i - 1] && out[j] == r[j - 1]);
            }
        }
    }
}

/// Each tuplet of the items covers indices of the items' notes, and a
/// tuplet beat of two or more subdivisions is played in the space of a power
/// of two `p` with `p < divisions <= 2p`.
pub proof fn lemma_tuplets_within_notes(items: Seq<ItemView>)
    ensures
        forall|k: int, j: int| 0 <= k < measure_tuplets(items).len() && 0 <= j < (#[trigger] measure_tuplets(items)[k]).0.len() ==>
            #[trigger] measure_tuplets(items)[k].0[j] < measure_notes(items).len(),
        forall|k: int| 0 <= k < measure_tuplets(items).len() && (#[trigger] measure_tuplets(items)[k]).1 >= 2 ==>
            is_pow2(measure_tuplets(items)[k].2) && measure_tuplets(items)[k].2 < measure_tuplets(items)[k].1
                && measure_tuplets(items)[k].1 <= 2 * measure_tuplets(items)[k].2,
    decreases items.len(),
{
    if items.len() > 0 {
        let prefix = items.drop_last();
        lemma_tuplets_within_notes(prefix);
        let prev = measure_tuplets(prefix);
        let cur = measure_tuplets(items);
        assert forall|k: int, j: int| 0 <= k < cur.len() && 0 <= j < (#[trigger] cur[k]).0.len() implies
            #[trigger] cur[k].0[j] < measure_notes(items).len() by {
            if k < prev.len() {
                assert(cur[k] == prev[k]);
            }
            if let ItemView::Beat(b) = items.last() {
                lemma_beat_notes_len(b.elements, beats_in(prefix) as usize);
            }
        }
        assert forall|k: int| 0 <= k < cur.len() && (#[trigger] cur[k]).1 >= 2 implies
            is_pow2(cur[k].2) && cur[k].2 < cur[k].1 && cur[k].1 <= 2 * cur[k].2 by {
            if k < prev.len() {
                assert(cur[k] == prev[k]);
            } else {
                lemma_notes_occupied(cur[k].1);
            }
        }
    }
}

} // verus!
