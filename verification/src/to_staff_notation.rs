//! Staff notation from the rhythm state machine's items: scale-degree
//! mapping into a key, beaming, ties between beats, and a VexFlow script.
use vstd::prelude::*;
use crate::pitch::{Degree, degree_step, degree_alteration};
use crate::text::{str_eq, to_uppercase, unicode_uppercase, int_decimal, i64_to_string, push_char};
use crate::beaming::{beam_roles, beam_role};
use crate::vexflow_fsm_converter::{step_letter, opt_string_view};
use crate::vexflow_converter_v2::barline_style_name;
use crate::rhythm::converters::{RhythmConverter, vexflow_lookup, duration_views, BarlineType};
use crate::rhythm::types::{ParsedElement, ParsedElementView};
use crate::rhythm_fsm::{Beat, BeatView, BeatElementView, Item, ItemView, beat_elements_view, items_view};
use crate::lilypond_duration::string_views;
use crate::text::{nat_digits, u64_to_string};

verus! {

/// A stave of staff-notation elements with the key it is written in.
#[derive(Debug)]
pub struct StaffNotationStave {
    pub notes: Vec<StaffNotationElement>,
    /// Key signature such as "C", "G", "F" or "Bb".
    pub key_signature: Option<String>,
}

/// Elements of a staff-notation stave.
#[derive(Debug)]
pub enum StaffNotationElement {
    Note {
        keys: Vec<String>,
        duration: String,
        dots: u8,
        accidentals: Vec<StaffNotationAccidental>,
        tied: bool,
        /// The rhythm stage's duration such as `1/12`, kept for tuplet detection.
        original_duration: Option<String>,
        beam_start: bool,
        beam_end: bool,
        syl: Option<String>,
    },
    Rest { duration: String, dots: u8, original_duration: Option<String> },
    BarLine { bar_type: String },
    Breathe,
    SlurStart,
    SlurEnd,
    /// Notes of a tuplet with its ratio, such as (3, 2) for a triplet.
    Tuplet { notes: Vec<StaffNotationElement>, ratio: (u8, u8) },
}

/// An accidental attached to the key at `index`.
#[derive(Clone, Debug)]
pub struct StaffNotationAccidental {
    pub index: usize,
    pub accidental: String,
}

/// Maps scale degrees into a key.
#[derive(Clone, Debug)]
pub struct KeyTransposer {
    /// The note scale degree 1 maps to.
    pub tonic_note: &'static str,
    /// The key signature's altered notes (note index 0 = C .. 6 = B, sharp?).
    pub _key_signature: Vec<(usize, bool)>,
}

/// Tonic of a key name (already upper case); C for unknown names.
pub open spec fn key_tonic(k: Seq<char>) -> Seq<char> {
    if k == "G"@ { "g"@ } else if k == "D"@ { "d"@ } else if k == "A"@ { "a"@ }
    else if k == "E"@ { "e"@ } else if k == "B"@ { "b"@ } else if k == "F"@ { "f"@ }
    else if k == "BB"@ || k == "B♭"@ { "bb"@ } else if k == "EB"@ || k == "E♭"@ { "eb"@ }
    else if k == "AB"@ || k == "A♭"@ { "ab"@ } else { "c"@ }
}

/// The tonic for an optional key name (compared in upper case); C without a key.
pub open spec fn tonic_for(key: Option<&String>) -> Seq<char> {
    match key {
        Some(k) => key_tonic(unicode_uppercase(k@)),
        None => "c"@,
    }
}

fn signature(entries: &[(usize, bool)]) -> (r: Vec<(usize, bool)>)
    ensures
        r@ == entries@,
{
    let mut r = Vec::new();
    let mut i: usize = 0;
    while i < entries.len()
        invariant
            i <= entries.len(),
            r@ == entries@.take(i as int),
        decreases entries.len() - i,
    {
        r.push(entries[i]);
        i = i + 1;
        assert(r@ =~= entries@.take(i as int));
    }
    assert(entries@.take(entries@.len() as int) =~= entries@);
    r
}

/// The scale a tonic maps degrees 1 to 7 onto; tonics other than C, G, D and
/// F use C major.
pub open spec fn scale_for(tonic: Seq<char>) -> Seq<Seq<char>> {
    if tonic == "g"@ { seq!["g"@, "a"@, "b"@, "c"@, "d"@, "e"@, "fs"@] }
    else if tonic == "d"@ { seq!["d"@, "e"@, "fs"@, "g"@, "a"@, "b"@, "cs"@] }
    else if tonic == "f"@ { seq!["f"@, "g"@, "a"@, "bb"@, "c"@, "d"@, "e"@] }
    else { seq!["c"@, "d"@, "e"@, "f"@, "g"@, "a"@, "b"@] }
}

/// Accidental text of a chromatic alteration of one or two steps.
pub open spec fn alteration_text(a: int) -> Seq<char> {
    if a == 1 { "#"@ } else if a == 2 { "##"@ } else if a == -1 { "b"@ } else { "bb"@ }
}

/// The VexFlow key of a degree in the scale of `tonic` (octave 4 holds middle C).
pub open spec fn staff_key(tonic: Seq<char>, d: Degree, octave: i8) -> Seq<char> {
    scale_for(tonic)[degree_step(d)] + seq!['/'] + int_decimal(octave + 4)
}

/// The note letter and chromatic alteration of a scale degree.
pub fn degree_to_scale_degree(degree: Degree) -> (r: (&'static str, i8))
    ensures
        r.0@ == step_letter(degree_step(degree)),
        r.1 == degree_alteration(degree),
{
    match degree {
        Degree::N1bb => ("c", -2), Degree::N1b => ("c", -1), Degree::N1 => ("c", 0), Degree::N1s => ("c", 1), Degree::N1ss => ("c", 2),
        Degree::N2bb => ("d", -2), Degree::N2b => ("d", -1), Degree::N2 => ("d", 0), Degree::N2s => ("d", 1), Degree::N2ss => ("d", 2),
        Degree::N3bb => ("e", -2), Degree::N3b => ("e", -1), Degree::N3 => ("e", 0), Degree::N3s => ("e", 1), Degree::N3ss => ("e", 2),
        Degree::N4bb => ("f", -2), Degree::N4b => ("f", -1), Degree::N4 => ("f", 0), Degree::N4s => ("f", 1), Degree::N4ss => ("f", 2),
        Degree::N5bb => ("g", -2), Degree::N5b => ("g", -1), Degree::N5 => ("g", 0), Degree::N5s => ("g", 1), Degree::N5ss => ("g", 2),
        Degree::N6bb => ("a", -2), Degree::N6b => ("a", -1), Degree::N6 => ("a", 0), Degree::N6s => ("a", 1), Degree::N6ss => ("a", 2),
        Degree::N7bb => ("b", -2), Degree::N7b => ("b", -1), Degree::N7 => ("b", 0), Degree::N7s => ("b", 1), Degree::N7ss => ("b", 2),
    }
}

impl KeyTransposer {
    /// Transposer for a key name (compared in upper case); no key, C and
    /// unknown names give C major.
    pub fn new(key: Option<&String>) -> (t: Self)
        ensures
            t.tonic_note@ == tonic_for(key),
            t._key_signature@ == (match key {
                Some(k) => crate::vexflow_converter_v2::key_signature_notes(unicode_uppercase(k@)),
                None => Seq::empty(),
            }),
    {
        match key {
            None => KeyTransposer { tonic_note: "c", _key_signature: Vec::new() },
            Some(k) => {
                let upper = to_uppercase(k.as_str());
                let u = upper.as_str();
                if str_eq(u, "G") {
                    KeyTransposer { tonic_note: "g", _key_signature: signature(&[(3, true)]) }
                } else if str_eq(u, "D") {
                    KeyTransposer { tonic_note: "d", _key_signature: signature(&[(3, true), (0, true)]) }
                } else if str_eq(u, "A") {
                    KeyTransposer { tonic_note: "a", _key_signature: signature(&[(3, true), (0, true), (4, true)]) }
                } else if str_eq(u, "E") {
                    KeyTransposer { tonic_note: "e", _key_signature: signature(&[(3, true), (0, true), (4, true), (1, true)]) }
                } else if str_eq(u, "B") {
                    KeyTransposer { tonic_note: "b", _key_signature: signature(&[(3, true), (0, true), (4, true), (1, true), (5, true)]) }
                } else if str_eq(u, "F") {
                    KeyTransposer { tonic_note: "f", _key_signature: signature(&[(6, false)]) }
                } else if str_eq(u, "BB") || str_eq(u, "B♭") {
                    KeyTransposer { tonic_note: "bb", _key_signature: signature(&[(6, false), (2, false)]) }
                } else if str_eq(u, "EB") || str_eq(u, "E♭") {
                    KeyTransposer { tonic_note: "eb", _key_signature: signature(&[(6, false), (2, false), (5, false)]) }
                } else if str_eq(u, "AB") || str_eq(u, "A♭") {
                    KeyTransposer { tonic_note: "ab", _key_signature: signature(&[(6, false), (2, false), (5, false), (1, false)]) }
                } else {
                    KeyTransposer { tonic_note: "c", _key_signature: Vec::new() }
                }
            },
        }
    }

    /// The scale of the tonic: notes for degrees 1 to 7.
    pub fn get_scale_for_key(&self) -> (r: Vec<&'static str>)
        ensures
            r@.len() == 7,
            forall|i: int| 0 <= i < 7 ==> #[trigger] r@[i]@ == scale_for(self.tonic_note@)[i],
    {
        let names: [&'static str; 7] = if str_eq(self.tonic_note, "g") {
            ["g", "a", "b", "c", "d", "e", "fs"]
        } else if str_eq(self.tonic_note, "d") {
            ["d", "e", "fs", "g", "a", "b", "cs"]
        } else if str_eq(self.tonic_note, "f") {
            ["f", "g", "a", "bb", "c", "d", "e"]
        } else {
            ["c", "d", "e", "f", "g", "a", "b"]
        };
        let mut r: Vec<&'static str> = Vec::new();
        let mut i: usize = 0;
        while i < 7
            invariant
                i <= 7,
                r@.len() == i,
                forall|j: int| 0 <= j < i ==> #[trigger] r@[j]@ == scale_for(self.tonic_note@)[j],
                forall|j: int| 0 <= j < 7 ==> #[trigger] names@[j]@ == scale_for(self.tonic_note@)[j],
            decreases 7 - i,
        {
            r.push(names[i]);
            i = i + 1;
        }
        r
    }

    /// The VexFlow key of a scale degree in this key, with the degree's own
    /// chromatic alteration as accidental ("#", "##", "b", "bb") when it has one.
    pub fn transpose_pitch(&self, degree: Degree, octave: i8) -> (r: (String, Vec<StaffNotationAccidental>))
        requires
            octave + 4 <= i8::MAX,
        ensures
            r.0@ == staff_key(self.tonic_note@, degree, octave),
            r.1@.len() == (if degree_alteration(degree) != 0 { 1int } else { 0int }),
            r.1@.len() == 1 ==> r.1@[0].index == 0 && r.1@[0].accidental@ == alteration_text(degree_alteration(degree)),
    {
        let (scale_degree_letter, chromatic_alteration) = degree_to_scale_degree(degree);
        let c_major_scale: [&'static str; 7] = ["c", "d", "e", "f", "g", "a", "b"];
        let target_key_scale = self.get_scale_for_key();
        let mut scale_degree_index: usize = 0;
        let mut found = false;
        let mut i: usize = 0;
        while i < 7
            invariant
                i <= 7,
                forall|j: int| 0 <= j < 7 ==> #[trigger] c_major_scale@[j]@ == step_letter(j),
                scale_degree_letter@ == step_letter(degree_step(degree)),
                found ==> scale_degree_index as int == degree_step(degree),
                !found ==> scale_degree_index == 0 && i <= degree_step(degree),
            decreases 7 - i,
        {
            if !found && str_eq(c_major_scale[i], scale_degree_letter) {
                proof { lemma_step_letters_distinct(i as int, degree_step(degree)); }
                scale_degree_index = i;
                found = true;
            } else if !found {
                proof {
                    if i as int == degree_step(degree) {
                        assert(c_major_scale@[i as int]@ == scale_degree_letter@);
                    }
                }
            }
            i = i + 1;
        }
        let target_note = target_key_scale[scale_degree_index];
        let vexflow_octave = octave + 4;
        let mut key = target_note.to_owned();
        push_char(&mut key, '/');
        let digits = i64_to_string(vexflow_octave as i64);
        key.append(digits.as_str());
        let mut accidentals: Vec<StaffNotationAccidental> = Vec::new();
        if chromatic_alteration != 0 {
            let accidental_symbol = if chromatic_alteration == 1 { "#" } else if chromatic_alteration == 2 { "##" }
                else if chromatic_alteration == -1 { "b" } else { "bb" };
            accidentals.push(StaffNotationAccidental { index: 0, accidental: accidental_symbol.to_owned() });
        }
        (key, accidentals)
    }
}

proof fn lemma_step_letters_distinct(i: int, j: int)
    requires
        0 <= i < 7,
        0 <= j < 7,
        step_letter(i) == step_letter(j),
    ensures
        i == j,
{
    reveal_strlit("c"); reveal_strlit("d"); reveal_strlit("e"); reveal_strlit("f");
    reveal_strlit("g"); reveal_strlit("a"); reveal_strlit("b");
    assert(step_letter(0)[0] == 'c');
    assert(step_letter(1)[0] == 'd');
    assert(step_letter(2)[0] == 'e');
    assert(step_letter(3)[0] == 'f');
    assert(step_letter(4)[0] == 'g');
    assert(step_letter(5)[0] == 'a');
    assert(step_letter(6)[0] == 'b');
}


/// A staff element as plain values; a tuplet nested in a tuplet shows only its ratio.
pub enum StaffElementView {
    Note {
        keys: Seq<Seq<char>>,
        duration: Seq<char>,
        dots: u8,
        accidentals: Seq<(usize, Seq<char>)>,
        tied: bool,
        original_duration: Option<Seq<char>>,
        beam_start: bool,
        beam_end: bool,
        syl: Option<Seq<char>>,
    },
    Rest { duration: Seq<char>, dots: u8, original_duration: Option<Seq<char>> },
    BarLine { bar_type: Seq<char> },
    Breathe,
    SlurStart,
    SlurEnd,
    Tuplet { notes: Seq<StaffElementView>, ratio: (u8, u8) },
    NestedTuplet { ratio: (u8, u8) },
}

/// Accidentals as (index, text).
pub open spec fn accidentals_view(v: Seq<StaffNotationAccidental>) -> Seq<(usize, Seq<char>)> {
    v.map_values(|a: StaffNotationAccidental| (a.index, a.accidental@))
}

/// An element as plain values, one level deep.
pub open spec fn flat_view(e: StaffNotationElement) -> StaffElementView {
    match e {
        StaffNotationElement::Note { keys, duration, dots, accidentals, tied, original_duration, beam_start, beam_end, syl } =>
            StaffElementView::Note {
                keys: string_views(keys@), duration: duration@, dots, accidentals: accidentals_view(accidentals@), tied,
                original_duration: opt_string_view(original_duration), beam_start, beam_end, syl: opt_string_view(syl),
            },
        StaffNotationElement::Rest { duration, dots, original_duration } =>
            StaffElementView::Rest { duration: duration@, dots, original_duration: opt_string_view(original_duration) },
        StaffNotationElement::BarLine { bar_type } => StaffElementView::BarLine { bar_type: bar_type@ },
        StaffNotationElement::Breathe => StaffElementView::Breathe,
        StaffNotationElement::SlurStart => StaffElementView::SlurStart,
        StaffNotationElement::SlurEnd => StaffElementView::SlurEnd,
        StaffNotationElement::Tuplet { ratio, .. } => StaffElementView::NestedTuplet { ratio },
    }
}

/// An element as plain values, with a tuplet's notes viewed one level deep.
pub open spec fn element_view(e: StaffNotationElement) -> StaffElementView {
    match e {
        StaffNotationElement::Tuplet { notes, ratio } =>
            StaffElementView::Tuplet { notes: notes@.map_values(|x: StaffNotationElement| flat_view(x)), ratio },
        _ => flat_view(e),
    }
}

/// The flat views of a sequence of elements.
pub open spec fn flat_views(v: Seq<StaffNotationElement>) -> Seq<StaffElementView> {
    v.map_values(|x: StaffNotationElement| flat_view(x))
}

/// The views of a stave's elements.
pub open spec fn stave_view(v: Seq<StaffNotationElement>) -> Seq<StaffElementView> {
    v.map_values(|x: StaffNotationElement| element_view(x))
}

/// Whether an element takes part in beaming: notes of an eighth or shorter,
/// and inside tuplets also quarter notes.
pub open spec fn staff_beamable(e: StaffElementView, in_tuplet: bool) -> bool {
    match e {
        StaffElementView::Note { duration, .. } =>
            duration == "8"@ || duration == "16"@ || duration == "32"@ || (in_tuplet && duration == "q"@),
        _ => false,
    }
}

/// The beamability of each element.
pub open spec fn staff_beamable_flags(s: Seq<StaffElementView>, in_tuplet: bool) -> Seq<bool> {
    Seq::new(s.len(), |i: int| staff_beamable(s[i], in_tuplet))
}

/// A note with its beam flags set; other elements are unchanged.
pub open spec fn with_beam_view(e: StaffElementView, starts: bool, ends: bool) -> StaffElementView {
    match e {
        StaffElementView::Note { keys, duration, dots, accidentals, tied, original_duration, beam_start: _, beam_end: _, syl } =>
            StaffElementView::Note { keys, duration, dots, accidentals, tied, original_duration, beam_start: starts, beam_end: ends, syl },
        _ => e,
    }
}

/// Every maximal run of at least two beamable notes beamed.
pub open spec fn beamed(s: Seq<StaffElementView>, in_tuplet: bool) -> Seq<StaffElementView> {
    Seq::new(s.len(), |i: int| match beam_role(staff_beamable_flags(s, in_tuplet), i) {
        Some(role) => with_beam_view(s[i], role.0, role.1),
        None => s[i],
    })
}

fn set_beam_flags(notes: &mut Vec<StaffNotationElement>, i: usize, starts: bool, ends: bool)
    requires
        i < old(notes)@.len(),
    ensures
        final(notes)@.len() == old(notes)@.len(),
        forall|j: int| 0 <= j < old(notes)@.len() && j != i ==> final(notes)@[j] == old(notes)@[j],
        flat_view(final(notes)@[i as int]) == with_beam_view(flat_view(old(notes)@[i as int]), starts, ends),
{
    match &mut notes[i] {
        StaffNotationElement::Note { beam_start, beam_end, .. } => {
            *beam_start = starts;
            *beam_end = ends;
        },
        _ => {},
    }
}

fn staff_beamable_vec(notes: &Vec<StaffNotationElement>, in_tuplet: bool) -> (b: Vec<bool>)
    ensures
        b@ == staff_beamable_flags(flat_views(notes@), in_tuplet),
{
    let mut b: Vec<bool> = Vec::new();
    let mut i: usize = 0;
    while i < notes.len()
        invariant
            i <= notes@.len(),
            b@ == staff_beamable_flags(flat_views(notes@), in_tuplet).take(i as int),
        decreases notes@.len() - i,
    {
        let flag = match &notes[i] {
            StaffNotationElement::Note { duration, .. } => {
                let d = duration.as_str();
                str_eq(d, "8") || str_eq(d, "16") || str_eq(d, "32") || (in_tuplet && str_eq(d, "q"))
            },
            _ => false,
        };
        b.push(flag);
        i = i + 1;
        assert(b@ =~= staff_beamable_flags(flat_views(notes@), in_tuplet).take(i as int));
    }
    assert(b@ =~= staff_beamable_flags(flat_views(notes@), in_tuplet));
    b
}

/// Beams every maximal run of at least two beamable notes: the first note of
/// a run starts the beam and the last ends it. Other elements are unchanged.
pub fn apply_beaming_v2(notes: &mut Vec<StaffNotationElement>, is_tuplet: bool)
    ensures
        flat_views(final(notes)@) == beamed(flat_views(old(notes)@), is_tuplet),
{
    let ghost before = flat_views(notes@);
    let flags = staff_beamable_vec(notes, is_tuplet);
    let roles = beam_roles(&flags);
    let mut i: usize = 0;
    while i < roles.len()
        invariant
            roles@.len() == before.len(),
            flags@ == staff_beamable_flags(before, is_tuplet),
            forall|j: int| 0 <= j < before.len() ==> #[trigger] roles@[j] == beam_role(flags@, j),
            i <= roles@.len(),
            notes@.len() == before.len(),
            forall|j: int| i <= j < before.len() ==> flat_view(notes@[j]) == before[j],
            forall|j: int| 0 <= j < i ==> #[trigger] flat_view(notes@[j]) == beamed(before, is_tuplet)[j],
        decreases roles@.len() - i,
    {
        if let Some((starts, ends)) = roles[i] {
            set_beam_flags(notes, i, starts, ends);
        }
        i = i + 1;
    }
    assert(flat_views(notes@) =~= beamed(before, is_tuplet));
}

/// Sets the beam flags of the notes at positions `start..=end`: a note starts
/// the beam at `start` and ends it at `end`. Other elements are unchanged.
pub fn apply_beam_markers(notes: &mut Vec<StaffNotationElement>, start: usize, end: usize)
    ensures
        final(notes)@.len() == old(notes)@.len(),
        forall|i: int| 0 <= i < old(notes)@.len() ==> #[trigger] flat_view(final(notes)@[i]) ==
            if start <= i <= end { with_beam_view(flat_view(old(notes)@[i]), i == start, i == end) } else { flat_view(old(notes)@[i]) },
{
    let ghost before = notes@;
    let mut i: usize = 0;
    while i < notes.len()
        invariant
            notes@.len() == before.len(),
            i <= before.len(),
            forall|j: int| i <= j < before.len() ==> notes@[j] == before[j],
            forall|j: int| 0 <= j < i ==> #[trigger] flat_view(notes@[j]) ==
                if start <= j <= end { with_beam_view(flat_view(before[j]), j == start, j == end) } else { flat_view(before[j]) },
        decreases before.len() - i,
    {
        if i >= start && i <= end {
            set_beam_flags(notes, i, i == start, i == end);
        }
        i = i + 1;
    }
}

/// VexFlow bar line style for a bar line text (see `barline_style_name`).
pub fn map_barline_style(style: &str) -> (r: String)
    ensures
        r@ == barline_style_name(style@),
{
    crate::vexflow_converter_v2::map_barline_style(style)
}


/// The text of a fraction as displayed: `n/d`, or `n` for a whole number.
pub open spec fn fraction_text(f: (usize, usize)) -> Seq<char> {
    if f.1 == 1 { nat_digits(f.0 as nat) } else { nat_digits(f.0 as nat) + seq!['/'] + nat_digits(f.1 as nat) }
}

/// The text of a fraction as displayed.
pub fn fraction_to_text(f: (usize, usize)) -> (r: String)
    ensures
        r@ == fraction_text(f),
{
    let mut r = u64_to_string(f.0 as u64);
    if f.1 != 1 {
        push_char(&mut r, '/');
        let d = u64_to_string(f.1 as u64);
        r.append(d.as_str());
    }
    r
}

/// The accidentals drawn for a scale degree: its alteration, if any.
pub open spec fn degree_accidentals(d: Degree) -> Seq<(usize, Seq<char>)> {
    if degree_alteration(d) != 0 { seq![(0usize, alteration_text(degree_alteration(d)))] } else { Seq::empty() }
}

/// The staff elements a beat element contributes: a note in the key's scale
/// or a rest, written with the VexFlow value of its written duration; other
/// elements contribute nothing.
pub open spec fn element_staff_notes(be: BeatElementView, tonic: Seq<char>) -> Seq<StaffElementView> {
    let td = be.tuplet_duration;
    let d = vexflow_lookup(td.0 as int, td.1 as int)[0];
    match be.element {
        ParsedElementView::Note { degree, octave, .. } => seq![StaffElementView::Note {
            keys: seq![staff_key(tonic, degree, octave)], duration: d.0, dots: d.1,
            accidentals: degree_accidentals(degree), tied: false,
            original_duration: Some(fraction_text(td)), beam_start: false, beam_end: false, syl: None,
        }],
        ParsedElementView::Rest { .. } => seq![StaffElementView::Rest { duration: d.0, dots: d.1, original_duration: Some(fraction_text(td)) }],
        _ => Seq::empty(),
    }
}

/// The staff elements of a beat's elements, in order.
pub open spec fn beat_staff_notes(els: Seq<BeatElementView>, tonic: Seq<char>) -> Seq<StaffElementView>
    decreases els.len(),
{
    if els.len() == 0 { Seq::empty() } else { beat_staff_notes(els.drop_last(), tonic) + element_staff_notes(els.last(), tonic) }
}

/// A note marked as tied to the next one; other elements are unchanged.
pub open spec fn with_tie_view(e: StaffElementView) -> StaffElementView {
    match e {
        StaffElementView::Note { keys, duration, dots, accidentals, tied: _, original_duration, beam_start, beam_end, syl } =>
            StaffElementView::Note { keys, duration, dots, accidentals, tied: true, original_duration, beam_start, beam_end, syl },
        _ => e,
    }
}

/// Whether `i` is the position of the last note.
pub open spec fn is_last_note(s: Seq<StaffElementView>, i: int) -> bool {
    0 <= i < s.len() && s[i] is Note && forall|j: int| i < j < s.len() ==> !(#[trigger] s[j] is Note)
}

/// The elements with the last note marked tied.
pub open spec fn tie_last_note(s: Seq<StaffElementView>) -> Seq<StaffElementView> {
    if exists|i: int| is_last_note(s, i) {
        let i = choose|i: int| is_last_note(s, i);
        s.update(i, with_tie_view(s[i]))
    } else {
        s
    }
}

/// The staff elements of a beat: its notes and rests, the last note tied when
/// the next beat continues it, beamed, and wrapped in a tuplet with the
/// beat's ratio when the beat is a tuplet.
pub open spec fn beat_block(b: BeatView, tonic: Seq<char>, next_tied: bool) -> Seq<StaffElementView> {
    let raw = beat_staff_notes(b.elements, tonic);
    let notes = beamed(if next_tied { tie_last_note(raw) } else { raw }, b.is_tuplet);
    if b.is_tuplet {
        seq![StaffElementView::Tuplet { notes, ratio: (b.tuplet_ratio.unwrap().0 as u8, b.tuplet_ratio.unwrap().1 as u8) }]
    } else {
        notes
    }
}

/// What the staff conversion needs of a beat: a tuplet has its ratio, notes
/// leave room for the octave shift, and written durations have a denominator.
pub open spec fn beat_renderable(b: BeatView) -> bool {
    &&& (b.is_tuplet ==> b.tuplet_ratio is Some)
    &&& forall|i: int| 0 <= i < b.elements.len() ==> {
        &&& #[trigger] b.elements[i].tuplet_duration.1 > 0
        &&& (b.elements[i].element matches ParsedElementView::Note { octave, .. } ==> octave + 4 <= i8::MAX)
    }
}

fn set_tied(notes: &mut Vec<StaffNotationElement>, i: usize)
    requires
        i < old(notes)@.len(),
    ensures
        final(notes)@.len() == old(notes)@.len(),
        forall|j: int| 0 <= j < old(notes)@.len() && j != i ==> final(notes)@[j] == old(notes)@[j],
        flat_view(final(notes)@[i as int]) == with_tie_view(flat_view(old(notes)@[i as int])),
{
    match &mut notes[i] {
        StaffNotationElement::Note { tied, .. } => {
            *tied = true;
        },
        _ => {},
    }
}

fn tie_last(notes: &mut Vec<StaffNotationElement>)
    ensures
        flat_views(final(notes)@) == tie_last_note(flat_views(old(notes)@)),
{
    let ghost s = flat_views(notes@);
    let mut i: usize = notes.len();
    while i > 0
        invariant
            i <= notes@.len(),
            notes@ == old(notes)@,
            s == flat_views(notes@),
            forall|j: int| i <= j < notes@.len() ==> !(#[trigger] s[j] is Note),
        decreases i,
    {
        let is_note = match &notes[i - 1] {
            StaffNotationElement::Note { .. } => true,
            _ => false,
        };
        if is_note {
            let k = i - 1;
            proof {
                assert(is_last_note(s, k as int));
                assert forall|m: int| is_last_note(s, m) implies m == k by {
                    if m < k { assert(s[k as int] is Note); }
                    if m > k { assert(!(s[m] is Note)); }
                }
            }
            let ghost before = notes@;
            set_tied(notes, k);
            proof {
                assert(flat_views(notes@) =~= s.update(k as int, with_tie_view(s[k as int])));
                assert(exists|m: int| is_last_note(s, m));
                let c = choose|m: int| is_last_note(s, m);
                assert(is_last_note(s, c));
                assert(c == k);
                assert(tie_last_note(s) == s.update(k as int, with_tie_view(s[k as int])));
            }
            return;
        }
        i = i - 1;
    }
    proof {
        assert forall|m: int| !is_last_note(s, m) by {
            if 0 <= m < s.len() && s[m] is Note {
                assert(!(s[m] is Note));
            }
        }
    }
}

proof fn lemma_beat_staff_notes_push(els: Seq<BeatElementView>, x: BeatElementView, tonic: Seq<char>)
    ensures
        beat_staff_notes(els.push(x), tonic) == beat_staff_notes(els, tonic) + element_staff_notes(x, tonic),
{
    assert(els.push(x).drop_last() =~= els);
}

/// Whether a sequence holds only notes and rests.
pub open spec fn only_notes_and_rests(s: Seq<StaffElementView>) -> bool {
    forall|i: int| 0 <= i < s.len() ==> (#[trigger] s[i] is Note || s[i] is Rest)
}

proof fn lemma_beat_staff_notes_plain(els: Seq<BeatElementView>, tonic: Seq<char>)
    ensures
        only_notes_and_rests(beat_staff_notes(els, tonic)),
    decreases els.len(),
{
    if els.len() > 0 {
        lemma_beat_staff_notes_plain(els.drop_last(), tonic);
        let a = beat_staff_notes(els.drop_last(), tonic);
        let b = element_staff_notes(els.last(), tonic);
        assert forall|i: int| 0 <= i < (a + b).len() implies (#[trigger] (a + b)[i] is Note || (a + b)[i] is Rest) by {
            if i < a.len() { assert((a + b)[i] == a[i]); } else { assert((a + b)[i] == b[i - a.len()]); }
        }
    }
}

proof fn lemma_plain_preserved(s: Seq<StaffElementView>, in_tuplet: bool)
    requires
        only_notes_and_rests(s),
    ensures
        only_notes_and_rests(tie_last_note(s)),
        only_notes_and_rests(beamed(s, in_tuplet)),
        only_notes_and_rests(beamed(tie_last_note(s), in_tuplet)),
{
    let t = tie_last_note(s);
    assert(only_notes_and_rests(t)) by {
        if exists|i: int| is_last_note(s, i) {
            let i = choose|i: int| is_last_note(s, i);
            assert forall|j: int| 0 <= j < t.len() implies (#[trigger] t[j] is Note || t[j] is Rest) by {
                assert(s[j] is Note || s[j] is Rest);
            }
        }
    }
    assert forall|j: int| 0 <= j < beamed(s, in_tuplet).len() implies
        (#[trigger] beamed(s, in_tuplet)[j] is Note || beamed(s, in_tuplet)[j] is Rest) by {
        assert(s[j] is Note || s[j] is Rest);
    }
    assert forall|j: int| 0 <= j < beamed(t, in_tuplet).len() implies
        (#[trigger] beamed(t, in_tuplet)[j] is Note || beamed(t, in_tuplet)[j] is Rest) by {
        assert(t[j] is Note || t[j] is Rest);
    }
}

/// Appends the staff elements of a beat to a stave (see `beat_block`).
pub fn process_beat_v2(beat: &Beat, stave: &mut StaffNotationStave, transposer: &KeyTransposer, next_beat_tied: bool)
    -> (r: Result<(), String>)
    requires
        beat_renderable(beat@),
    ensures
        r is Ok,
        final(stave).key_signature == old(stave).key_signature,
        stave_view(final(stave).notes@) == stave_view(old(stave).notes@) + beat_block(beat@, transposer.tonic_note@, next_beat_tied),
{
    let ghost tonic = transposer.tonic_note@;
    let ghost els = beat@.elements;
    let mut beat_notes: Vec<StaffNotationElement> = Vec::new();
    let mut k: usize = 0;
    proof {
        assert(els.take(0) =~= Seq::<BeatElementView>::empty());
        assert(flat_views(beat_notes@) =~= Seq::<StaffElementView>::empty());
    }
    while k < beat.elements.len()
        invariant
            els == beat@.elements,
            tonic == transposer.tonic_note@,
            beat_renderable(beat@),
            k <= beat.elements@.len(),
            els.len() == beat.elements@.len(),
            flat_views(beat_notes@) == beat_staff_notes(els.take(k as int), tonic),
            forall|j: int| 0 <= j < beat_notes@.len() ==> !(#[trigger] beat_notes@[j] is Tuplet),
        decreases beat.elements@.len() - k,
    {
        let be = &beat.elements[k];
        proof {
            assert(els[k as int] == be@);
            assert(els.take(k + 1) =~= els.take(k as int).push(be@));
            lemma_beat_staff_notes_push(els.take(k as int), be@, tonic);
            assert(be.tuplet_duration.1 > 0);
        }
        let ghost prev = beat_notes@;
        let td = be.tuplet_duration;
        match &be.element {
            ParsedElement::Note { degree, octave, .. } => {
                let vexflow_durations = RhythmConverter::fraction_to_vexflow(td.0 as u64, td.1 as u64);
                let tp = transposer.transpose_pitch(*degree, *octave);
                assert(tp.0@ == staff_key(tonic, *degree, *octave));
                let (key, accidentals) = tp;
                let n = vexflow_durations.len();
                assert(n == 1) by { assert(duration_views(vexflow_durations@).len() == n); }
                let (vexflow_duration, dots) = (vexflow_durations[0].0.clone(), vexflow_durations[0].1);
                let mut keys: Vec<String> = Vec::new();
                let ghost key_view = key@;
                keys.push(key);
                assert(keys@.len() == 1 && keys@[0]@ == key_view);
                let should_tie = 0 < n - 1;
                let note = StaffNotationElement::Note {
                    keys,
                    duration: vexflow_duration,
                    dots,
                    accidentals,
                    tied: should_tie,
                    original_duration: Some(fraction_to_text(td)),
                    beam_start: false,
                    beam_end: false,
                    syl: None,
                };
                proof {
                    assert(duration_views(vexflow_durations@)[0] == vexflow_lookup(td.0 as int, td.1 as int)[0]);
                    assert(string_views(keys@) =~= seq![staff_key(tonic, *degree, *octave)]);
                    assert(accidentals_view(accidentals@) =~= degree_accidentals(*degree));
                }
                beat_notes.push(note);
                proof {
                    assert(flat_views(beat_notes@) =~= flat_views(prev) + element_staff_notes(be@, tonic));
                }
            },
            ParsedElement::Rest { .. } => {
                let vexflow_durations = RhythmConverter::fraction_to_vexflow(td.0 as u64, td.1 as u64);
                let n = vexflow_durations.len();
                assert(n == 1) by { assert(duration_views(vexflow_durations@).len() == n); }
                let rest = StaffNotationElement::Rest {
                    duration: vexflow_durations[0].0.clone(),
                    dots: vexflow_durations[0].1,
                    original_duration: Some(fraction_to_text(td)),
                };
                proof {
                    assert(duration_views(vexflow_durations@)[0] == vexflow_lookup(td.0 as int, td.1 as int)[0]);
                }
                beat_notes.push(rest);
                proof {
                    assert(flat_views(beat_notes@) =~= flat_views(prev) + element_staff_notes(be@, tonic));
                }
            },
            _ => {
                proof {
                    assert(element_staff_notes(be@, tonic) =~= Seq::<StaffElementView>::empty());
                    assert(flat_views(prev) + element_staff_notes(be@, tonic) =~= flat_views(prev));
                }
            },
        }
        k = k + 1;
    }
    proof {
        assert(els.take(k as int) =~= els);
    }
    let ghost raw = flat_views(beat_notes@);
    proof {
        lemma_beat_staff_notes_plain(els, tonic);
        lemma_plain_preserved(raw, beat.is_tuplet);
    }
    if next_beat_tied {
        tie_last(&mut beat_notes);
    }
    let ghost tied_seq = flat_views(beat_notes@);
    apply_beaming_v2(&mut beat_notes, beat.is_tuplet);
    let ghost old_notes = stave.notes@;
    if beat.is_tuplet {
        let (tuplet_num, tuplet_den) = beat.tuplet_ratio.unwrap();
        let ghost inner = beat_notes@;
        stave.notes.push(StaffNotationElement::Tuplet { notes: beat_notes, ratio: (tuplet_num as u8, tuplet_den as u8) });
        proof {
            assert(stave_view(stave.notes@) =~= stave_view(old_notes) + beat_block(beat@, tonic, next_beat_tied));
        }
    } else {
        let ghost appended = beat_notes@;
        proof {
            assert(flat_views(appended).len() == appended.len());
            assert(only_notes_and_rests(flat_views(appended)));
            assert forall|m: int| 0 <= m < appended.len() implies !(#[trigger] appended[m] is Tuplet) by {
                assert(flat_views(appended)[m] == flat_view(appended[m]));
            }
        }
        let mut rest = beat_notes;
        let ghost mut j: int = 0;
        while rest.len() > 0
            invariant
                0 <= j <= appended.len(),
                rest@ == appended.skip(j),
                stave_view(stave.notes@) == stave_view(old_notes) + flat_views(appended).take(j),
                stave.key_signature == old(stave).key_signature,
                forall|m: int| 0 <= m < appended.len() ==> !(#[trigger] appended[m] is Tuplet),
            decreases rest@.len(),
        {
            let ghost before_rest = rest@;
            let x = rest.remove(0);
            let ghost prev_stave = stave.notes@;
            proof {
                assert(x == appended[j]);
                assert(rest@ =~= appended.skip(j + 1));
                assert(element_view(x) == flat_view(x));
            }
            stave.notes.push(x);
            proof {
                assert(stave_view(stave.notes@) =~= stave_view(prev_stave).push(flat_view(x)));
                assert(flat_views(appended).take(j + 1) =~= flat_views(appended).take(j).push(flat_view(x)));
                j = j + 1;
            }
        }
        proof {
            assert(flat_views(appended).take(j) =~= flat_views(appended));
        }
    }
    Ok(())
}


/// The beats among the items, in order.
pub open spec fn beats_of(items: Seq<ItemView>) -> Seq<BeatView>
    decreases items.len(),
{
    if items.len() == 0 {
        Seq::empty()
    } else {
        beats_of(items.drop_last()) + match items.last() {
            ItemView::Beat(b) => seq![b],
            _ => Seq::<BeatView>::empty(),
        }
    }
}

/// The style text of a bar line kind.
pub open spec fn barline_type_text(t: BarlineType) -> Seq<char> {
    match t {
        BarlineType::Single => "|"@,
        BarlineType::Double => "||"@,
        BarlineType::Final => "|."@,
        BarlineType::RepeatStart => "|:"@,
        BarlineType::RepeatEnd => ":|"@,
        BarlineType::RepeatBoth => ":|:"@,
    }
}

/// The style text of a bar line kind, computed.
pub fn barline_type_to_text(t: BarlineType) -> (r: &'static str)
    ensures
        r@ == barline_type_text(t),
{
    match t {
        BarlineType::Single => "|",
        BarlineType::Double => "||",
        BarlineType::Final => "|.",
        BarlineType::RepeatStart => "|:",
        BarlineType::RepeatEnd => ":|",
        BarlineType::RepeatBoth => ":|:",
    }
}

/// The staff element of an item that is not a beat.
pub open spec fn other_item_view(item: ItemView) -> Seq<StaffElementView> {
    match item {
        ItemView::Barline(t, _) => seq![StaffElementView::BarLine { bar_type: barline_style_name(barline_type_text(t)) }],
        ItemView::Breathmark => seq![StaffElementView::Breathe],
        ItemView::SlurStart => seq![StaffElementView::SlurStart],
        ItemView::SlurEnd => seq![StaffElementView::SlurEnd],
        ItemView::Beat(_) => Seq::empty(),
    }
}

/// The staff elements of the items that are not beats, in order.
pub open spec fn other_items(items: Seq<ItemView>) -> Seq<StaffElementView>
    decreases items.len(),
{
    if items.len() == 0 { Seq::empty() } else { other_items(items.drop_last()) + other_item_view(items.last()) }
}

/// The staff elements of the first `k` beats; a beat's last note is tied when
/// the next beat continues it.
pub open spec fn beat_blocks(beats: Seq<BeatView>, tonic: Seq<char>, k: int) -> Seq<StaffElementView>
    decreases k,
{
    if k <= 0 {
        Seq::empty()
    } else {
        beat_blocks(beats, tonic, k - 1)
            + beat_block(beats[k - 1], tonic, k < beats.len() && beats[k].tied_to_previous)
    }
}

/// The staff elements of the items: all beats first, then the bar lines,
/// breath marks and slur marks.
pub open spec fn staff_notes(items: Seq<ItemView>, tonic: Seq<char>) -> Seq<StaffElementView> {
    beat_blocks(beats_of(items), tonic, beats_of(items).len() as int) + other_items(items)
}

/// The beat of an item (meaningful for beat items).
pub open spec fn beat_at(items: Seq<Item>, j: int) -> BeatView {
    match items[j] {
        Item::Beat(b) => b@,
        _ => arbitrary(),
    }
}

/// The staff stave for the state machine's items: every beat's elements (see
/// `beat_block`), then the bar lines, breath marks and slur marks, in one
/// stave in the given key (no key is C major).
pub fn convert_elements_to_staff_notation(elements: &Vec<Item>, transpose_key: Option<&String>)
    -> (r: Result<Vec<StaffNotationStave>, String>)
    requires
        forall|i: int| 0 <= i < elements@.len() ==> (#[trigger] elements@[i]@ matches ItemView::Beat(b) ==> beat_renderable(b)),
    ensures
        r matches Ok(staves) && staves@.len() == 1
            && opt_string_view(staves@[0].key_signature) == (match transpose_key { Some(k) => Some(k@), None => None })
            && stave_view(staves@[0].notes@) == staff_notes(items_view(elements@), tonic_for(transpose_key)),
{
    let ghost items = items_view(elements@);
    let transposer = KeyTransposer::new(transpose_key);
    let ghost tonic = transposer.tonic_note@;
    let key_copy: Option<String> = match transpose_key { Some(k) => Some(k.clone()), None => None };
    let mut current_stave = StaffNotationStave { notes: Vec::new(), key_signature: key_copy };

    let beats = beat_indices(elements);
    let ghost all_beats = beats_of(items);
    let mut k: usize = 0;
    proof {
        assert(stave_view(current_stave.notes@) =~= Seq::<StaffElementView>::empty());
    }
    while k < beats.len()
        invariant
            items == items_view(elements@),
            all_beats == beats_of(items),
            tonic == transposer.tonic_note@,
            all_beats.len() == beats@.len(),
            forall|m: int| 0 <= m < beats@.len() ==> #[trigger] beats@[m] < elements@.len()
                && elements@[beats@[m] as int] is Beat
                && all_beats[m] == beat_at(elements@, beats@[m] as int),
            forall|m: int| 0 <= m < elements@.len() ==> (#[trigger] elements@[m]@ matches ItemView::Beat(b) ==> beat_renderable(b)),
            k <= beats@.len(),
            stave_view(current_stave.notes@) == beat_blocks(all_beats, tonic, k as int),
            opt_string_view(current_stave.key_signature) == (match transpose_key { Some(kk) => Some(kk@), None => None }),
        decreases beats@.len() - k,
    {
        let next_beat_tied = if k + 1 < beats.len() {
            match &elements[beats[k + 1]] {
                Item::Beat(next) => next.tied_to_previous,
                _ => false,
            }
        } else {
            false
        };
        match &elements[beats[k]] {
            Item::Beat(beat) => {
                proof {
                    assert(elements@[beats@[k as int] as int]@ == ItemView::Beat(beat@));
                    assert(all_beats[k as int] == beat@);
                }
                match process_beat_v2(beat, &mut current_stave, &transposer, next_beat_tied) {
                    Ok(()) => {},
                    Err(e) => { return Err(e); },
                }
            },
            _ => {},
        }
        k = k + 1;
    }
    let mut j: usize = 0;
    let ghost head = stave_view(current_stave.notes@);
    proof {
        assert(items.take(0) =~= Seq::<ItemView>::empty());
        assert(head + other_items(items.take(0)) =~= head);
    }
    while j < elements.len()
        invariant
            items == items_view(elements@),
            j <= elements@.len(),
            stave_view(current_stave.notes@) == head + other_items(items.take(j as int)),
            opt_string_view(current_stave.key_signature) == (match transpose_key { Some(kk) => Some(kk@), None => None }),
        decreases elements@.len() - j,
    {
        proof {
            assert(items.take(j + 1).drop_last() =~= items.take(j as int));
            assert(items.take(j + 1).last() == elements@[j as int]@);
        }
        let ghost prev = current_stave.notes@;
        match &elements[j] {
            Item::Beat(_) => {},
            Item::Barline(style, _) => {
                let text = barline_type_to_text(*style);
                current_stave.notes.push(StaffNotationElement::BarLine { bar_type: map_barline_style(text) });
            },
            Item::Breathmark => { current_stave.notes.push(StaffNotationElement::Breathe); },
            Item::SlurStart => { current_stave.notes.push(StaffNotationElement::SlurStart); },
            Item::SlurEnd => { current_stave.notes.push(StaffNotationElement::SlurEnd); },
        }
        proof {
            assert(stave_view(current_stave.notes@) =~= stave_view(prev) + other_item_view(elements@[j as int]@));
        }
        j = j + 1;
    }
    proof {
        assert(items.take(j as int) =~= items);
    }
    let mut staves: Vec<StaffNotationStave> = Vec::new();
    if current_stave.notes.len() > 0 {
        staves.push(current_stave);
    } else {
        let key_again: Option<String> = match transpose_key { Some(kk) => Some(kk.clone()), None => None };
        let empty = StaffNotationStave { notes: Vec::new(), key_signature: key_again };
        proof {
            assert(stave_view(empty.notes@) =~= stave_view(current_stave.notes@));
        }
        staves.push(empty);
    }
    Ok(staves)
}


/// VexFlow duration name of a displayed duration; unknown ones are quarters.
pub open spec fn js_duration(t: Seq<char>) -> Seq<char> {
    if t == "1/4"@ { "q"@ } else if t == "1/8"@ { "8"@ } else if t == "1/16"@ { "16"@ }
    else if t == "1/2"@ { "h"@ } else if t == "1/1"@ { "w"@ } else { "q"@ }
}

/// Key (in the scale of `tonic`, middle octave) and VexFlow duration of each
/// note among a beat's elements.
pub open spec fn beat_js_notes(els: Seq<BeatElementView>, tonic: Seq<char>) -> Seq<(Seq<char>, Seq<char>)>
    decreases els.len(),
{
    if els.len() == 0 {
        Seq::empty()
    } else {
        beat_js_notes(els.drop_last(), tonic) + match els.last().element {
            ParsedElementView::Note { degree, .. } =>
                seq![(staff_key(tonic, degree, 0), js_duration(fraction_text(els.last().tuplet_duration)))],
            _ => Seq::empty(),
        }
    }
}

/// The notes of the first `k` beats, in order.
pub open spec fn js_notes(beats: Seq<BeatView>, tonic: Seq<char>, k: int) -> Seq<(Seq<char>, Seq<char>)>
    decreases k,
{
    if k <= 0 { Seq::empty() } else { js_notes(beats, tonic, k - 1) + beat_js_notes(beats[k - 1].elements, tonic) }
}

/// Ties of the first `k` beats: a beat after the first that continues the
/// previous one and has notes ties the previous note to its first note.
pub open spec fn js_ties(beats: Seq<BeatView>, tonic: Seq<char>, k: int) -> Seq<(nat, nat)>
    decreases k,
{
    if k <= 0 {
        Seq::empty()
    } else {
        let prev = js_ties(beats, tonic, k - 1);
        let start = js_notes(beats, tonic, k - 1).len();
        let end = js_notes(beats, tonic, k).len();
        if k - 1 > 0 && beats[k - 1].tied_to_previous && start < end {
            prev.push(((start - 1) as nat, start))
        } else {
            prev
        }
    }
}

/// A beat after the first that continues the previous one comes after some note.
pub open spec fn js_tie_safe(beats: Seq<BeatView>, tonic: Seq<char>) -> bool {
    forall|i: int| 0 < i < beats.len() && #[trigger] beats[i].tied_to_previous ==> js_notes(beats, tonic, i).len() > 0
}

/// Scanning the notes for runs of eighths: the finished groups of at least two
/// and the run in progress after the first `k` notes.
pub open spec fn beam_scan(notes: Seq<(Seq<char>, Seq<char>)>, k: int) -> (Seq<Seq<nat>>, Seq<nat>)
    decreases k,
{
    if k <= 0 {
        (Seq::empty(), Seq::empty())
    } else {
        let prev = beam_scan(notes, k - 1);
        if notes[k - 1].1 == "8"@ {
            (prev.0, prev.1.push((k - 1) as nat))
        } else {
            (if prev.1.len() >= 2 { prev.0.push(prev.1) } else { prev.0 }, Seq::empty())
        }
    }
}

/// The beam groups: maximal runs of at least two eighth notes, in order.
pub open spec fn beam_groups(notes: Seq<(Seq<char>, Seq<char>)>) -> Seq<Seq<nat>> {
    let s = beam_scan(notes, notes.len() as int);
    if s.1.len() >= 2 { s.0.push(s.1) } else { s.0 }
}

/// `note<n>`.
pub open spec fn note_ref(n: nat) -> Seq<char> {
    "note"@ + nat_digits(n)
}

/// References to the given notes, separated by `, `.
pub open spec fn join_refs(g: Seq<nat>) -> Seq<char>
    decreases g.len(),
{
    if g.len() == 0 { Seq::empty() }
    else if g.len() == 1 { note_ref(g[0]) }
    else { join_refs(g.drop_last()) + ", "@ + note_ref(g.last()) }
}

/// The note lines of the first `k` notes.
pub open spec fn notes_js(notes: Seq<(Seq<char>, Seq<char>)>, k: int) -> Seq<char>
    decreases k,
{
    if k <= 0 {
        Seq::empty()
    } else {
        notes_js(notes, k - 1) + "const note"@ + nat_digits((k - 1) as nat) + " = new VF.StaveNote({keys: ['"@
            + notes[k - 1].0 + "'], duration: '"@ + notes[k - 1].1 + "'});\n"@
    }
}

/// The beam lines of the first `k` groups.
pub open spec fn beams_js(groups: Seq<Seq<nat>>, k: int) -> Seq<char>
    decreases k,
{
    if k <= 0 {
        Seq::empty()
    } else {
        beams_js(groups, k - 1) + "const beam"@ + nat_digits((k - 1) as nat) + " = new VF.Beam(["@
            + join_refs(groups[k - 1]) + "]);\n"@
    }
}

/// The tie lines of the first `k` ties.
pub open spec fn ties_js(ties: Seq<(nat, nat)>, k: int) -> Seq<char>
    decreases k,
{
    if k <= 0 {
        Seq::empty()
    } else {
        ties_js(ties, k - 1) + "const tie"@ + nat_digits((k - 1) as nat) + " = new VF.StaveTie({first_note: note"@
            + nat_digits(ties[k - 1].0) + ", last_note: note"@ + nat_digits(ties[k - 1].1)
            + ", first_indices: [0], last_indices: [0]});\n"@
    }
}

/// References to the first `n` notes, separated by `, `.
pub open spec fn all_refs(n: nat) -> Seq<char>
    decreases n,
{
    if n == 0 { Seq::empty() } else if n == 1 { note_ref(0) } else { all_refs((n - 1) as nat) + ", "@ + note_ref((n - 1) as nat) }
}

/// Draw lines for the first `k` objects named `kind<i>`.
pub open spec fn draw_lines(kind: Seq<char>, k: int) -> Seq<char>
    decreases k,
{
    if k <= 0 {
        Seq::empty()
    } else {
        draw_lines(kind, k - 1) + "if (typeof "@ + kind + nat_digits((k - 1) as nat) + " !== 'undefined') "@
            + kind + nat_digits((k - 1) as nat) + ".setContext(ctx).draw();\n"@
    }
}

/// Opening lines of the script.
pub open spec fn js_header() -> Seq<char> {
    "// Clear canvas\n"@ + "canvas.innerHTML = '';\n"@ + "canvas.classList.add('has-content');\n\n"@
        + "// Initialize VexFlow\n"@ + "const renderer = new VF.Renderer(canvas, VF.Renderer.Backends.SVG);\n"@
        + "renderer.resize(800, 200);\n"@ + "const ctx = renderer.getContext();\n\n"@ + "// Create stave\n"@
}

/// Width of the stave for `n` notes.
pub open spec fn stave_width(n: nat) -> nat {
    250 + if n * 35 > 200 { n * 35 } else { 200 }
}

/// The VexFlow script drawing the items' beats on one treble stave: the
/// notes, the beams over runs of eighths and the ties between beats.
pub open spec fn vexflow_js(items: Seq<ItemView>, tonic: Seq<char>) -> Seq<char> {
    let beats = beats_of(items);
    let notes = js_notes(beats, tonic, beats.len() as int);
    let groups = beam_groups(notes);
    let ties = js_ties(beats, tonic, beats.len() as int);
    js_header()
        + "const stave = new VF.Stave(10, 40, "@ + nat_digits(stave_width(notes.len())) + ");\n"@
        + "stave.addClef('treble').setContext(ctx).draw();\n\n"@
        + "// Create notes\n"@ + notes_js(notes, notes.len() as int)
        + "\n// Create beams\n"@ + beams_js(groups, groups.len() as int)
        + "\n// Create ties\n"@ + ties_js(ties, ties.len() as int)
        + "\n// Collect all notes for formatting\n"@ + "const allNotes = ["@ + all_refs(notes.len()) + "];\n"@
        + "\n// Format and draw\n"@ + "if (allNotes.length > 0) {\n"@ + "  VF.Formatter.FormatAndDraw(ctx, stave, allNotes);\n"@
        + "}\n\n"@
        + draw_lines("beam"@, groups.len() as int) + draw_lines("tie"@, ties.len() as int)
}


/// Indices of the beat items, in order.
fn beat_indices(elements: &Vec<Item>) -> (r: Vec<usize>)
    ensures
        r@.len() == beats_of(items_view(elements@)).len(),
        forall|k: int| 0 <= k < r@.len() ==> #[trigger] r@[k] < elements@.len()
            && elements@[r@[k] as int] is Beat
            && beats_of(items_view(elements@))[k] == beat_at(elements@, r@[k] as int),
{
    let ghost items = items_view(elements@);
    let mut beats: Vec<usize> = Vec::new();
    let mut i: usize = 0;
    proof {
        assert(items.take(0) =~= Seq::<ItemView>::empty());
    }
    while i < elements.len()
        invariant
            items == items_view(elements@),
            i <= elements@.len(),
            beats_of(items.take(i as int)).len() == beats@.len(),
            forall|k: int| 0 <= k < beats@.len() ==> #[trigger] beats@[k] < i
                && elements@[beats@[k] as int] is Beat
                && beats_of(items.take(i as int))[k] == beat_at(elements@, beats@[k] as int),
        decreases elements@.len() - i,
    {
        proof {
            assert(items.take(i + 1).drop_last() =~= items.take(i as int));
            assert(items.take(i + 1).last() == elements@[i as int]@);
        }
        let is_beat = match &elements[i] { Item::Beat(_) => true, _ => false };
        if is_beat {
            beats.push(i);
        }
        i = i + 1;
    }
    proof {
        assert(items.take(i as int) =~= items);
    }
    beats
}

/// Views of (key, duration) pairs.
pub open spec fn pair_views(v: Seq<(String, String)>) -> Seq<(Seq<char>, Seq<char>)> {
    v.map_values(|p: (String, String)| (p.0@, p.1@))
}

/// Views of index pairs.
pub open spec fn index_pairs(v: Seq<(usize, usize)>) -> Seq<(nat, nat)> {
    v.map_values(|p: (usize, usize)| (p.0 as nat, p.1 as nat))
}

/// Views of index lists.
pub open spec fn index_list(v: Seq<usize>) -> Seq<nat> {
    v.map_values(|x: usize| x as nat)
}

/// Views of lists of index lists.
pub open spec fn index_lists(v: Seq<Vec<usize>>) -> Seq<Seq<nat>> {
    v.map_values(|g: Vec<usize>| index_list(g@))
}

fn js_duration_of(t: &str) -> (r: &'static str)
    ensures
        r@ == js_duration(t@),
{
    if str_eq(t, "1/4") { "q" } else if str_eq(t, "1/8") { "8" } else if str_eq(t, "1/16") { "16" }
    else if str_eq(t, "1/2") { "h" } else if str_eq(t, "1/1") { "w" } else { "q" }
}

proof fn lemma_js_notes_mono(beats: Seq<BeatView>, tonic: Seq<char>, k: int, m: int)
    requires
        0 <= k <= m,
    ensures
        js_notes(beats, tonic, k).len() <= js_notes(beats, tonic, m).len(),
    decreases m - k,
{
    if k < m {
        lemma_js_notes_mono(beats, tonic, k, m - 1);
    }
}

proof fn lemma_beat_js_notes_push(els: Seq<BeatElementView>, x: BeatElementView, tonic: Seq<char>)
    ensures
        beat_js_notes(els.push(x), tonic) == beat_js_notes(els, tonic) + match x.element {
            ParsedElementView::Note { degree, .. } =>
                seq![(staff_key(tonic, degree, 0), js_duration(fraction_text(x.tuplet_duration)))],
            _ => Seq::<(Seq<char>, Seq<char>)>::empty(),
        },
{
    assert(els.push(x).drop_last() =~= els);
}

/// The notes and ties of all beats.
fn collect_js_notes(elements: &Vec<Item>, beats: &Vec<usize>, transposer: &KeyTransposer)
    -> (r: (Vec<(String, String)>, Vec<(usize, usize)>))
    requires
        beats@.len() == beats_of(items_view(elements@)).len(),
        forall|k: int| 0 <= k < beats@.len() ==> #[trigger] beats@[k] < elements@.len()
            && elements@[beats@[k] as int] is Beat
            && beats_of(items_view(elements@))[k] == beat_at(elements@, beats@[k] as int),
        js_tie_safe(beats_of(items_view(elements@)), transposer.tonic_note@),
        js_notes(beats_of(items_view(elements@)), transposer.tonic_note@, beats@.len() as int).len() < usize::MAX,
    ensures
        pair_views(r.0@) == js_notes(beats_of(items_view(elements@)), transposer.tonic_note@, beats@.len() as int),
        index_pairs(r.1@) == js_ties(beats_of(items_view(elements@)), transposer.tonic_note@, beats@.len() as int),
{
    let ghost bs = beats_of(items_view(elements@));
    let ghost tonic = transposer.tonic_note@;
    let ghost total = js_notes(bs, tonic, bs.len() as int).len();
    let mut notes: Vec<(String, String)> = Vec::new();
    let mut ties: Vec<(usize, usize)> = Vec::new();
    let mut k: usize = 0;
    proof {
        assert(pair_views(notes@) =~= Seq::<(Seq<char>, Seq<char>)>::empty());
        assert(index_pairs(ties@) =~= Seq::<(nat, nat)>::empty());
    }
    while k < beats.len()
        invariant
            bs == beats_of(items_view(elements@)),
            tonic == transposer.tonic_note@,
            total == js_notes(bs, tonic, bs.len() as int).len(),
            total < usize::MAX,
            beats@.len() == bs.len(),
            forall|m: int| 0 <= m < beats@.len() ==> #[trigger] beats@[m] < elements@.len()
                && elements@[beats@[m] as int] is Beat
                && bs[m] == beat_at(elements@, beats@[m] as int),
            js_tie_safe(bs, tonic),
            k <= beats@.len(),
            pair_views(notes@) == js_notes(bs, tonic, k as int),
            index_pairs(ties@) == js_ties(bs, tonic, k as int),
        decreases beats@.len() - k,
    {
        let beat_start_note = notes.len();
        proof {
            lemma_js_notes_mono(bs, tonic, k + 1, bs.len() as int);
            assert(js_notes(bs, tonic, k + 1) == js_notes(bs, tonic, k as int) + beat_js_notes(bs[k as int].elements, tonic));
        }
        match &elements[beats[k]] {
            Item::Beat(beat) => {
                let ghost els = beat@.elements;
                proof {
                    assert(elements@[beats@[k as int] as int]@ == ItemView::Beat(beat@));
                    assert(bs[k as int] == beat@);
                    assert(els.take(0) =~= Seq::<BeatElementView>::empty());
                    assert(js_notes(bs, tonic, k as int) + beat_js_notes(els.take(0), tonic) =~= js_notes(bs, tonic, k as int));
                }
                let mut e: usize = 0;
                while e < beat.elements.len()
                    invariant
                        els == beat@.elements,
                        tonic == transposer.tonic_note@,
                        e <= els.len(),
                        pair_views(notes@) == js_notes(bs, tonic, k as int) + beat_js_notes(els.take(e as int), tonic),
                        js_notes(bs, tonic, k as int) + beat_js_notes(els, tonic) == js_notes(bs, tonic, k + 1),
                        js_notes(bs, tonic, k + 1).len() <= total,
                        total < usize::MAX,
                    decreases els.len() - e,
                {
                    let be = &beat.elements[e];
                    proof {
                        assert(els[e as int] == be@);
                        assert(els.take(e + 1) =~= els.take(e as int).push(be@));
                        lemma_beat_js_notes_push(els.take(e as int), be@, tonic);
                        lemma_beat_js_notes_len_mono(els, e as int + 1, tonic);
                    }
                    match &be.element {
                        ParsedElement::Note { degree, .. } => {
                            let (key, _) = transposer.transpose_pitch(*degree, 0);
                            let text = fraction_to_text(be.tuplet_duration);
                            let dur = js_duration_of(text.as_str());
                            let ghost prev = notes@;
                            notes.push((key, dur.to_owned()));
                            proof {
                                assert(pair_views(notes@) =~= pair_views(prev).push((staff_key(tonic, *degree, 0), js_duration(fraction_text(be.tuplet_duration)))));
                            }
                        },
                        _ => {},
                    }
                    e = e + 1;
                }
                proof {
                    assert(els.take(e as int) =~= els);
                }
                if beat.tied_to_previous && k > 0 {
                    proof {
                        assert(bs[k as int].tied_to_previous);
                    }
                    let current_beat_first_note = beat_start_note;
                    let previous_beat_last_note = beat_start_note - 1;
                    if current_beat_first_note < notes.len() {
                        let ghost prev_ties = ties@;
                        ties.push((previous_beat_last_note, current_beat_first_note));
                        proof {
                            assert(index_pairs(ties@) =~= index_pairs(prev_ties).push(((beat_start_note - 1) as nat, beat_start_note as nat)));
                        }
                    }
                }
            },
            _ => {},
        }
        k = k + 1;
    }
    (notes, ties)
}

proof fn lemma_beat_js_notes_len_mono(els: Seq<BeatElementView>, e: int, tonic: Seq<char>)
    requires
        0 <= e <= els.len(),
    ensures
        beat_js_notes(els.take(e), tonic).len() <= beat_js_notes(els, tonic).len(),
    decreases els.len() - e,
{
    if e < els.len() {
        lemma_beat_js_notes_len_mono(els, e + 1, tonic);
        assert(els.take(e + 1).drop_last() =~= els.take(e));
    } else {
        assert(els.take(e) =~= els);
    }
}


/// The beam groups of the notes (see `beam_groups`).
fn beam_groups_of(notes: &Vec<(String, String)>) -> (r: Vec<Vec<usize>>)
    ensures
        index_lists(r@) == beam_groups(pair_views(notes@)),
{
    let ghost nv = pair_views(notes@);
    let mut groups: Vec<Vec<usize>> = Vec::new();
    let mut current: Vec<usize> = Vec::new();
    let mut i: usize = 0;
    proof {
        assert(index_lists(groups@) =~= Seq::<Seq<nat>>::empty());
        assert(index_list(current@) =~= Seq::<nat>::empty());
    }
    while i < notes.len()
        invariant
            nv == pair_views(notes@),
            i <= notes@.len(),
            index_lists(groups@) == beam_scan(nv, i as int).0,
            index_list(current@) == beam_scan(nv, i as int).1,
        decreases notes@.len() - i,
    {
        let ghost prev_groups = groups@;
        let ghost prev_current = current@;
        proof {
            assert(nv[i as int].1 == notes@[i as int].1@);
        }
        if str_eq(notes[i].1.as_str(), "8") {
            current.push(i);
            proof {
                assert(index_list(current@) =~= index_list(prev_current).push(i as nat));
            }
        } else {
            if current.len() >= 2 {
                let finished = current;
                groups.push(finished);
                proof {
                    assert(index_lists(groups@) =~= index_lists(prev_groups).push(index_list(prev_current)));
                }
            }
            current = Vec::new();
            proof {
                assert(index_list(current@) =~= Seq::<nat>::empty());
            }
        }
        i = i + 1;
    }
    if current.len() >= 2 {
        let ghost prev_groups = groups@;
        let ghost cur = current@;
        groups.push(current);
        proof {
            assert(index_lists(groups@) =~= index_lists(prev_groups).push(index_list(cur)));
        }
    }
    groups
}

/// Appends the decimal digits of a number.
pub(crate) fn append_digits(s: &mut String, n: usize)
    ensures
        final(s)@ == old(s)@ + nat_digits(n as nat),
{
    let d = u64_to_string(n as u64);
    s.append(d.as_str());
}

/// Appends `note<n>`.
pub(crate) fn append_note_ref(s: &mut String, n: usize)
    ensures
        final(s)@ == old(s)@ + note_ref(n as nat),
{
    s.append("note");
    append_digits(s, n);
    proof {
        assert(final(s)@ =~= old(s)@ + note_ref(n as nat));
    }
}

fn notes_js_of(notes: &Vec<(String, String)>) -> (r: String)
    ensures
        r@ == notes_js(pair_views(notes@), notes@.len() as int),
{
    let ghost nv = pair_views(notes@);
    let mut r = String::new();
    let mut i: usize = 0;
    while i < notes.len()
        invariant
            nv == pair_views(notes@),
            i <= notes@.len(),
            r@ == notes_js(nv, i as int),
        decreases notes@.len() - i,
    {
        let ghost prev = r@;
        r.append("const note");
        append_digits(&mut r, i);
        r.append(" = new VF.StaveNote({keys: ['");
        r.append(notes[i].0.as_str());
        r.append("'], duration: '");
        r.append(notes[i].1.as_str());
        r.append("'});\n");
        proof {
            assert(nv[i as int] == (notes@[i as int].0@, notes@[i as int].1@));
            assert(r@ =~= notes_js(nv, i as int + 1));
        }
        i = i + 1;
    }
    r
}

pub(crate) fn join_refs_of(g: &Vec<usize>) -> (r: String)
    ensures
        r@ == join_refs(index_list(g@)),
{
    let ghost gv = index_list(g@);
    let mut r = String::new();
    let mut i: usize = 0;
    proof {
        assert(gv.take(0) =~= Seq::<nat>::empty());
    }
    while i < g.len()
        invariant
            gv == index_list(g@),
            i <= g@.len(),
            r@ == join_refs(gv.take(i as int)),
        decreases g@.len() - i,
    {
        let ghost prev = r@;
        if i > 0 {
            r.append(", ");
        }
        append_note_ref(&mut r, g[i]);
        proof {
            let t = gv.take(i + 1);
            assert(t.drop_last() =~= gv.take(i as int));
            assert(t.last() == g@[i as int] as nat);
            if i == 0 {
                assert(r@ =~= note_ref(t[0]));
            } else {
                assert(r@ =~= join_refs(gv.take(i as int)) + ", "@ + note_ref(t.last()));
            }
        }
        i = i + 1;
    }
    proof {
        assert(gv.take(i as int) =~= gv);
    }
    r
}

fn beams_js_of(groups: &Vec<Vec<usize>>) -> (r: String)
    ensures
        r@ == beams_js(index_lists(groups@), groups@.len() as int),
{
    let ghost gv = index_lists(groups@);
    let mut r = String::new();
    let mut i: usize = 0;
    while i < groups.len()
        invariant
            gv == index_lists(groups@),
            i <= groups@.len(),
            r@ == beams_js(gv, i as int),
        decreases groups@.len() - i,
    {
        r.append("const beam");
        append_digits(&mut r, i);
        r.append(" = new VF.Beam([");
        let refs = join_refs_of(&groups[i]);
        r.append(refs.as_str());
        r.append("]);\n");
        proof {
            assert(gv[i as int] == index_list(groups@[i as int]@));
            assert(r@ =~= beams_js(gv, i as int + 1));
        }
        i = i + 1;
    }
    r
}

fn ties_js_of(ties: &Vec<(usize, usize)>) -> (r: String)
    ensures
        r@ == ties_js(index_pairs(ties@), ties@.len() as int),
{
    let ghost tv = index_pairs(ties@);
    let mut r = String::new();
    let mut i: usize = 0;
    while i < ties.len()
        invariant
            tv == index_pairs(ties@),
            i <= ties@.len(),
            r@ == ties_js(tv, i as int),
        decreases ties@.len() - i,
    {
        let (from_note, to_note) = ties[i];
        r.append("const tie");
        append_digits(&mut r, i);
        r.append(" = new VF.StaveTie({first_note: note");
        append_digits(&mut r, from_note);
        r.append(", last_note: note");
        append_digits(&mut r, to_note);
        r.append(", first_indices: [0], last_indices: [0]});\n");
        proof {
            assert(tv[i as int] == (from_note as nat, to_note as nat));
            assert(r@ =~= ties_js(tv, i as int + 1));
        }
        i = i + 1;
    }
    r
}

fn all_refs_of(n: usize) -> (r: String)
    ensures
        r@ == all_refs(n as nat),
{
    let mut r = String::new();
    let mut i: usize = 0;
    while i < n
        invariant
            i <= n,
            r@ == all_refs(i as nat),
        decreases n - i,
    {
        if i > 0 {
            r.append(", ");
        }
        append_note_ref(&mut r, i);
        proof {
            if i == 0 {
                assert(r@ =~= all_refs(1));
            } else {
                assert(r@ =~= all_refs(i as nat) + ", "@ + note_ref(i as nat));
            }
        }
        i = i + 1;
    }
    r
}

fn draw_lines_of(kind: &str, k: usize) -> (r: String)
    ensures
        r@ == draw_lines(kind@, k as int),
{
    let mut r = String::new();
    let mut i: usize = 0;
    while i < k
        invariant
            i <= k,
            r@ == draw_lines(kind@, i as int),
        decreases k - i,
    {
        r.append("if (typeof ");
        r.append(kind);
        append_digits(&mut r, i);
        r.append(" !== 'undefined') ");
        r.append(kind);
        append_digits(&mut r, i);
        r.append(".setContext(ctx).draw();\n");
        proof {
            assert(r@ =~= draw_lines(kind@, i as int + 1));
        }
        i = i + 1;
    }
    r
}

/// How many notes a beat gives does not depend on the key.
proof fn lemma_beat_js_notes_len(els: Seq<BeatElementView>, t1: Seq<char>, t2: Seq<char>)
    ensures
        beat_js_notes(els, t1).len() == beat_js_notes(els, t2).len(),
    decreases els.len(),
{
    if els.len() > 0 {
        lemma_beat_js_notes_len(els.drop_last(), t1, t2);
    }
}

/// How many notes the first `k` beats give does not depend on the key.
pub proof fn lemma_js_notes_len(beats: Seq<BeatView>, t1: Seq<char>, t2: Seq<char>, k: int)
    ensures
        js_notes(beats, t1, k).len() == js_notes(beats, t2, k).len(),
    decreases k,
{
    if k > 0 {
        lemma_js_notes_len(beats, t1, t2, k - 1);
        lemma_beat_js_notes_len(beats[k - 1].elements, t1, t2);
    }
}

/// The VexFlow script for the items' beats on one treble stave in the given
/// key (see `vexflow_js`).  The conditions on the notes are stated in C: how
/// many notes come before each beat does not depend on the key.
pub fn convert_elements_to_vexflow_js(elements: &Vec<Item>, transpose_key: Option<&String>) -> (r: Result<String, String>)
    requires
        js_tie_safe(beats_of(items_view(elements@)), "c"@),
        js_notes(beats_of(items_view(elements@)), "c"@,
            beats_of(items_view(elements@)).len() as int).len() <= usize::MAX / 64,
    ensures
        r matches Ok(js) && js@ == vexflow_js(items_view(elements@), tonic_for(transpose_key)),
{
    proof {
        let beats = beats_of(items_view(elements@));
        let t = tonic_for(transpose_key);
        lemma_js_notes_len(beats, "c"@, t, beats.len() as int);
        assert forall|i: int| 0 < i < beats.len() && #[trigger] beats[i].tied_to_previous implies js_notes(beats, t, i).len() > 0 by {
            lemma_js_notes_len(beats, "c"@, t, i);
        }
    }
    let transposer = KeyTransposer::new(transpose_key);
    let mut js_code = String::new();
    js_code.append("// Clear canvas\n");
    js_code.append("canvas.innerHTML = '';\n");
    js_code.append("canvas.classList.add('has-content');\n\n");
    js_code.append("// Initialize VexFlow\n");
    js_code.append("const renderer = new VF.Renderer(canvas, VF.Renderer.Backends.SVG);\n");
    js_code.append("renderer.resize(800, 200);\n");
    js_code.append("const ctx = renderer.getContext();\n\n");
    js_code.append("// Create stave\n");
    proof {
        assert(js_code@ =~= js_header());
    }

    let beats = beat_indices(elements);
    let (notes, ties) = collect_js_notes(elements, &beats, &transposer);
    let beam_groups = beam_groups_of(&notes);
    let note_count = notes.len();
    let notes_js = notes_js_of(&notes);
    let beams_js = beams_js_of(&beam_groups);
    let ties_js = ties_js_of(&ties);

    let scaled = note_count * 35;
    let width = 250 + if scaled > 200 { scaled } else { 200 };
    js_code.append("const stave = new VF.Stave(10, 40, ");
    append_digits(&mut js_code, width);
    js_code.append(");\n");
    js_code.append("stave.addClef('treble').setContext(ctx).draw();\n\n");

    js_code.append("// Create notes\n");
    js_code.append(notes_js.as_str());
    js_code.append("\n// Create beams\n");
    js_code.append(beams_js.as_str());
    js_code.append("\n// Create ties\n");
    js_code.append(ties_js.as_str());

    js_code.append("\n// Collect all notes for formatting\n");
    js_code.append("const allNotes = [");
    let refs = all_refs_of(note_count);
    js_code.append(refs.as_str());
    js_code.append("];\n");

    js_code.append("\n// Format and draw\n");
    js_code.append("if (allNotes.length > 0) {\n");
    js_code.append("  VF.Formatter.FormatAndDraw(ctx, stave, allNotes);\n");
    js_code.append("}\n\n");

    let beam_draws = draw_lines_of("beam", beam_groups.len());
    js_code.append(beam_draws.as_str());
    let tie_draws = draw_lines_of("tie", ties.len());
    js_code.append(tie_draws.as_str());
    proof {
        let nv = pair_views(notes@);
        assert(nv.len() == note_count);
        assert(index_lists(beam_groups@).len() == beam_groups@.len());
        assert(index_pairs(ties@).len() == ties@.len());
        assert(width as nat == stave_width(nv.len()));
        assert(js_code@ =~= vexflow_js(items_view(elements@), tonic_for(transpose_key)));
    }
    Ok(js_code)
}

} // verus!

verus! {

/// Position of a note letter in C D E F G A B, or -1 for another character.
pub open spec fn letter_index(c: char) -> int {
    if c == 'c' { 0 } else if c == 'd' { 1 } else if c == 'e' { 2 } else if c == 'f' { 3 }
    else if c == 'g' { 4 } else if c == 'a' { 5 } else if c == 'b' { 6 } else { -1 }
}

/// Semitones of a natural note letter above C.
pub open spec fn letter_semitone(c: char) -> int {
    if c == 'c' { 0 } else if c == 'd' { 2 } else if c == 'e' { 4 } else if c == 'f' { 5 }
    else if c == 'g' { 7 } else if c == 'a' { 9 } else { 11 }
}

/// Whether a text names a note: a letter, optionally followed by `s` (sharp) or `b` (flat).
pub open spec fn note_name_ok(n: Seq<char>) -> bool {
    &&& 1 <= n.len() <= 2
    &&& letter_index(n[0]) >= 0
    &&& n.len() == 2 ==> (n[1] == 's' || n[1] == 'b')
}

/// Semitones of a note name above C (a sharp raises, a flat lowers by one).
pub open spec fn name_semitone(n: Seq<char>) -> int {
    letter_semitone(n[0]) + if n.len() == 2 { if n[1] == 's' { 1int } else { -1int } } else { 0int }
}

/// Semitones of the degrees of a major scale above its tonic.
pub open spec fn major_semitones(i: int) -> int {
    if i == 0 { 0 } else if i == 1 { 2 } else if i == 2 { 4 } else if i == 3 { 5 }
    else if i == 4 { 7 } else if i == 5 { 9 } else { 11 }
}

/// Whether seven note names form a major scale on the first: degree `i`
/// carries the letter `i` steps above the tonic's and lies
/// `major_semitones(i)` semitones above it, up to octaves.
pub open spec fn is_major_scale(sc: Seq<Seq<char>>) -> bool {
    &&& sc.len() == 7
    &&& forall|i: int| 0 <= i < 7 ==> #[trigger] note_name_ok(sc[i])
    &&& forall|i: int| 0 <= i < 7 ==>
            #[trigger] letter_index(sc[i][0]) == (letter_index(sc[0][0]) + i) % 7
    &&& forall|i: int| 0 <= i < 7 ==>
            (#[trigger] name_semitone(sc[i]) - name_semitone(sc[0]) - major_semitones(i)) % 12 == 0
}

proof fn lemma_note_name_texts()
    ensures
        "c"@ =~= seq!['c'], "d"@ =~= seq!['d'], "e"@ =~= seq!['e'], "f"@ =~= seq!['f'],
        "g"@ =~= seq!['g'], "a"@ =~= seq!['a'], "b"@ =~= seq!['b'],
        "fs"@ =~= seq!['f', 's'], "cs"@ =~= seq!['c', 's'], "bb"@ =~= seq!['b', 'b'],
{
    reveal_strlit("c"); reveal_strlit("d"); reveal_strlit("e"); reveal_strlit("f");
    reveal_strlit("g"); reveal_strlit("a"); reveal_strlit("b");
    reveal_strlit("fs"); reveal_strlit("cs"); reveal_strlit("bb");
}

/// The scale a transposer maps degrees onto is a major scale, and for the
/// tonics C, G, D and F it is the major scale of that tonic (so F major has
/// B flat as its fourth degree).
pub proof fn lemma_scale_for_is_major(tonic: Seq<char>)
    ensures
        is_major_scale(scale_for(tonic)),
        (tonic == "c"@ || tonic == "g"@ || tonic == "d"@ || tonic == "f"@) ==> scale_for(tonic)[0] == tonic,
{
    lemma_note_name_texts();
    let sc = scale_for(tonic);
    assert forall|i: int| 0 <= i < 7 implies #[trigger] note_name_ok(sc[i])
        && letter_index(sc[i][0]) == (letter_index(sc[0][0]) + i) % 7
        && (name_semitone(sc[i]) - name_semitone(sc[0]) - major_semitones(i)) % 12 == 0 by {
        if i == 0 {} else if i == 1 {} else if i == 2 {} else if i == 3 {}
        else if i == 4 {} else if i == 5 {} else {}
    }
}


/// Whether the altered notes of a scale are exactly the notes of a key
/// signature (note index 0 = C .. 6 = B, `true` for a sharp).
pub open spec fn scale_matches_signature(sc: Seq<Seq<char>>, sig: Seq<(usize, bool)>) -> bool {
    &&& forall|i: int| 0 <= i < 7 && #[trigger] sc[i].len() == 2 ==>
            sig.contains((letter_index(sc[i][0]) as usize, sc[i][1] == 's'))
    &&& forall|j: int| #![trigger sig[j]] 0 <= j < sig.len() ==> exists|i: int| 0 <= i < 7 && #[trigger] sc[i].len() == 2
            && letter_index(sc[i][0]) == sig[j].0 as int && (sc[i][1] == 's') == sig[j].1
}

/// For a key whose tonic is C, G, D or F, the scale the transposer maps
/// degrees onto alters exactly the notes of the key signature it records.
pub proof fn lemma_scale_matches_key_signature(k: Seq<char>)
    requires
        key_tonic(k) == "c"@ || key_tonic(k) == "g"@ || key_tonic(k) == "d"@ || key_tonic(k) == "f"@,
    ensures
        scale_matches_signature(scale_for(key_tonic(k)), crate::vexflow_converter_v2::key_signature_notes(k)),
{
    lemma_note_name_texts();
    reveal_strlit("eb"); reveal_strlit("ab");
    reveal_strlit("G"); reveal_strlit("D"); reveal_strlit("A"); reveal_strlit("E");
    reveal_strlit("B"); reveal_strlit("F");
    let t = key_tonic(k);
    let sc = scale_for(t);
    let sig = crate::vexflow_converter_v2::key_signature_notes(k);
    assert(t[0] == 'c' || t[0] == 'g' || t[0] == 'd' || t[0] == 'f');
    if k == "G"@ {
        assert(t == "g"@);
        assert(sig.contains((3usize, true))) by { assert(sig[0] == (3usize, true)); }
        assert(sc[6].len() == 2 && letter_index(sc[6][0]) == 3 && sc[6][1] == 's');
    } else if k == "D"@ {
        assert(t == "d"@);
        assert("d"@ != "g"@) by { assert("d"@[0] != "g"@[0]); }
        assert(sig.contains((3usize, true))) by { assert(sig[0] == (3usize, true)); }
        assert(sig.contains((0usize, true))) by { assert(sig[1] == (0usize, true)); }
        assert(sc[2].len() == 2 && letter_index(sc[2][0]) == 3 && sc[2][1] == 's');
        assert(sc[6].len() == 2 && letter_index(sc[6][0]) == 0 && sc[6][1] == 's');
    } else if k == "A"@ || k == "E"@ || k == "B"@ {
        assert(t[0] == 'a' || t[0] == 'e' || t[0] == 'b');
    } else if k == "F"@ {
        assert(t == "f"@);
        assert("f"@ != "g"@ && "f"@ != "d"@) by { assert("f"@[0] != "g"@[0] && "f"@[0] != "d"@[0]); }
        assert(sig.contains((6usize, false))) by { assert(sig[0] == (6usize, false)); }
        assert(sc[3].len() == 2 && letter_index(sc[3][0]) == 6 && sc[3][1] != 's');
    } else if k == "BB"@ || k == "B♭"@ || k == "EB"@ || k == "E♭"@ || k == "AB"@ || k == "A♭"@ {
        assert(t[0] == 'b' || t[0] == 'e' || t[0] == 'a');
    } else {
        assert(t == "c"@);
        assert("c"@ != "g"@ && "c"@ != "d"@ && "c"@ != "f"@) by {
            assert("c"@[0] != "g"@[0] && "c"@[0] != "d"@[0] && "c"@[0] != "f"@[0]);
        }
        assert(sig.len() == 0);
    }
    assert forall|i: int| 0 <= i < 7 && #[trigger] sc[i].len() == 2 implies
        sig.contains((letter_index(sc[i][0]) as usize, sc[i][1] == 's')) by {
        if i == 0 {} else if i == 1 {} else if i == 2 {} else if i == 3 {}
        else if i == 4 {} else if i == 5 {} else {}
    }
}

} // verus!
