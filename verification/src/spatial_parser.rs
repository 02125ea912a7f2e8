use vstd::prelude::*;
use crate::text::str_eq;
use crate::models::byte_len;

verus! {

/// Octave offset of a marker in the full marker set: `.` one octave, `:` two,
/// `*` three, `'` four, anything else none; negative below the line.
pub open spec fn full_octave_marker_value(marker: Seq<char>, is_upper: bool) -> i8 {
    let base: i8 = if marker == "."@ {
        1
    } else if marker == ":"@ {
        2
    } else if marker == "*"@ {
        3
    } else if marker == "'"@ {
        4
    } else {
        0
    };
    if is_upper { base } else { (-base) as i8 }
}

/// Converts an octave marker into its numeric value based on its symbol and on
/// whether it stands above (positive) or below (negative) the line.
pub fn octave_marker_to_number(marker: &str, is_upper: bool) -> (r: i8)
    ensures
        r == full_octave_marker_value(marker@, is_upper),
{
    let base_value: i8 = if str_eq(marker, ".") {
        1
    } else if str_eq(marker, ":") {
        2
    } else if str_eq(marker, "*") {
        3
    } else if str_eq(marker, "'") {
        4
    } else {
        0
    };
    if is_upper { base_value } else { -base_value }
}

/// A marker below the line gives the negation of the same marker above it.
pub proof fn lemma_lower_marker_negates_upper(marker: Seq<char>)
    ensures
        full_octave_marker_value(marker, false) == -full_octave_marker_value(marker, true),
{
}

// ---------------------------------------------------------------------------
// Octave markers of annotation lines assigned to the notes of a stave.

/// An item of an annotation line above or below the notes.
pub enum AnnotationItem {
    UpperOctaveMarker { marker: String },
    LowerOctaveMarker { marker: String },
    Space { count: usize },
    Slur { underscores: String },
    BeatGrouping { underscores: String },
    Tala { marker: String },
    Symbol { symbol: String },
    Ending { ending: String },
    Chord { chord: String },
    Ornament { pitches: Vec<String> },
    Mordent,
    Other { value: String },
}

/// An annotation line.
pub struct AnnotationLine {
    pub items: Vec<AnnotationItem>,
}

/// An element of a beat.
pub enum AstBeatElement {
    Pitch { value: String, octave: i8 },
    Dash,
    Other { value: String },
}

/// A beat.
pub struct AstBeat {
    pub elements: Vec<AstBeatElement>,
}

/// A measure.
pub struct AstMeasure {
    pub beats: Vec<AstBeat>,
}

/// The content line of a stave.
pub struct AstContentLine {
    pub measures: Vec<AstMeasure>,
}

/// A stave: annotation lines above and below its content line.
pub struct AstStave {
    pub upper_lines: Vec<AnnotationLine>,
    pub lower_lines: Vec<AnnotationLine>,
    pub content_line: AstContentLine,
}

/// A document of staves.
pub struct AstDocument {
    pub staves: Vec<AstStave>,
}

/// Columns an annotation item takes: a space its count, slur underscores
/// (above) and beat-group underscores (below) their length, anything else one.
pub open spec fn item_width(it: AnnotationItem, upper: bool) -> nat {
    match it {
        AnnotationItem::Space { count } => count as nat,
        AnnotationItem::Slur { underscores } => if upper { byte_len(underscores@) as nat } else { 1 },
        AnnotationItem::BeatGrouping { underscores } => if upper { 1 } else { byte_len(underscores@) as nat },
        _ => 1,
    }
}

/// Column of the `k`-th item of a line.
pub open spec fn item_offset(items: Seq<AnnotationItem>, k: int, upper: bool) -> nat
    decreases k,
{
    if k <= 0 { 0 } else { item_offset(items, k - 1, upper) + item_width(items[k - 1], upper) }
}

/// The octave markers (column and octave value) among the first `n` items of
/// a line above (`upper`) or below the notes.
pub open spec fn line_octave_markers(items: Seq<AnnotationItem>, n: int, upper: bool) -> Seq<(usize, i8)>
    decreases n,
{
    if n <= 0 {
        Seq::empty()
    } else {
        let prev = line_octave_markers(items, n - 1, upper);
        match items[n - 1] {
            AnnotationItem::UpperOctaveMarker { marker } =>
                if upper { prev.push((item_offset(items, n - 1, upper) as usize, full_octave_marker_value(marker@, true))) } else { prev },
            AnnotationItem::LowerOctaveMarker { marker } =>
                if !upper { prev.push((item_offset(items, n - 1, upper) as usize, full_octave_marker_value(marker@, false))) } else { prev },
            _ => prev,
        }
    }
}

/// The octave markers of the first `n` lines.
pub open spec fn lines_octave_markers(lines: Seq<AnnotationLine>, n: int, upper: bool) -> Seq<(usize, i8)>
    decreases n,
{
    if n <= 0 {
        Seq::empty()
    } else {
        lines_octave_markers(lines, n - 1, upper) + line_octave_markers(lines[n - 1].items@, lines[n - 1].items@.len() as int, upper)
    }
}

/// Whether the columns of every line fit in `usize`.
pub open spec fn lines_fit(lines: Seq<AnnotationLine>, upper: bool) -> bool {
    forall|i: int| 0 <= i < lines.len() ==> item_offset((#[trigger] lines[i]).items@, lines[i].items@.len() as int, upper) <= usize::MAX
}

/// The octave markers of a stave: those above, then those below.
pub open spec fn stave_octave_markers(st: AstStave) -> Seq<(usize, i8)> {
    lines_octave_markers(st.upper_lines@, st.upper_lines@.len() as int, true)
        + lines_octave_markers(st.lower_lines@, st.lower_lines@.len() as int, false)
}

/// The elements of the first `n` beats, in order.
pub open spec fn beats_flat(beats: Seq<AstBeat>, n: int) -> Seq<AstBeatElement>
    decreases n,
{
    if n <= 0 { Seq::empty() } else { beats_flat(beats, n - 1) + beats[n - 1].elements@ }
}

/// The elements of the first `n` measures, in order: the positions of the
/// content line.
pub open spec fn measures_flat(ms: Seq<AstMeasure>, n: int) -> Seq<AstBeatElement>
    decreases n,
{
    if n <= 0 { Seq::empty() } else { measures_flat(ms, n - 1) + beats_flat(ms[n - 1].beats@, ms[n - 1].beats@.len() as int) }
}

/// The elements of a content line, in order.
pub open spec fn line_elements(c: AstContentLine) -> Seq<AstBeatElement> {
    measures_flat(c.measures@, c.measures@.len() as int)
}

/// The first marker from `j` on that is not used yet and stands at column `p`.
pub open spec fn first_unused_at(ms: Seq<(usize, i8)>, used: Seq<bool>, p: int, j: int) -> Option<int>
    decreases ms.len() - j,
{
    if j < 0 || j >= ms.len() {
        None
    } else if !used[j] && ms[j].0 == p {
        Some(j)
    } else {
        first_unused_at(ms, used, p, j + 1)
    }
}

/// The assignments (octave per position) and used markers after the first
/// `k` positions took the first unused marker directly at their column.
pub open spec fn direct_phase(es: Seq<AstBeatElement>, ms: Seq<(usize, i8)>, k: int) -> (Seq<Option<i8>>, Seq<bool>)
    decreases k,
{
    if k <= 0 {
        (Seq::new(es.len(), |i: int| None::<i8>), Seq::new(ms.len(), |i: int| false))
    } else {
        let prev = direct_phase(es, ms, k - 1);
        if es[k - 1] is Pitch {
            match first_unused_at(ms, prev.1, k - 1, 0) {
                Some(j) => (prev.0.update(k - 1, Some(ms[j].1)), prev.1.update(j, true)),
                None => prev,
            }
        } else {
            prev
        }
    }
}

/// Distance between two columns.
pub open spec fn distance(a: int, b: int) -> int {
    if a > b { a - b } else { b - a }
}

/// Among the first `n` positions, the first nearest pitch to column `pos`
/// that has no assignment yet, with its distance.
pub open spec fn nearest_free(es: Seq<AstBeatElement>, assign: Seq<Option<i8>>, pos: int, n: int) -> Option<(int, int)>
    decreases n,
{
    if n <= 0 {
        None
    } else {
        let prev = nearest_free(es, assign, pos, n - 1);
        if es[n - 1] is Pitch && assign[n - 1] is None {
            let d = distance(n - 1, pos);
            match prev {
                Some((_, bd)) => if d < bd { Some((n - 1, d)) } else { prev },
                None => Some((n - 1, d)),
            }
        } else {
            prev
        }
    }
}

/// The assignments after the first `j` markers left unused by the direct
/// phase went to their nearest pitch without an assignment.
pub open spec fn nearest_phase(es: Seq<AstBeatElement>, ms: Seq<(usize, i8)>, used: Seq<bool>, a0: Seq<Option<i8>>, j: int) -> Seq<Option<i8>>
    decreases j,
{
    if j <= 0 {
        a0
    } else {
        let prev = nearest_phase(es, ms, used, a0, j - 1);
        if used[j - 1] {
            prev
        } else {
            match nearest_free(es, prev, ms[j - 1].0 as int, es.len() as int) {
                Some((k, _)) => prev.update(k, Some(ms[j - 1].1)),
                None => prev,
            }
        }
    }
}

/// The octave assigned to each position of a stave's content line: first
/// each pitch takes a marker directly above or below it, then each marker
/// left over goes to the nearest pitch still without one.
pub open spec fn octave_assignments(st: AstStave) -> Seq<Option<i8>> {
    let es = line_elements(st.content_line);
    let ms = stave_octave_markers(st);
    let d = direct_phase(es, ms, es.len() as int);
    nearest_phase(es, ms, d.1, d.0, ms.len() as int)
}

/// An element with its assigned octave, when it is a pitch with one.
pub open spec fn with_octave(e: AstBeatElement, a: Option<i8>) -> AstBeatElement {
    match (e, a) {
        (AstBeatElement::Pitch { value, octave }, Some(v)) => AstBeatElement::Pitch { value, octave: v },
        _ => e,
    }
}

/// The number of elements of each beat.
pub open spec fn beat_lens(bs: Seq<AstBeat>) -> Seq<nat> {
    bs.map_values(|b: AstBeat| b.elements@.len())
}

/// The number of elements of each beat of each measure.
pub open spec fn line_shape(ms: Seq<AstMeasure>) -> Seq<Seq<nat>> {
    ms.map_values(|m: AstMeasure| beat_lens(m.beats@))
}

/// Whether a stave is another with its pitches' octaves assigned: the same
/// annotation lines and shape, and each position's element with its octave.
pub open spec fn stave_assigned(old_st: AstStave, new_st: AstStave) -> bool {
    let es = line_elements(old_st.content_line);
    let a = octave_assignments(old_st);
    &&& new_st.upper_lines == old_st.upper_lines
    &&& new_st.lower_lines == old_st.lower_lines
    &&& line_shape(new_st.content_line.measures@) == line_shape(old_st.content_line.measures@)
    &&& line_elements(new_st.content_line) == Seq::new(es.len(), |k: int| with_octave(es[k], a[k]))
}

proof fn lemma_item_offset_mono(items: Seq<AnnotationItem>, i: int, j: int, upper: bool)
    requires
        0 <= i <= j,
    ensures
        item_offset(items, i, upper) <= item_offset(items, j, upper),
    decreases j,
{
    if i < j {
        lemma_item_offset_mono(items, i, j - 1, upper);
    }
}

fn text_len(s: &String) -> (n: usize)
    ensures
        n == byte_len(s@),
{
    s.as_str().len()
}

fn add_line_markers(line: &AnnotationLine, upper: bool, out: &mut Vec<(usize, i8)>)
    requires
        item_offset(line.items@, line.items@.len() as int, upper) <= usize::MAX,
    ensures
        final(out)@ == old(out)@ + line_octave_markers(line.items@, line.items@.len() as int, upper),
{
    let ghost start = out@;
    let mut pos: usize = 0;
    let mut k: usize = 0;
    while k < line.items.len()
        invariant
            k <= line.items@.len(),
            item_offset(line.items@, line.items@.len() as int, upper) <= usize::MAX,
            pos == item_offset(line.items@, k as int, upper),
            out@ == start + line_octave_markers(line.items@, k as int, upper),
        decreases line.items@.len() - k,
    {
        proof {
            lemma_item_offset_mono(line.items@, k + 1, line.items@.len() as int, upper);
        }
        let ghost before = out@;
        match &line.items[k] {
            AnnotationItem::UpperOctaveMarker { marker } => {
                if upper {
                    out.push((pos, octave_marker_to_number(marker.as_str(), true)));
                }
                pos = pos + 1;
            },
            AnnotationItem::LowerOctaveMarker { marker } => {
                if !upper {
                    out.push((pos, octave_marker_to_number(marker.as_str(), false)));
                }
                pos = pos + 1;
            },
            AnnotationItem::Space { count } => {
                pos = pos + *count;
            },
            AnnotationItem::Slur { underscores } => {
                if upper { pos = pos + text_len(underscores); } else { pos = pos + 1; }
            },
            AnnotationItem::BeatGrouping { underscores } => {
                if upper { pos = pos + 1; } else { pos = pos + text_len(underscores); }
            },
            _ => {
                pos = pos + 1;
            },
        }
        proof {
            assert(out@ =~= start + line_octave_markers(line.items@, k + 1, upper));
        }
        k = k + 1;
    }
}

fn add_lines_markers(lines: &Vec<AnnotationLine>, upper: bool, out: &mut Vec<(usize, i8)>)
    requires
        lines_fit(lines@, upper),
    ensures
        final(out)@ == old(out)@ + lines_octave_markers(lines@, lines@.len() as int, upper),
{
    let ghost start = out@;
    let mut i: usize = 0;
    while i < lines.len()
        invariant
            i <= lines@.len(),
            lines_fit(lines@, upper),
            out@ == start + lines_octave_markers(lines@, i as int, upper),
        decreases lines@.len() - i,
    {
        let ghost before = out@;
        assert(item_offset(lines@[i as int].items@, lines@[i as int].items@.len() as int, upper) <= usize::MAX);
        add_line_markers(&lines[i], upper, out);
        proof {
            assert(out@ =~= start + lines_octave_markers(lines@, i + 1, upper));
        }
        i = i + 1;
    }
}

/// Whether an element is a pitch.
pub open spec fn pitch_flags(es: Seq<AstBeatElement>) -> Seq<bool> {
    es.map_values(|e: AstBeatElement| e is Pitch)
}

fn content_pitch_flags(c: &AstContentLine) -> (r: Vec<bool>)
    ensures
        r@ == pitch_flags(line_elements(*c)),
{
    let mut flags: Vec<bool> = Vec::new();
    let mut m: usize = 0;
    while m < c.measures.len()
        invariant
            m <= c.measures@.len(),
            flags@ == pitch_flags(measures_flat(c.measures@, m as int)),
        decreases c.measures@.len() - m,
    {
        let measure = &c.measures[m];
        let ghost at_m = flags@;
        let mut b: usize = 0;
        while b < measure.beats.len()
            invariant
                b <= measure.beats@.len(),
                flags@ == at_m + pitch_flags(beats_flat(measure.beats@, b as int)),
            decreases measure.beats@.len() - b,
        {
            let beat = &measure.beats[b];
            let ghost at_b = flags@;
            let mut k: usize = 0;
            while k < beat.elements.len()
                invariant
                    k <= beat.elements@.len(),
                    flags@ == at_b + pitch_flags(beat.elements@.take(k as int)),
                decreases beat.elements@.len() - k,
            {
                let is_pitch = match &beat.elements[k] { AstBeatElement::Pitch { .. } => true, _ => false };
                flags.push(is_pitch);
                k = k + 1;
                proof {
                    assert(flags@ =~= at_b + pitch_flags(beat.elements@.take(k as int)));
                }
            }
            b = b + 1;
            proof {
                assert(beat.elements@.take(beat.elements@.len() as int) =~= beat.elements@);
                assert(flags@ =~= at_m + pitch_flags(beats_flat(measure.beats@, b as int)));
            }
        }
        m = m + 1;
        proof {
            assert(flags@ =~= pitch_flags(measures_flat(c.measures@, m as int)));
        }
    }
    flags
}

fn find_unused(ms: &Vec<(usize, i8)>, used: &Vec<bool>, p: usize, from: usize) -> (r: Option<usize>)
    requires
        used@.len() == ms@.len(),
    ensures
        match r {
            Some(j) => first_unused_at(ms@, used@, p as int, from as int) == Some(j as int) && j < ms@.len(),
            None => first_unused_at(ms@, used@, p as int, from as int) is None,
        },
    decreases ms@.len() - from,
{
    if from >= ms.len() {
        None
    } else if !used[from] && ms[from].0 == p {
        Some(from)
    } else {
        find_unused(ms, used, p, from + 1)
    }
}

proof fn lemma_nearest_free_bound(es: Seq<AstBeatElement>, assign: Seq<Option<i8>>, pos: int, n: int)
    ensures
        nearest_free(es, assign, pos, n) matches Some((k, d)) ==> 0 <= k < n && d == distance(k, pos) && d >= 0,
    decreases n,
{
    if n > 0 {
        lemma_nearest_free_bound(es, assign, pos, n - 1);
    }
}

fn find_nearest(flags: &Vec<bool>, assign: &Vec<Option<i8>>, pos: usize, Ghost(es): Ghost<Seq<AstBeatElement>>) -> (r: Option<usize>)
    requires
        flags@ == pitch_flags(es),
        assign@.len() == es.len(),
    ensures
        match r {
            Some(k) => nearest_free(es, assign@, pos as int, es.len() as int) matches Some((kk, _)) && kk == k && k < es.len(),
            None => nearest_free(es, assign@, pos as int, es.len() as int) is None,
        },
{
    let mut best: Option<(usize, usize)> = None;
    let mut k: usize = 0;
    while k < flags.len()
        invariant
            flags@ == pitch_flags(es),
            assign@.len() == es.len(),
            k <= es.len(),
            match best {
                Some((bk, bd)) => nearest_free(es, assign@, pos as int, k as int) == Some((bk as int, bd as int)),
                None => nearest_free(es, assign@, pos as int, k as int) is None,
            },
        decreases es.len() - k,
    {
        proof {
            lemma_nearest_free_bound(es, assign@, pos as int, k as int);
        }
        if flags[k] && assign[k].is_none() {
            let d = if k > pos { k - pos } else { pos - k };
            match best {
                Some((_, bd)) => {
                    if d < bd {
                        best = Some((k, d));
                    }
                },
                None => {
                    best = Some((k, d));
                },
            }
        }
        k = k + 1;
    }
    proof {
        lemma_nearest_free_bound(es, assign@, pos as int, es.len() as int);
    }
    match best {
        Some((bk, _)) => Some(bk),
        None => None,
    }
}

/// The octave assigned to each position of a stave (see `octave_assignments`).
pub fn stave_octave_assignments(st: &AstStave) -> (r: Vec<Option<i8>>)
    requires
        lines_fit(st.upper_lines@, true),
        lines_fit(st.lower_lines@, false),
    ensures
        r@ == octave_assignments(*st),
        r@.len() == line_elements(st.content_line).len(),
{
    let ghost es = line_elements(st.content_line);
    let mut ms: Vec<(usize, i8)> = Vec::new();
    add_lines_markers(&st.upper_lines, true, &mut ms);
    add_lines_markers(&st.lower_lines, false, &mut ms);
    assert(ms@ =~= stave_octave_markers(*st));
    let flags = content_pitch_flags(&st.content_line);
    let mut assign: Vec<Option<i8>> = Vec::new();
    let mut i: usize = 0;
    while i < flags.len()
        invariant
            flags@ == pitch_flags(es),
            i <= es.len(),
            assign@ == Seq::new(i as nat, |x: int| None::<i8>),
        decreases es.len() - i,
    {
        assign.push(None);
        i = i + 1;
        proof { assert(assign@ =~= Seq::new(i as nat, |x: int| None::<i8>)); }
    }
    let mut used: Vec<bool> = Vec::new();
    let mut j: usize = 0;
    while j < ms.len()
        invariant
            j <= ms@.len(),
            used@ == Seq::new(j as nat, |x: int| false),
        decreases ms@.len() - j,
    {
        used.push(false);
        j = j + 1;
        proof { assert(used@ =~= Seq::new(j as nat, |x: int| false)); }
    }
    let ghost msv = ms@;
    proof {
        assert((assign@, used@) == direct_phase(es, msv, 0));
    }
    let mut k: usize = 0;
    while k < flags.len()
        invariant
            flags@ == pitch_flags(es),
            msv == ms@,
            k <= es.len(),
            (assign@, used@) == direct_phase(es, msv, k as int),
            assign@.len() == es.len(),
            used@.len() == msv.len(),
        decreases es.len() - k,
    {
        if flags[k] {
            match find_unused(&ms, &used, k, 0) {
                Some(jj) => {
                    let v = ms[jj].1;
                    assign.set(k, Some(v));
                    used.set(jj, true);
                },
                None => {},
            }
        }
        k = k + 1;
    }
    let ghost d = direct_phase(es, msv, es.len() as int);
    let mut m: usize = 0;
    while m < ms.len()
        invariant
            flags@ == pitch_flags(es),
            msv == ms@,
            m <= msv.len(),
            used@ == d.1,
            used@.len() == msv.len(),
            assign@.len() == es.len(),
            assign@ == nearest_phase(es, msv, d.1, d.0, m as int),
        decreases msv.len() - m,
    {
        if !used[m] {
            match find_nearest(&flags, &assign, ms[m].0, Ghost(es)) {
                Some(kk) => {
                    let v = ms[m].1;
                    assign.set(kk, Some(v));
                },
                None => {},
            }
        }
        m = m + 1;
    }
    assign
}

proof fn lemma_beats_flat_prefix(bs: Seq<AstBeat>, i: int, n: int)
    requires
        0 <= i <= n,
    ensures
        beats_flat(bs, i).len() <= beats_flat(bs, n).len(),
        beats_flat(bs, n).subrange(0, beats_flat(bs, i).len() as int) == beats_flat(bs, i),
    decreases n,
{
    if i < n {
        lemma_beats_flat_prefix(bs, i, n - 1);
        let a = beats_flat(bs, i);
        let b = beats_flat(bs, n - 1);
        assert(beats_flat(bs, n).subrange(0, a.len() as int) =~= b.subrange(0, a.len() as int));
    } else {
        assert(beats_flat(bs, n).subrange(0, beats_flat(bs, i).len() as int) =~= beats_flat(bs, i));
    }
}

proof fn lemma_measures_flat_prefix(ms: Seq<AstMeasure>, i: int, n: int)
    requires
        0 <= i <= n,
    ensures
        measures_flat(ms, i).len() <= measures_flat(ms, n).len(),
        measures_flat(ms, n).subrange(0, measures_flat(ms, i).len() as int) == measures_flat(ms, i),
    decreases n,
{
    if i < n {
        lemma_measures_flat_prefix(ms, i, n - 1);
        let a = measures_flat(ms, i);
        let b = measures_flat(ms, n - 1);
        assert(measures_flat(ms, n).subrange(0, a.len() as int) =~= b.subrange(0, a.len() as int));
    } else {
        assert(measures_flat(ms, n).subrange(0, measures_flat(ms, i).len() as int) =~= measures_flat(ms, i));
    }
}

proof fn lemma_beats_flat_push(bs: Seq<AstBeat>, x: AstBeat, n: int)
    requires
        0 <= n <= bs.len(),
    ensures
        beats_flat(bs.push(x), n) == beats_flat(bs, n),
    decreases n,
{
    if n > 0 {
        lemma_beats_flat_push(bs, x, n - 1);
    }
}

proof fn lemma_measures_flat_push(ms: Seq<AstMeasure>, x: AstMeasure, n: int)
    requires
        0 <= n <= ms.len(),
    ensures
        measures_flat(ms.push(x), n) == measures_flat(ms, n),
    decreases n,
{
    if n > 0 {
        lemma_measures_flat_push(ms, x, n - 1);
    }
}

/// The stave with the assigned octaves (one per position of its content
/// line) written into its pitches.
pub fn apply_octave_assignments(st: AstStave, assign: &Vec<Option<i8>>) -> (r: AstStave)
    requires
        assign@.len() == line_elements(st.content_line).len(),
    ensures
        r.upper_lines == st.upper_lines,
        r.lower_lines == st.lower_lines,
        line_shape(r.content_line.measures@) == line_shape(st.content_line.measures@),
        line_elements(r.content_line) == Seq::new(line_elements(st.content_line).len(),
            |k: int| with_octave(line_elements(st.content_line)[k], assign@[k])),
{
    let ghost es = line_elements(st.content_line);
    let ghost g = Seq::new(es.len(), |k: int| with_octave(es[k], assign@[k]));
    let ghost orig = st.content_line.measures@;
    let n = assign.len();
    let AstStave { upper_lines, lower_lines, content_line } = st;
    let mut old_ms = content_line.measures;
    let mut new_ms: Vec<AstMeasure> = Vec::new();
    let mut pos: usize = 0;
    let ghost mut mi: int = 0;
    proof {
        assert(old_ms@.skip(0) =~= old_ms@);
        assert(line_shape(new_ms@) =~= line_shape(orig.take(0)));
    }
    while old_ms.len() > 0
        invariant
            0 <= mi <= orig.len(),
            es == measures_flat(orig, orig.len() as int),
            g == Seq::new(es.len(), |k: int| with_octave(es[k], assign@[k])),
            assign@.len() == es.len(),
            n == es.len(),
            old_ms@ == orig.skip(mi),
            pos == measures_flat(orig, mi).len(),
            new_ms@.len() == mi,
            line_shape(new_ms@) == line_shape(orig.take(mi)),
            measures_flat(new_ms@, new_ms@.len() as int).len() == pos,
            forall|x: int| 0 <= x < pos ==> #[trigger] measures_flat(new_ms@, new_ms@.len() as int)[x] == g[x],
        decreases old_ms@.len(),
    {
        proof {
            assert(old_ms@.len() == orig.len() - mi);
            lemma_measures_flat_prefix(orig, mi, orig.len() as int);
        }
        let measure = old_ms.remove(0);
        let ghost mstart = pos as int;
        let ghost obeats = measure.beats@;
        let ghost mflat = beats_flat(obeats, obeats.len() as int);
        proof {
            assert(measure == orig[mi]);
            lemma_measures_flat_prefix(orig, mi + 1, orig.len() as int);
            assert(measures_flat(orig, mi + 1) == measures_flat(orig, mi) + mflat);
            assert forall|x: int| 0 <= x < mflat.len() implies es[mstart + x] == #[trigger] mflat[x] by {
                assert(es.subrange(0, measures_flat(orig, mi + 1).len() as int)[mstart + x] == measures_flat(orig, mi + 1)[mstart + x]);
            }
        }
        let mut old_bs = measure.beats;
        let mut new_bs: Vec<AstBeat> = Vec::new();
        let ghost mut bi: int = 0;
        proof {
            assert(old_bs@.skip(0) =~= old_bs@);
            assert(beat_lens(new_bs@) =~= beat_lens(obeats.take(0)));
        }
        while old_bs.len() > 0
            invariant
                0 <= bi <= obeats.len(),
                old_bs@ == obeats.skip(bi),
                mflat == beats_flat(obeats, obeats.len() as int),
                mstart + mflat.len() <= es.len(),
                forall|x: int| 0 <= x < mflat.len() ==> es[mstart + x] == #[trigger] mflat[x],
                g == Seq::new(es.len(), |k: int| with_octave(es[k], assign@[k])),
                assign@.len() == es.len(),
                n == es.len(),
                pos == mstart + beats_flat(obeats, bi).len(),
                new_bs@.len() == bi,
                beat_lens(new_bs@) == beat_lens(obeats.take(bi)),
                beats_flat(new_bs@, new_bs@.len() as int).len() == pos - mstart,
                forall|x: int| 0 <= x < pos - mstart ==> #[trigger] beats_flat(new_bs@, new_bs@.len() as int)[x] == g[mstart + x],
            decreases old_bs@.len(),
        {
            proof {
                assert(old_bs@.len() == obeats.len() - bi);
                assert(bi < obeats.len());
            }
            let beat = old_bs.remove(0);
            let ghost bstart = pos as int;
            let ghost oels = beat.elements@;
            proof {
                assert(beat == obeats[bi]);
                lemma_beats_flat_prefix(obeats, bi + 1, obeats.len() as int);
                assert(beats_flat(obeats, bi + 1) == beats_flat(obeats, bi) + oels);
                assert forall|x: int| 0 <= x < oels.len() implies es[bstart + x] == #[trigger] oels[x] by {
                    let y = beats_flat(obeats, bi).len() + x;
                    assert(mflat.subrange(0, beats_flat(obeats, bi + 1).len() as int)[y] == beats_flat(obeats, bi + 1)[y]);
                    assert(es[mstart + y] == mflat[y]);
                }
            }
            let mut old_es = beat.elements;
            let mut new_es: Vec<AstBeatElement> = Vec::new();
            let ghost mut ei: int = 0;
            proof {
                assert(old_es@.skip(0) =~= old_es@);
            }
            while old_es.len() > 0
                invariant
                    0 <= ei <= oels.len(),
                    old_es@ == oels.skip(ei),
                    bstart + oels.len() <= es.len(),
                    forall|x: int| 0 <= x < oels.len() ==> es[bstart + x] == #[trigger] oels[x],
                    g == Seq::new(es.len(), |k: int| with_octave(es[k], assign@[k])),
                    assign@.len() == es.len(),
                    n == es.len(),
                    pos == bstart + ei,
                    new_es@.len() == ei,
                    forall|x: int| 0 <= x < ei ==> #[trigger] new_es@[x] == g[bstart + x],
                decreases old_es@.len(),
            {
                proof {
                    assert(old_es@.len() == oels.len() - ei);
                    assert(ei < oels.len());
                }
                let e = old_es.remove(0);
                proof {
                    assert(e == oels[ei]);
                    assert(es[bstart + ei] == oels[ei]);
                }
                let a = assign[pos];
                let e2 = match e {
                    AstBeatElement::Pitch { value, octave } => match a {
                        Some(v) => AstBeatElement::Pitch { value, octave: v },
                        None => AstBeatElement::Pitch { value, octave },
                    },
                    other => other,
                };
                let ghost old_pos = pos as int;
                let ghost prev_es = new_es@;
                proof {
                    assert(e2 == g[old_pos]);
                }
                new_es.push(e2);
                pos = pos + 1;
                proof {
                    ei = ei + 1;
                    assert(old_es@ =~= oels.skip(ei));
                    assert(new_es@ == prev_es.push(g[old_pos]));
                }
            }
            proof {
                assert(old_es@.len() == oels.len() - ei);
                assert(ei == oels.len());
                assert(new_es@.len() == oels.len());
                assert(mstart <= bstart);
                assert(pos <= es.len());
            }
            let nb = AstBeat { elements: new_es };
            let ghost before_bs = new_bs@;
            new_bs.push(nb);
            proof {
                lemma_beats_flat_push(before_bs, nb, before_bs.len() as int);
                assert(new_bs@ == before_bs.push(nb));
                assert(beats_flat(new_bs@, new_bs@.len() as int) == beats_flat(before_bs, before_bs.len() as int) + nb.elements@);
                assert forall|x: int| 0 <= x < pos - mstart implies #[trigger] beats_flat(new_bs@, new_bs@.len() as int)[x] == g[mstart + x] by {
                    if x >= bstart - mstart {
                        assert(nb.elements@[x - (bstart - mstart)] == g[bstart + (x - (bstart - mstart))]);
                    }
                }
                bi = bi + 1;
                assert(old_bs@ =~= obeats.skip(bi));
                assert(obeats.take(bi) =~= obeats.take(bi - 1).push(obeats[bi - 1]));
                assert(nb.elements@.len() == obeats[bi - 1].elements@.len());
                assert(beat_lens(before_bs.push(nb)) =~= beat_lens(before_bs).push(nb.elements@.len()));
                assert(beat_lens(obeats.take(bi - 1).push(obeats[bi - 1])) =~= beat_lens(obeats.take(bi - 1)).push(obeats[bi - 1].elements@.len()));
                assert(beat_lens(new_bs@) =~= beat_lens(obeats.take(bi)));
            }
        }
        proof {
            assert(old_bs@.len() == obeats.len() - bi);
            assert(bi == obeats.len());
            assert(obeats.take(bi) =~= obeats);
        }
        let nm = AstMeasure { beats: new_bs };
        let ghost before_ms = new_ms@;
        new_ms.push(nm);
        proof {
            lemma_measures_flat_push(before_ms, nm, before_ms.len() as int);
            assert(new_ms@ == before_ms.push(nm));
            assert(measures_flat(new_ms@, new_ms@.len() as int) == measures_flat(before_ms, before_ms.len() as int)
                + beats_flat(nm.beats@, nm.beats@.len() as int));
            assert forall|x: int| 0 <= x < pos implies #[trigger] measures_flat(new_ms@, new_ms@.len() as int)[x] == g[x] by {
                if x >= mstart {
                    assert(beats_flat(nm.beats@, nm.beats@.len() as int)[x - mstart] == g[mstart + (x - mstart)]);
                }
            }
            mi = mi + 1;
            assert(old_ms@ =~= orig.skip(mi));
            assert(orig.take(mi) =~= orig.take(mi - 1).push(orig[mi - 1]));
            assert(beat_lens(nm.beats@) == beat_lens(orig[mi - 1].beats@));
            assert(line_shape(before_ms.push(nm)) =~= line_shape(before_ms).push(beat_lens(nm.beats@)));
            assert(line_shape(orig.take(mi - 1).push(orig[mi - 1])) =~= line_shape(orig.take(mi - 1)).push(beat_lens(orig[mi - 1].beats@)));
            assert(line_shape(new_ms@) =~= line_shape(orig.take(mi)));
        }
    }
    proof {
        assert(orig.skip(mi).len() == 0);
        assert(orig.take(mi) =~= orig);
        assert(measures_flat(new_ms@, new_ms@.len() as int) =~= g);
    }
    AstStave { upper_lines, lower_lines, content_line: AstContentLine { measures: new_ms } }
}

/// Whether the columns of a stave's annotation lines fit in `usize`.
pub open spec fn stave_fits(st: AstStave) -> bool {
    lines_fit(st.upper_lines@, true) && lines_fit(st.lower_lines@, false)
}

/// Assigns the octave markers of every stave to its notes: each pitch takes
/// a marker directly above or below it, then each marker left over goes to
/// the nearest pitch still without one (see `stave_assigned`).
pub fn assign_octave_markers(document: &mut AstDocument)
    requires
        forall|i: int| 0 <= i < old(document).staves@.len() ==> stave_fits(#[trigger] old(document).staves@[i]),
    ensures
        final(document).staves@.len() == old(document).staves@.len(),
        forall|i: int| 0 <= i < old(document).staves@.len() ==> stave_assigned(#[trigger] old(document).staves@[i], final(document).staves@[i]),
{
    let ghost orig = document.staves@;
    let mut old_staves: Vec<AstStave> = Vec::new();
    std::mem::swap(&mut old_staves, &mut document.staves);
    let mut new_staves: Vec<AstStave> = Vec::new();
    let ghost mut si: int = 0;
    proof {
        assert(old_staves@.skip(0) =~= old_staves@);
    }
    while old_staves.len() > 0
        invariant
            0 <= si <= orig.len(),
            old_staves@ == orig.skip(si),
            forall|i: int| 0 <= i < orig.len() ==> stave_fits(#[trigger] orig[i]),
            new_staves@.len() == si,
            forall|i: int| 0 <= i < si ==> stave_assigned(#[trigger] orig[i], new_staves@[i]),
        decreases old_staves@.len(),
    {
        let st = old_staves.remove(0);
        proof {
            assert(st == orig[si]);
        }
        let a = stave_octave_assignments(&st);
        let ghost old_st = st;
        let done = apply_octave_assignments(st, &a);
        new_staves.push(done);
        proof {
            si = si + 1;
            assert(old_staves@ =~= orig.skip(si));
            assert(stave_assigned(orig[si - 1], new_staves@[si - 1]));
        }
    }
    document.staves = new_staves;
}

// ---------------------------------------------------------------------------
// Slur segments of annotation lines.

/// Total length of a list of texts.
pub open spec fn texts_len(ps: Seq<String>) -> nat
    decreases ps.len(),
{
    if ps.len() == 0 { 0 } else { texts_len(ps.drop_last()) + byte_len(ps.last()@) as nat }
}

/// Columns an item takes when slurs are read: slur underscores, markers and
/// symbols their length, a chord its length and brackets, an ornament its
/// pitches with separators and brackets, anything else one.
pub open spec fn slur_item_width(it: AnnotationItem) -> nat {
    match it {
        AnnotationItem::Slur { underscores } => byte_len(underscores@) as nat,
        AnnotationItem::Space { count } => count as nat,
        AnnotationItem::UpperOctaveMarker { marker } => byte_len(marker@) as nat,
        AnnotationItem::LowerOctaveMarker { marker } => byte_len(marker@) as nat,
        AnnotationItem::Tala { marker } => byte_len(marker@) as nat,
        AnnotationItem::Symbol { symbol } => byte_len(symbol@) as nat,
        AnnotationItem::Ending { ending } => byte_len(ending@) as nat,
        AnnotationItem::Chord { chord } => byte_len(chord@) as nat + 2,
        AnnotationItem::Ornament { pitches } => texts_len(pitches@) + pitches@.len() + 1,
        _ => 1,
    }
}

/// Column of the `k`-th item of a line when slurs are read.
pub open spec fn slur_offset(items: Seq<AnnotationItem>, k: int) -> nat
    decreases k,
{
    if k <= 0 { 0 } else { slur_offset(items, k - 1) + slur_item_width(items[k - 1]) }
}

/// The slur segments (first and last column) among the first `n` items of a
/// line: underscores two or more long.
pub open spec fn line_slur_segments(items: Seq<AnnotationItem>, n: int) -> Seq<(usize, usize)>
    decreases n,
{
    if n <= 0 {
        Seq::empty()
    } else {
        let prev = line_slur_segments(items, n - 1);
        match items[n - 1] {
            AnnotationItem::Slur { underscores } => if byte_len(underscores@) >= 2 {
                prev.push((slur_offset(items, n - 1) as usize, (slur_offset(items, n - 1) + byte_len(underscores@) - 1) as usize))
            } else {
                prev
            },
            _ => prev,
        }
    }
}

/// The slur segments of the first `n` lines.
pub open spec fn lines_slur_segments(lines: Seq<AnnotationLine>, n: int) -> Seq<(usize, usize)>
    decreases n,
{
    if n <= 0 { Seq::empty() } else { lines_slur_segments(lines, n - 1) + line_slur_segments(lines[n - 1].items@, lines[n - 1].items@.len() as int) }
}

/// Whether the slur columns of every line fit in `usize`.
pub open spec fn slur_lines_fit(lines: Seq<AnnotationLine>) -> bool {
    forall|i: int| 0 <= i < lines.len() ==> slur_offset((#[trigger] lines[i]).items@, lines[i].items@.len() as int) <= usize::MAX
}

proof fn lemma_slur_offset_mono(items: Seq<AnnotationItem>, i: int, j: int)
    requires
        0 <= i <= j,
    ensures
        slur_offset(items, i) <= slur_offset(items, j),
    decreases j,
{
    if i < j {
        lemma_slur_offset_mono(items, i, j - 1);
    }
}

fn ornament_width(pitches: &Vec<String>) -> (r: Option<usize>)
    ensures
        match r {
            Some(w) => w == texts_len(pitches@) + pitches@.len() + 1,
            None => texts_len(pitches@) + pitches@.len() + 1 > usize::MAX,
        },
{
    let mut total: usize = 0;
    let mut i: usize = 0;
    while i < pitches.len()
        invariant
            i <= pitches@.len(),
            total == texts_len(pitches@.take(i as int)),
        decreases pitches@.len() - i,
    {
        proof {
            assert(pitches@.take(i + 1).drop_last() =~= pitches@.take(i as int));
        }
        let l = text_len(&pitches[i]);
        if total > usize::MAX - l {
            proof {
                lemma_texts_len_prefix(pitches@, i + 1);
            }
            return None;
        }
        total = total + l;
        i = i + 1;
    }
    proof {
        assert(pitches@.take(pitches@.len() as int) =~= pitches@);
    }
    let n = pitches.len();
    if total > usize::MAX - n || total + n > usize::MAX - 1 {
        return None;
    }
    Some(total + n + 1)
}

proof fn lemma_texts_len_prefix(ps: Seq<String>, k: int)
    requires
        0 <= k <= ps.len(),
    ensures
        texts_len(ps.take(k)) <= texts_len(ps),
    decreases ps.len(),
{
    if k < ps.len() {
        assert(ps.drop_last().take(k) =~= ps.take(k));
        lemma_texts_len_prefix(ps.drop_last(), k);
    } else {
        assert(ps.take(k) =~= ps);
    }
}

/// The slur segments of annotation lines (see `line_slur_segments`).
pub fn find_slur_segments(upper_lines: &[AnnotationLine]) -> (r: Vec<(usize, usize)>)
    requires
        slur_lines_fit(upper_lines@),
    ensures
        r@ == lines_slur_segments(upper_lines@, upper_lines@.len() as int),
{
    let mut segments: Vec<(usize, usize)> = Vec::new();
    let mut li: usize = 0;
    while li < upper_lines.len()
        invariant
            li <= upper_lines@.len(),
            slur_lines_fit(upper_lines@),
            segments@ == lines_slur_segments(upper_lines@, li as int),
        decreases upper_lines@.len() - li,
    {
        let line = &upper_lines[li];
        let ghost items = line.items@;
        let ghost start = segments@;
        assert(slur_offset(items, items.len() as int) <= usize::MAX);
        let mut pos: usize = 0;
        let mut k: usize = 0;
        while k < line.items.len()
            invariant
                items == line.items@,
                k <= items.len(),
                slur_offset(items, items.len() as int) <= usize::MAX,
                pos == slur_offset(items, k as int),
                segments@ == start + line_slur_segments(items, k as int),
            decreases items.len() - k,
        {
            proof {
                lemma_slur_offset_mono(items, k + 1, items.len() as int);
            }
            let width: usize = match &line.items[k] {
                AnnotationItem::Slur { underscores } => {
                    let l = text_len(underscores);
                    if l >= 2 {
                        segments.push((pos, pos + l - 1));
                    }
                    l
                },
                AnnotationItem::Space { count } => *count,
                AnnotationItem::UpperOctaveMarker { marker } => text_len(marker),
                AnnotationItem::LowerOctaveMarker { marker } => text_len(marker),
                AnnotationItem::Tala { marker } => text_len(marker),
                AnnotationItem::Symbol { symbol } => text_len(symbol),
                AnnotationItem::Ending { ending } => text_len(ending),
                AnnotationItem::Chord { chord } => text_len(chord) + 2,
                AnnotationItem::Ornament { pitches } => match ornament_width(pitches) {
                    Some(w) => w,
                    None => 0,
                },
                _ => 1,
            };
            pos = pos + width;
            proof {
                assert(segments@ =~= start + line_slur_segments(items, k + 1));
            }
            k = k + 1;
        }
        proof {
            assert(segments@ =~= lines_slur_segments(upper_lines@, li + 1));
        }
        li = li + 1;
    }
    segments
}

} // verus!
