//! VexFlow staves from the rhythm stage's node tree: each `LINE` node becomes
//! a stave whose beats give notes, rests, ties, mordents, beams and tuplets,
//! with accidentals tracked per bar.
use vstd::prelude::*;
use crate::models::copy_string;
use crate::pitch::PitchCode;
use crate::structs_backup::{Node, Document};
use crate::text::{str_eq, trim_spec, trim_str, int_decimal, i64_to_string, push_char, unicode_lowercase};
use crate::vexflow_fsm_converter::{
    VexFlowStave, VexFlowElement, VexFlowAccidental, NoteAccidentalTable, is_first, check_note, transposed_pitch,
    vexflow_octave, get_transposed_vexflow_pitch, apply_vexflow_beaming, is_beamable, with_beam, initial_table,
    opt_string_view, opt_str_view,
};
use crate::beaming::beam_role;

verus! {

// ---------------------------------------------------------------------------
// Plain views of VexFlow elements.

/// A VexFlow element as plain values.  A tuplet holds the views of its
/// notes; a tuplet inside a tuplet is seen as `Nested`.
pub enum VexFlowElementView {
    Note {
        keys: Seq<Seq<char>>,
        duration: Seq<char>,
        dots: u8,
        accidentals: Seq<(usize, Seq<char>)>,
        tied: bool,
        original_duration: Option<Seq<char>>,
        beam_start: bool,
        beam_end: bool,
        syl: Option<Seq<char>>,
    },
    Rest { duration: Seq<char>, dots: u8, original_duration: Option<Seq<char>> },
    BarLine { bar_type: Seq<char> },
    Breathe,
    Tuplet { notes: Seq<VexFlowElementView>, divisions: u8 },
    SlurStart,
    SlurEnd,
    Mordent { note_index: usize, mordent_type: Seq<char> },
    Nested,
}

/// The texts of a list of strings.
pub open spec fn texts(v: Seq<String>) -> Seq<Seq<char>> {
    v.map_values(|s: String| s@)
}

/// The accidentals as plain values.
pub open spec fn accidental_views(v: Seq<VexFlowAccidental>) -> Seq<(usize, Seq<char>)> {
    v.map_values(|a: VexFlowAccidental| (a.index, a.accidental@))
}

/// The view of an element that is not looked into further.
pub open spec fn shallow_view(e: VexFlowElement) -> VexFlowElementView {
    match e {
        VexFlowElement::Note { keys, duration, dots, accidentals, tied, original_duration, beam_start, beam_end, syl } =>
            VexFlowElementView::Note {
                keys: texts(keys@),
                duration: duration@,
                dots,
                accidentals: accidental_views(accidentals@),
                tied,
                original_duration: opt_string_view(original_duration),
                beam_start,
                beam_end,
                syl: opt_string_view(syl),
            },
        VexFlowElement::Rest { duration, dots, original_duration } =>
            VexFlowElementView::Rest { duration: duration@, dots, original_duration: opt_string_view(original_duration) },
        VexFlowElement::BarLine { bar_type } => VexFlowElementView::BarLine { bar_type: bar_type@ },
        VexFlowElement::Breathe => VexFlowElementView::Breathe,
        VexFlowElement::Tuplet { .. } => VexFlowElementView::Nested,
        VexFlowElement::SlurStart => VexFlowElementView::SlurStart,
        VexFlowElement::SlurEnd => VexFlowElementView::SlurEnd,
        VexFlowElement::Mordent { note_index, mordent_type } =>
            VexFlowElementView::Mordent { note_index, mordent_type: mordent_type@ },
    }
}

/// The views of a list of elements that are not looked into further.
pub open spec fn shallow_views(s: Seq<VexFlowElement>) -> Seq<VexFlowElementView> {
    s.map_values(|e: VexFlowElement| shallow_view(e))
}

/// The view of an element of a stave: a tuplet with the views of its notes.
pub open spec fn element_view(e: VexFlowElement) -> VexFlowElementView {
    match e {
        VexFlowElement::Tuplet { notes, divisions } => VexFlowElementView::Tuplet { notes: shallow_views(notes@), divisions },
        _ => shallow_view(e),
    }
}

/// The views of the elements of a stave.
pub open spec fn element_views(s: Seq<VexFlowElement>) -> Seq<VexFlowElementView> {
    s.map_values(|e: VexFlowElement| element_view(e))
}

// ---------------------------------------------------------------------------
// Durations.

/// Whether the first `[` of a text comes before its first `]` (when both occur).
pub open spec fn brackets_ordered(s: Seq<char>) -> bool {
    forall|a: int, b: int| is_first(s, '[', a) && is_first(s, ']', b) ==> a < b
}

/// The text between the first `[` and the first `]` of a node value such as
/// `S[1/16]`, or `1/4` when either is missing.
pub open spec fn duration_tag(s: Seq<char>) -> Seq<char> {
    if s.contains('[') && s.contains(']') {
        let a = choose|a: int| is_first(s, '[', a);
        let b = choose|b: int| is_first(s, ']', b);
        s.subrange(a + 1, b)
    } else {
        "1/4"@
    }
}

proof fn lemma_first_exists(s: Seq<char>, c: char, i: int)
    requires
        0 <= i < s.len(),
        s[i] == c,
    ensures
        exists|a: int| is_first(s, c, a),
    decreases i,
{
    if exists|j: int| 0 <= j < i && s[j] == c {
        let j = choose|j: int| 0 <= j < i && s[j] == c;
        lemma_first_exists(s, c, j);
    } else {
        assert(is_first(s, c, i));
    }
}

proof fn lemma_first_unique(s: Seq<char>, c: char, a: int, b: int)
    requires
        is_first(s, c, a),
        is_first(s, c, b),
    ensures
        a == b,
{
    if a < b {
        assert(s[a] == c);
    }
    if b < a {
        assert(s[b] == c);
    }
}

fn find_first(s: &str, c: char) -> (r: Option<usize>)
    ensures
        match r { Some(i) => is_first(s@, c, i as int), None => !s@.contains(c) },
{
    let n = s.unicode_len();
    let mut i: usize = 0;
    while i < n
        invariant
            n == s@.len(),
            i <= n,
            forall|j: int| 0 <= j < i ==> s@[j] != c,
        decreases n - i,
    {
        if s.get_char(i) == c {
            return Some(i);
        }
        i = i + 1;
    }
    None
}

/// The duration tag of a node value (see `duration_tag`).
pub fn duration_tag_of(value: &str) -> (r: String)
    requires
        brackets_ordered(value@),
    ensures
        r@ == duration_tag(value@),
{
    match (find_first(value, '['), find_first(value, ']')) {
        (Some(a), Some(b)) => {
            proof {
                let ca = choose|x: int| is_first(value@, '[', x);
                let cb = choose|x: int| is_first(value@, ']', x);
                lemma_first_unique(value@, '[', a as int, ca);
                lemma_first_unique(value@, ']', b as int, cb);
            }
            value.substring_char(a + 1, b).to_owned()
        },
        _ => "1/4".to_owned(),
    }
}

/// Whether every character is an ASCII digit (and there is one).
pub open spec fn all_digits(s: Seq<char>) -> bool {
    s.len() > 0 && forall|i: int| 0 <= i < s.len() ==> '0' <= #[trigger] s[i] <= '9'
}

/// The number written by ASCII digits.
pub open spec fn digits_value(s: Seq<char>) -> nat
    decreases s.len(),
{
    if s.len() == 0 { 0 } else { digits_value(s.drop_last()) * 10 + ((s.last() as nat) - ('0' as nat)) as nat }
}

/// A fraction `n/d` (or a whole number `n`) written in decimal digits, with a
/// positive denominator and both parts within `u64`; `None` otherwise.
pub open spec fn parse_fraction(s: Seq<char>) -> Option<(nat, nat)> {
    if s.contains('/') {
        let i = choose|i: int| is_first(s, '/', i);
        let n = s.subrange(0, i);
        let d = s.subrange(i + 1, s.len() as int);
        if all_digits(n) && all_digits(d) && digits_value(n) <= u64::MAX && 0 < digits_value(d) <= u64::MAX {
            Some((digits_value(n), digits_value(d)))
        } else {
            None
        }
    } else if all_digits(s) && digits_value(s) <= u64::MAX {
        Some((digits_value(s), 1))
    } else {
        None
    }
}

fn parse_digits(s: &str, from: usize, to: usize) -> (r: Option<u64>)
    requires
        from <= to <= s@.len(),
    ensures
        match r {
            Some(v) => all_digits(s@.subrange(from as int, to as int)) && v == digits_value(s@.subrange(from as int, to as int)),
            None => !(all_digits(s@.subrange(from as int, to as int)) && digits_value(s@.subrange(from as int, to as int)) <= u64::MAX),
        },
{
    if from == to {
        return None;
    }
    let ghost t = s@.subrange(from as int, to as int);
    let mut v: u64 = 0;
    let mut k: usize = from;
    while k < to
        invariant
            from <= k <= to <= s@.len(),
            t == s@.subrange(from as int, to as int),
            forall|j: int| from <= j < k ==> '0' <= #[trigger] s@[j] <= '9',
            v == digits_value(s@.subrange(from as int, k as int)),
        decreases to - k,
    {
        let c = s.get_char(k);
        proof {
            assert(s@.subrange(from as int, k + 1).drop_last() =~= s@.subrange(from as int, k as int));
        }
        if !('0' <= c && c <= '9') {
            proof {
                assert(t[k - from] == c);
            }
            return None;
        }
        let digit = (c as u64) - ('0' as u64);
        if v > (u64::MAX - digit) / 10 {
            proof {
                assert(v * 10 + digit > u64::MAX) by (nonlinear_arith)
                    requires v > (u64::MAX - digit) / 10, digit <= 9;
                if all_digits(t) {
                    lemma_digits_grow(t, (k + 1 - from) as int);
                    assert(t.subrange(0, k + 1 - from) =~= s@.subrange(from as int, k + 1));
                }
            }
            return None;
        }
        v = v * 10 + digit;
        k = k + 1;
    }
    proof {
        assert forall|i: int| 0 <= i < t.len() implies '0' <= #[trigger] t[i] <= '9' by {
            assert(t[i] == s@[from + i]);
        }
    }
    Some(v)
}

proof fn lemma_digits_grow(s: Seq<char>, k: int)
    requires
        0 <= k <= s.len(),
        forall|i: int| 0 <= i < s.len() ==> '0' <= #[trigger] s[i] <= '9',
    ensures
        digits_value(s.subrange(0, k)) <= digits_value(s),
    decreases s.len(),
{
    if k < s.len() {
        assert(s.drop_last().subrange(0, k) =~= s.subrange(0, k));
        lemma_digits_grow(s.drop_last(), k);
        assert(digits_value(s.drop_last()) <= digits_value(s)) by (nonlinear_arith)
            requires digits_value(s) == digits_value(s.drop_last()) * 10 + ((s.last() as nat) - ('0' as nat)) as nat,
                '0' <= s.last() <= '9';
    } else {
        assert(s.subrange(0, k) =~= s);
    }
}

/// Reads a fraction (see `parse_fraction`).
pub fn parse_fraction_of(s: &str) -> (r: Option<(u64, u64)>)
    ensures
        match r {
            Some((n, d)) => parse_fraction(s@) == Some((n as nat, d as nat)),
            None => parse_fraction(s@) is None,
        },
{
    let len = s.unicode_len();
    match find_first(s, '/') {
        Some(i) => {
            proof {
                let c = choose|x: int| is_first(s@, '/', x);
                lemma_first_unique(s@, '/', i as int, c);
                assert(s@.contains('/'));
            }
            let n = parse_digits(s, 0, i);
            let d = parse_digits(s, i + 1, len);
            match (n, d) {
                (Some(n), Some(d)) => if d > 0 { Some((n, d)) } else { None },
                _ => None,
            }
        },
        None => {
            match parse_digits(s, 0, len) {
                Some(n) => {
                    proof { assert(s@.subrange(0, len as int) =~= s@); }
                    Some((n, 1))
                },
                None => {
                    proof { assert(s@.subrange(0, len as int) =~= s@); }
                    None
                },
            }
        },
    }
}

/// Whether `n/d` equals `a/b`.
pub open spec fn frac_eq(n: nat, d: nat, a: nat, b: nat) -> bool {
    n * b == d * a
}

/// VexFlow durations of a fraction of a whole note: the plain, dotted and
/// double dotted values directly; any other fraction split into the largest
/// standard values (whole down to thirty-second) that fit, one after another,
/// with what is left below a thirty-second written as one thirty-second.
pub open spec fn proper_durations(n: nat, d: nat) -> Seq<(Seq<char>, u8)> {
    if frac_eq(n, d, 1, 1) { seq![("w"@, 0u8)] }
    else if frac_eq(n, d, 1, 2) { seq![("h"@, 0u8)] }
    else if frac_eq(n, d, 1, 4) { seq![("q"@, 0u8)] }
    else if frac_eq(n, d, 1, 8) { seq![("8"@, 0u8)] }
    else if frac_eq(n, d, 1, 16) { seq![("16"@, 0u8)] }
    else if frac_eq(n, d, 1, 32) { seq![("32"@, 0u8)] }
    else if frac_eq(n, d, 3, 8) { seq![("q"@, 1u8)] }
    else if frac_eq(n, d, 3, 16) { seq![("8"@, 1u8)] }
    else if frac_eq(n, d, 3, 32) { seq![("16"@, 1u8)] }
    else if frac_eq(n, d, 7, 8) { seq![("h"@, 2u8)] }
    else if frac_eq(n, d, 7, 16) { seq![("q"@, 2u8)] }
    else if frac_eq(n, d, 7, 32) { seq![("8"@, 2u8)] }
    else { standard_parts(32 * n, d) }
}

/// The greedy split of `units` thirty-seconds-of-`1/d` (a length of
/// `units / (32 d)`) into standard values.
pub open spec fn standard_parts(units: nat, d: nat) -> Seq<(Seq<char>, u8)>
    decreases units,
{
    if d == 0 || units == 0 {
        Seq::empty()
    } else if units >= 32 * d {
        seq![("w"@, 0u8)] + standard_parts((units - 32 * d) as nat, d)
    } else if units >= 16 * d {
        seq![("h"@, 0u8)] + standard_parts((units - 16 * d) as nat, d)
    } else if units >= 8 * d {
        seq![("q"@, 0u8)] + standard_parts((units - 8 * d) as nat, d)
    } else if units >= 4 * d {
        seq![("8"@, 0u8)] + standard_parts((units - 4 * d) as nat, d)
    } else if units >= 2 * d {
        seq![("16"@, 0u8)] + standard_parts((units - 2 * d) as nat, d)
    } else if units >= d {
        seq![("32"@, 0u8)] + standard_parts((units - d) as nat, d)
    } else {
        seq![("32"@, 0u8)]
    }
}

/// The VexFlow durations of a node value's duration tag: those of the
/// fraction it writes, or a quarter when it writes none.
pub open spec fn tag_durations(tag: Seq<char>) -> Seq<(Seq<char>, u8)> {
    match parse_fraction(tag) {
        Some((n, d)) => proper_durations(n, d),
        None => seq![("q"@, 0u8)],
    }
}

/// The views of a list of (duration, dots) pairs.
pub open spec fn pair_views(v: Seq<(String, u8)>) -> Seq<(Seq<char>, u8)> {
    v.map_values(|p: (String, u8)| (p.0@, p.1))
}

fn push_pair(v: &mut Vec<(String, u8)>, name: &str, dots: u8)
    ensures
        pair_views(final(v)@) == pair_views(old(v)@).push((name@, dots)),
{
    let ghost before = pair_views(v@);
    v.push((name.to_owned(), dots));
    assert(pair_views(v@) =~= before.push((name@, dots)));
}

fn standard_parts_of(n: u64, d: u64) -> (r: Vec<(String, u8)>)
    requires
        d > 0,
    ensures
        pair_views(r@) == standard_parts(32 * n as nat, d as nat),
{
    let dd = d as u128;
    let mut units: u128 = 32 * (n as u128);
    let mut out: Vec<(String, u8)> = Vec::new();
    proof {
        assert(pair_views(out@) + standard_parts(units as nat, d as nat) =~= standard_parts(32 * n as nat, d as nat));
    }
    while units > 0
        invariant
            dd == d,
            d > 0,
            units <= 32 * 18446744073709551615u128,
            pair_views(out@) + standard_parts(units as nat, d as nat) == standard_parts(32 * n as nat, d as nat),
        decreases units,
    {
        let ghost before = pair_views(out@);
        let ghost u = units as nat;
        if units >= 32 * dd {
            push_pair(&mut out, "w", 0);
            units = units - 32 * dd;
        } else if units >= 16 * dd {
            push_pair(&mut out, "h", 0);
            units = units - 16 * dd;
        } else if units >= 8 * dd {
            push_pair(&mut out, "q", 0);
            units = units - 8 * dd;
        } else if units >= 4 * dd {
            push_pair(&mut out, "8", 0);
            units = units - 4 * dd;
        } else if units >= 2 * dd {
            push_pair(&mut out, "16", 0);
            units = units - 2 * dd;
        } else if units >= dd {
            push_pair(&mut out, "32", 0);
            units = units - dd;
        } else {
            push_pair(&mut out, "32", 0);
            units = 0;
            proof {
                assert(standard_parts(0, d as nat) =~= Seq::<(Seq<char>, u8)>::empty());
            }
        }
        proof {
            assert(pair_views(out@) + standard_parts(units as nat, d as nat) =~= before + standard_parts(u, d as nat));
        }
    }
    proof {
        assert(pair_views(out@) + standard_parts(0, d as nat) =~= pair_views(out@));
    }
    out
}

fn frac_eq_of(n: u64, d: u64, a: u64, b: u64) -> (r: bool)
    requires
        a <= 7,
        b <= 32,
    ensures
        r == frac_eq(n as nat, d as nat, a as nat, b as nat),
{
    let nn = n as u128;
    let dd = d as u128;
    assert(nn * (b as u128) <= 18446744073709551615u128 * 32) by (nonlinear_arith)
        requires nn <= 18446744073709551615u128, b <= 32;
    assert(dd * (a as u128) <= 18446744073709551615u128 * 7) by (nonlinear_arith)
        requires dd <= 18446744073709551615u128, a <= 7;
    nn * (b as u128) == dd * (a as u128)
}

fn single_pair(name: &str, dots: u8) -> (r: Vec<(String, u8)>)
    ensures
        pair_views(r@) == seq![(name@, dots)],
{
    let mut v: Vec<(String, u8)> = Vec::new();
    push_pair(&mut v, name, dots);
    assert(pair_views(Seq::<(String, u8)>::empty()) =~= Seq::<(Seq<char>, u8)>::empty());
    v
}

/// The VexFlow durations of `n/d` (see `proper_durations`).
pub fn fraction_to_vexflow_duration_proper(n: u64, d: u64) -> (r: Vec<(String, u8)>)
    requires
        d > 0,
    ensures
        pair_views(r@) == proper_durations(n as nat, d as nat),
{
    if frac_eq_of(n, d, 1, 1) { single_pair("w", 0) }
    else if frac_eq_of(n, d, 1, 2) { single_pair("h", 0) }
    else if frac_eq_of(n, d, 1, 4) { single_pair("q", 0) }
    else if frac_eq_of(n, d, 1, 8) { single_pair("8", 0) }
    else if frac_eq_of(n, d, 1, 16) { single_pair("16", 0) }
    else if frac_eq_of(n, d, 1, 32) { single_pair("32", 0) }
    else if frac_eq_of(n, d, 3, 8) { single_pair("q", 1) }
    else if frac_eq_of(n, d, 3, 16) { single_pair("8", 1) }
    else if frac_eq_of(n, d, 3, 32) { single_pair("16", 1) }
    else if frac_eq_of(n, d, 7, 8) { single_pair("h", 2) }
    else if frac_eq_of(n, d, 7, 16) { single_pair("q", 2) }
    else if frac_eq_of(n, d, 7, 32) { single_pair("8", 2) }
    else { standard_parts_of(n, d) }
}

/// The VexFlow durations of a duration tag (see `tag_durations`).
pub fn tag_durations_of(tag: &str) -> (r: Vec<(String, u8)>)
    ensures
        pair_views(r@) == tag_durations(tag@),
{
    match parse_fraction_of(tag) {
        Some((n, d)) => fraction_to_vexflow_duration_proper(n, d),
        None => single_pair("q", 0),
    }
}

// ---------------------------------------------------------------------------
// Beats.

/// Index of the first node of type `t` at or after `from`.
pub open spec fn first_of_type(nodes: Seq<Node>, from: int, t: Seq<char>) -> Option<int>
    decreases nodes.len() - from,
{
    if from < 0 || from >= nodes.len() {
        None
    } else if nodes[from].node_type@ == t {
        Some(from)
    } else {
        first_of_type(nodes, from + 1, t)
    }
}

/// Whether the note `i` of a beat ties into the next one: the next pitch of
/// the beat, or else the first pitch of the next beat of the line, continues
/// it (its dashes were consumed) with the same pitch code.
pub open spec fn ties_to_next(beat: Node, i: int, line: Seq<Node>, beat_idx: int, pc: PitchCode) -> bool {
    let within = match first_of_type(beat.nodes@, i + 1, "PITCH"@) {
        Some(j) => beat.nodes@[j].dash_consumed && beat.nodes@[j].pitch_code == Some(pc),
        None => false,
    };
    within || match first_of_type(line, beat_idx + 1, "BEAT"@) {
        Some(b) => match first_of_type(line[b].nodes@, 0, "PITCH"@) {
            Some(p) => line[b].nodes@[p].dash_consumed && line[b].nodes@[p].pitch_code == Some(pc),
            None => false,
        },
        None => false,
    }
}

/// The first `SYL` child from `from` on whose text is not blank.
pub open spec fn first_syllable(children: Seq<Node>, from: int) -> Option<Seq<char>>
    decreases children.len() - from,
{
    if from < 0 || from >= children.len() {
        None
    } else if children[from].node_type@ == "SYL"@ && trim_spec(children[from].value@).len() > 0 {
        Some(children[from].value@)
    } else {
        first_syllable(children, from + 1)
    }
}

/// The mordents among the first `k` children of a pitch, each on the note at
/// `first` ("upper" for `~`, "lower" otherwise).
pub open spec fn mordent_views(children: Seq<Node>, k: int, first: usize) -> Seq<VexFlowElementView>
    decreases k,
{
    if k <= 0 {
        Seq::empty()
    } else {
        let prev = mordent_views(children, k - 1, first);
        if children[k - 1].node_type@ == "MORDENT"@ {
            prev.push(VexFlowElementView::Mordent {
                note_index: first,
                mordent_type: if children[k - 1].value@ == "~"@ { "upper"@ } else { "lower"@ },
            })
        } else {
            prev
        }
    }
}

/// The state while reading a beat: its elements so far and the accidental table.
pub struct BeatState {
    pub elems: Seq<VexFlowElementView>,
    pub table: Seq<Option<Seq<char>>>,
}

/// The notes of a pitch: one per duration, the first carrying the tie and
/// the syllable, all with the same key, accidentals and duration tag.
pub open spec fn pitch_notes(key: Seq<char>, durs: Seq<(Seq<char>, u8)>, accs: Seq<(usize, Seq<char>)>, tag: Seq<char>,
    tied: bool, syl: Option<Seq<char>>) -> Seq<VexFlowElementView>
{
    Seq::new(durs.len(), |j: int| VexFlowElementView::Note {
        keys: seq![key],
        duration: durs[j].0,
        dots: durs[j].1,
        accidentals: accs,
        tied: j == 0 && tied,
        original_duration: Some(tag),
        beam_start: false,
        beam_end: false,
        syl: if j == 0 { syl } else { None },
    })
}

/// The rests of a rest node, one per duration.
pub open spec fn rest_views(durs: Seq<(Seq<char>, u8)>, tag: Seq<char>) -> Seq<VexFlowElementView> {
    Seq::new(durs.len(), |j: int| VexFlowElementView::Rest { duration: durs[j].0, dots: durs[j].1, original_duration: Some(tag) })
}

/// The state after the child `i` of a beat: slur marks as themselves; a
/// pitch with a pitch code as its notes (see `pitch_notes`), with the key
/// written in `key`, the accidental drawn only when the bar's table asks for
/// it, the VexFlow octave, the durations of its tag, and then its mordents;
/// a rest as its rests; anything else adds nothing.
pub open spec fn beat_step(st: BeatState, beat: Node, i: int, line: Seq<Node>, beat_idx: int, key: Option<&String>) -> BeatState {
    let n = beat.nodes@[i];
    if n.node_type@ == "SLUR_START"@ {
        BeatState { elems: st.elems.push(VexFlowElementView::SlurStart), table: st.table }
    } else if n.node_type@ == "SLUR_END"@ {
        BeatState { elems: st.elems.push(VexFlowElementView::SlurEnd), table: st.table }
    } else if n.node_type@ == "PITCH"@ {
        match n.pitch_code {
            Some(pc) => {
                let (letter, desired) = transposed_pitch(pc, key);
                let (t2, (show, sym)) = check_note(st.table, unicode_lowercase(letter), desired);
                let keyname = letter + "/"@ + int_decimal(vexflow_octave(match n.octave { Some(o) => o, None => 0i8 }));
                let accs = if show && sym is Some { seq![(0usize, sym->0)] } else { Seq::empty() };
                let tag = duration_tag(n.value@);
                let notes = pitch_notes(keyname, tag_durations(tag), accs, tag, ties_to_next(beat, i, line, beat_idx, pc),
                    first_syllable(n.nodes@, 0));
                BeatState {
                    elems: st.elems + notes + mordent_views(n.nodes@, n.nodes@.len() as int, st.elems.len() as usize),
                    table: t2,
                }
            },
            None => st,
        }
    } else if n.node_type@ == "REST"@ {
        let tag = duration_tag(n.value@);
        BeatState { elems: st.elems + rest_views(tag_durations(tag), tag), table: st.table }
    } else {
        st
    }
}

/// The state after the first `k` children of a beat.
pub open spec fn beat_walk(st: BeatState, beat: Node, k: int, line: Seq<Node>, beat_idx: int, key: Option<&String>) -> BeatState
    decreases k,
{
    if k <= 0 { st } else { beat_step(beat_walk(st, beat, k - 1, line, beat_idx, key), beat, k - 1, line, beat_idx, key) }
}

/// Whether an element view takes part in beaming (see `is_beamable`).
pub open spec fn view_beamable(e: VexFlowElementView, in_tuplet: bool) -> bool {
    match e {
        VexFlowElementView::Note { duration, .. } => duration == "8"@ || duration == "16"@ || duration == "32"@ || (in_tuplet && duration == "q"@),
        _ => false,
    }
}

/// A note view with its beam flags set; other views are unchanged.
pub open spec fn view_with_beam(e: VexFlowElementView, starts: bool, ends: bool) -> VexFlowElementView {
    match e {
        VexFlowElementView::Note { keys, duration, dots, accidentals, tied, original_duration, beam_start: _, beam_end: _, syl } =>
            VexFlowElementView::Note { keys, duration, dots, accidentals, tied, original_duration, beam_start: starts, beam_end: ends, syl },
        _ => e,
    }
}

/// The views after beaming every maximal run of at least two beamable notes.
pub open spec fn beamed_views(vs: Seq<VexFlowElementView>, in_tuplet: bool) -> Seq<VexFlowElementView> {
    let flags = Seq::new(vs.len(), |i: int| view_beamable(vs[i], in_tuplet));
    Seq::new(vs.len(), |i: int| match beam_role(flags, i) {
        Some(role) => view_with_beam(vs[i], role.0, role.1),
        None => vs[i],
    })
}

/// Whether a beat of `d` divisions is a tuplet: more than one division and
/// not a power of two.
pub open spec fn is_tuplet_division(d: usize) -> bool {
    d > 1 && (d & ((d - 1) as usize)) != 0usize
}

/// What a beat adds to its stave: its elements beamed, wrapped in one tuplet
/// of its divisions when it is a tuplet beat with more than one element.
pub open spec fn beat_output(elems: Seq<VexFlowElementView>, divisions: usize) -> Seq<VexFlowElementView> {
    let t = is_tuplet_division(divisions);
    let beamed = beamed_views(elems, t);
    if t && beamed.len() > 1 {
        seq![VexFlowElementView::Tuplet { notes: beamed, divisions: divisions as u8 }]
    } else {
        beamed
    }
}

/// Whether the duration tags of a beat's pitches and rests can be read:
/// no `]` comes before the first `[`.
pub open spec fn beat_tags_ordered(beat: Node) -> bool {
    forall|i: int| 0 <= i < beat.nodes@.len() ==> (
        (#[trigger] beat.nodes@[i]).node_type@ == "PITCH"@ || beat.nodes@[i].node_type@ == "REST"@
        ==> brackets_ordered(beat.nodes@[i].value@))
}

fn first_of_type_of(nodes: &Vec<Node>, from: usize, t: &str) -> (r: Option<usize>)
    ensures
        match r {
            Some(j) => first_of_type(nodes@, from as int, t@) == Some(j as int) && j < nodes@.len(),
            None => first_of_type(nodes@, from as int, t@) is None,
        },
    decreases nodes@.len() - from,
{
    if from >= nodes.len() {
        None
    } else if str_eq(nodes[from].node_type.as_str(), t) {
        Some(from)
    } else {
        first_of_type_of(nodes, from + 1, t)
    }
}

fn ties_to_next_of(beat: &Node, i: usize, line: &Vec<Node>, beat_idx: usize, pc: PitchCode) -> (r: bool)
    requires
        i < usize::MAX,
        beat_idx < usize::MAX,
    ensures
        r == ties_to_next(*beat, i as int, line@, beat_idx as int, pc),
{
    proof { reveal_strlit("PITCH"); reveal_strlit("BEAT"); }
    let within = match first_of_type_of(&beat.nodes, i + 1, "PITCH") {
        Some(j) => beat.nodes[j].dash_consumed && beat.nodes[j].pitch_code == Some(pc),
        None => false,
    };
    if within {
        return true;
    }
    match first_of_type_of(line, beat_idx + 1, "BEAT") {
        Some(b) => match first_of_type_of(&line[b].nodes, 0, "PITCH") {
            Some(p) => line[b].nodes[p].dash_consumed && line[b].nodes[p].pitch_code == Some(pc),
            None => false,
        },
        None => false,
    }
}

fn first_syllable_of(children: &Vec<Node>, from: usize) -> (r: Option<String>)
    ensures
        opt_string_view(r) == first_syllable(children@, from as int),
    decreases children@.len() - from,
{
    if from >= children.len() {
        None
    } else if str_eq(children[from].node_type.as_str(), "SYL") && trim_str(children[from].value.as_str()).unicode_len() > 0 {
        Some(copy_string(&children[from].value))
    } else {
        first_syllable_of(children, from + 1)
    }
}

fn octave_number(octave: Option<i8>) -> (r: i64)
    ensures
        r == vexflow_octave(match octave { Some(o) => o, None => 0i8 }),
{
    let o = match octave { Some(o) => o, None => 0 };
    if o == -2 { 2 } else if o == -1 { 3 } else if o == 0 { 4 } else if o == 1 { 5 } else if o == 2 { 6 } else { 4 }
}

fn make_accidentals(show: bool, sym: &Option<String>) -> (r: Vec<VexFlowAccidental>)
    ensures
        accidental_views(r@) == (if show && sym is Some { seq![(0usize, sym->0@)] } else { Seq::<(usize, Seq<char>)>::empty() }),
{
    let mut v: Vec<VexFlowAccidental> = Vec::new();
    if show {
        match sym {
            Some(s) => {
                v.push(VexFlowAccidental { index: 0, accidental: copy_string(s) });
            },
            None => {},
        }
    }
    assert(accidental_views(v@) =~= (if show && sym is Some { seq![(0usize, sym->0@)] } else { Seq::<(usize, Seq<char>)>::empty() }));
    v
}

fn copy_opt(s: &Option<String>) -> (r: Option<String>)
    ensures
        opt_string_view(r) == opt_string_view(*s),
{
    match s {
        Some(x) => Some(copy_string(x)),
        None => None,
    }
}

/// Whether no element is a tuplet.
pub open spec fn no_tuplets(s: Seq<VexFlowElement>) -> bool {
    forall|j: int| 0 <= j < s.len() ==> !(#[trigger] s[j] is Tuplet)
}

fn push_view(v: &mut Vec<VexFlowElement>, e: VexFlowElement)
    requires
        !(e is Tuplet),
        no_tuplets(old(v)@),
    ensures
        shallow_views(final(v)@) == shallow_views(old(v)@).push(shallow_view(e)),
        no_tuplets(final(v)@),
{
    let ghost before = v@;
    v.push(e);
    assert(shallow_views(v@) =~= shallow_views(before).push(shallow_view(e)));
}

fn add_pitch(beat_elements: &mut Vec<VexFlowElement>, beat: &Node, i: usize, pc: PitchCode, line: &Vec<Node>, beat_idx: usize,
    key: Option<&String>, table: &mut NoteAccidentalTable, Ghost(st): Ghost<BeatState>)
    requires
        i < beat.nodes@.len(),
        beat_idx < usize::MAX,
        beat.nodes@[i as int].pitch_code == Some(pc),
        brackets_ordered(beat.nodes@[i as int].value@),
        old(table).wf(),
        old(table)@ == st.table,
        shallow_views(old(beat_elements)@) == st.elems,
        no_tuplets(old(beat_elements)@),
    ensures
        final(table).wf(),
        no_tuplets(final(beat_elements)@),
        ({
            let n = beat.nodes@[i as int];
            let (letter, desired) = transposed_pitch(pc, key);
            let (t2, (show, sym)) = check_note(st.table, unicode_lowercase(letter), desired);
            let keyname = letter + "/"@ + int_decimal(vexflow_octave(match n.octave { Some(o) => o, None => 0i8 }));
            let accs = if show && sym is Some { seq![(0usize, sym->0)] } else { Seq::empty() };
            let tag = duration_tag(n.value@);
            let notes = pitch_notes(keyname, tag_durations(tag), accs, tag, ties_to_next(*beat, i as int, line@, beat_idx as int, pc),
                first_syllable(n.nodes@, 0));
            &&& shallow_views(final(beat_elements)@) == st.elems + notes + mordent_views(n.nodes@, n.nodes@.len() as int, st.elems.len() as usize)
            &&& final(table)@ == t2
        }),
{
    let n = &beat.nodes[i];
    let (letter, desired) = get_transposed_vexflow_pitch(pc, key);
    let desired_ref: Option<&str> = match &desired { Some(s) => Some(s.as_str()), None => None };
    proof {
        assert(opt_str_view(desired_ref) == opt_string_view(desired));
    }
    let (show, sym) = table.check_and_update_note(letter.as_str(), desired_ref);
    let mut keyname = copy_string(&letter);
    push_char(&mut keyname, '/');
    keyname.append(i64_to_string(octave_number(n.octave)).as_str());
    proof {
        reveal_strlit("/");
        assert(keyname@ =~= letter@ + "/"@ + int_decimal(vexflow_octave(match n.octave { Some(o) => o, None => 0i8 })));
    }
    let tag = duration_tag_of(n.value.as_str());
    let durs = tag_durations_of(tag.as_str());
    let first = beat_elements.len();
    let node_count = beat.nodes.len();
    assert(i < node_count);
    let tied0 = ties_to_next_of(beat, i, line, beat_idx, pc);
    let syl0 = first_syllable_of(&n.nodes, 0);
    let ghost accs = if show && sym is Some { seq![(0usize, sym->0@)] } else { Seq::<(usize, Seq<char>)>::empty() };
    let ghost notes = pitch_notes(keyname@, pair_views(durs@), accs, tag@, tied0, opt_string_view(syl0));
    let mut j: usize = 0;
    while j < durs.len()
        invariant
            j <= durs@.len(),
            first == st.elems.len(),
            notes.len() == durs@.len(),
            notes == pitch_notes(keyname@, pair_views(durs@), accs, tag@, tied0, opt_string_view(syl0)),
            accs == (if show && sym is Some { seq![(0usize, sym->0@)] } else { Seq::<(usize, Seq<char>)>::empty() }),
            shallow_views(beat_elements@) == st.elems + notes.take(j as int),
            no_tuplets(beat_elements@),
        decreases durs@.len() - j,
    {
        let mut keys: Vec<String> = Vec::new();
        keys.push(copy_string(&keyname));
        let dname = copy_string(&durs[j].0);
        let accv = make_accidentals(show, &sym);
        let od = Some(copy_string(&tag));
        let sylj = if j == 0 { copy_opt(&syl0) } else { None };
        proof {
            assert(texts(keys@) =~= seq![keyname@]);
            assert(pair_views(durs@)[j as int] == (durs@[j as int].0@, durs@[j as int].1));
            assert(opt_string_view(od) == Some(tag@));
            assert(opt_string_view(sylj) == (if j == 0 { opt_string_view(syl0) } else { None }));
        }
        let e = VexFlowElement::Note {
            keys,
            duration: dname,
            dots: durs[j].1,
            accidentals: accv,
            tied: j == 0 && tied0,
            original_duration: od,
            beam_start: false,
            beam_end: false,
            syl: sylj,
        };
        let ghost before = shallow_views(beat_elements@);
        proof {
            let pv = pair_views(durs@);
            assert(notes[j as int] == VexFlowElementView::Note {
                keys: seq![keyname@],
                duration: pv[j as int].0,
                dots: pv[j as int].1,
                accidentals: accs,
                tied: j == 0 && tied0,
                original_duration: Some(tag@),
                beam_start: false,
                beam_end: false,
                syl: if j == 0 { opt_string_view(syl0) } else { None },
            });
            assert(accidental_views(accv@) == accs);
            assert(shallow_view(e) == notes[j as int]);
        }
        push_view(beat_elements, e);
        j = j + 1;
        proof {
            assert(notes.take(j as int) =~= notes.take(j - 1).push(notes[j - 1]));
        }
    }
    assert(notes.take(durs@.len() as int) =~= notes);
    let ghost at_mordents = shallow_views(beat_elements@);
    let mut k: usize = 0;
    while k < n.nodes.len()
        invariant
            k <= n.nodes@.len(),
            shallow_views(beat_elements@) == at_mordents + mordent_views(n.nodes@, k as int, first),
            no_tuplets(beat_elements@),
        decreases n.nodes@.len() - k,
    {
        let child = &n.nodes[k];
        if str_eq(child.node_type.as_str(), "MORDENT") {
            let kind = if str_eq(child.value.as_str(), "~") { "upper".to_owned() } else { "lower".to_owned() };
            let ghost before = shallow_views(beat_elements@);
            push_view(beat_elements, VexFlowElement::Mordent { note_index: first, mordent_type: kind });
            proof {
                assert(shallow_views(beat_elements@) =~= at_mordents + mordent_views(n.nodes@, k + 1, first));
            }
        } else {
            proof {
                assert(mordent_views(n.nodes@, k + 1, first) == mordent_views(n.nodes@, k as int, first));
            }
        }
        k = k + 1;
    }
    proof {
        assert(shallow_views(beat_elements@) =~= st.elems + notes + mordent_views(n.nodes@, n.nodes@.len() as int, st.elems.len() as usize));
    }
}

/// Reads one beat node into its stave (see `beat_step` and `beat_output`),
/// updating the bar's accidental table.
pub fn process_beat(beat_node: &Node, stave: &mut VexFlowStave, transpose_key: Option<&String>,
    accidental_table: &mut NoteAccidentalTable, line_nodes: &Vec<Node>, beat_idx: usize) -> (r: Result<(), String>)
    requires
        old(accidental_table).wf(),
        beat_tags_ordered(*beat_node),
        beat_idx < usize::MAX,
    ensures
        r is Ok,
        final(accidental_table).wf(),
        final(stave).key_signature == old(stave).key_signature,
        ({
            let fin = beat_walk(BeatState { elems: Seq::empty(), table: old(accidental_table)@ }, *beat_node,
                beat_node.nodes@.len() as int, line_nodes@, beat_idx as int, transpose_key);
            &&& element_views(final(stave).notes@) == element_views(old(stave).notes@) + beat_output(fin.elems, beat_node.divisions)
            &&& final(accidental_table)@ == fin.table
        }),
{
    let ghost init = BeatState { elems: Seq::empty(), table: accidental_table@ };
    let mut beat_elements: Vec<VexFlowElement> = Vec::new();
    let mut i: usize = 0;
    while i < beat_node.nodes.len()
        invariant
            i <= beat_node.nodes@.len(),
            beat_idx < usize::MAX,
            beat_tags_ordered(*beat_node),
            accidental_table.wf(),
            no_tuplets(beat_elements@),
            shallow_views(beat_elements@) == beat_walk(init, *beat_node, i as int, line_nodes@, beat_idx as int, transpose_key).elems,
            accidental_table@ == beat_walk(init, *beat_node, i as int, line_nodes@, beat_idx as int, transpose_key).table,
        decreases beat_node.nodes@.len() - i,
    {
        let ghost st = beat_walk(init, *beat_node, i as int, line_nodes@, beat_idx as int, transpose_key);
        let n = &beat_node.nodes[i];
        proof {
            reveal_strlit("SLUR_START");
            reveal_strlit("SLUR_END");
            reveal_strlit("PITCH");
            reveal_strlit("REST");
        }
        if str_eq(n.node_type.as_str(), "SLUR_START") {
            push_view(&mut beat_elements, VexFlowElement::SlurStart);
        } else if str_eq(n.node_type.as_str(), "SLUR_END") {
            push_view(&mut beat_elements, VexFlowElement::SlurEnd);
        } else if str_eq(n.node_type.as_str(), "PITCH") {
            match n.pitch_code {
                Some(pc) => {
                    assert(beat_node.nodes@[i as int] == *n);
                    add_pitch(&mut beat_elements, beat_node, i, pc, line_nodes, beat_idx, transpose_key, accidental_table, Ghost(st));
                },
                None => {},
            }
        } else if str_eq(n.node_type.as_str(), "REST") {
            assert(beat_node.nodes@[i as int] == *n);
            let tag = duration_tag_of(n.value.as_str());
            let durs = tag_durations_of(tag.as_str());
            let ghost rests = rest_views(pair_views(durs@), tag@);
            let mut j: usize = 0;
            while j < durs.len()
                invariant
                    j <= durs@.len(),
                    rests == rest_views(pair_views(durs@), tag@),
                    shallow_views(beat_elements@) == st.elems + rests.take(j as int),
                    no_tuplets(beat_elements@),
                decreases durs@.len() - j,
            {
                let e = VexFlowElement::Rest { duration: copy_string(&durs[j].0), dots: durs[j].1, original_duration: Some(copy_string(&tag)) };
                proof {
                    assert(pair_views(durs@)[j as int] == (durs@[j as int].0@, durs@[j as int].1));
                    assert(shallow_view(e) == rests[j as int]);
                }
                push_view(&mut beat_elements, e);
                j = j + 1;
                proof {
                    assert(rests.take(j as int) =~= rests.take(j - 1).push(rests[j - 1]));
                }
            }
            assert(rests.take(durs@.len() as int) =~= rests);
        }
        i = i + 1;
    }
    let ghost fin = beat_walk(init, *beat_node, beat_node.nodes@.len() as int, line_nodes@, beat_idx as int, transpose_key);
    let d = beat_node.divisions;
    let is_tuplet = d > 1 && (d & (d - 1)) != 0;
    let ghost before = beat_elements@;
    apply_vexflow_beaming(&mut beat_elements, is_tuplet);
    proof {
        let flags = Seq::new(fin.elems.len(), |k: int| view_beamable(fin.elems[k], is_tuplet));
        assert(flags =~= crate::vexflow_fsm_converter::beamable_flags(before, is_tuplet));
        assert forall|k: int| 0 <= k < beat_elements@.len() implies !(#[trigger] beat_elements@[k] is Tuplet) by {
            assert(!(before[k] is Tuplet));
        }
        assert forall|k: int| 0 <= k < beat_elements@.len() implies #[trigger] shallow_views(beat_elements@)[k] == beamed_views(fin.elems, is_tuplet)[k] by {
            assert(shallow_views(before)[k] == shallow_view(before[k]));
        }
        assert(shallow_views(beat_elements@) =~= beamed_views(fin.elems, is_tuplet));
    }
    let ghost old_notes = element_views(stave.notes@);
    if is_tuplet && beat_elements.len() > 1 {
        let e = VexFlowElement::Tuplet { notes: beat_elements, divisions: d as u8 };
        let ghost pre = stave.notes@;
        stave.notes.push(e);
        proof {
            assert(element_views(stave.notes@) =~= element_views(pre).push(element_view(e)));
            assert(element_views(stave.notes@) =~= old_notes + beat_output(fin.elems, d));
        }
    } else {
        let ghost pre = stave.notes@;
        let ghost added = beat_elements@;
        stave.notes.append(&mut beat_elements);
        proof {
            assert forall|k: int| 0 <= k < added.len() implies element_view(#[trigger] added[k]) == shallow_view(added[k]) by {
                assert(!(added[k] is Tuplet));
            }
            assert(element_views(stave.notes@) =~= old_notes + beat_output(fin.elems, d));
        }
    }
    Ok(())
}

// ---------------------------------------------------------------------------
// Staves.

/// The VexFlow bar type of a bar line's text.
pub open spec fn bar_type(v: Seq<char>) -> Seq<char> {
    if v == "|:"@ { "repeat-begin"@ }
    else if v == ":|"@ { "repeat-end"@ }
    else if v == "||"@ { "double"@ }
    else if v == "|."@ { "final"@ }
    else if v == "||:"@ { "double-repeat-begin"@ }
    else if v == ":||"@ { "double-repeat-end"@ }
    else if v == "::"@ { "double-repeat"@ }
    else if v == "[:"@ { "repeat-begin"@ }
    else if v == ":]"@ { "repeat-end"@ }
    else { "single"@ }
}

fn bar_type_of(v: &str) -> (r: String)
    ensures
        r@ == bar_type(v@),
{
    let t = if str_eq(v, "|:") { "repeat-begin" }
        else if str_eq(v, ":|") { "repeat-end" }
        else if str_eq(v, "||") { "double" }
        else if str_eq(v, "|.") { "final" }
        else if str_eq(v, "||:") { "double-repeat-begin" }
        else if str_eq(v, ":||") { "double-repeat-end" }
        else if str_eq(v, "::") { "double-repeat" }
        else if str_eq(v, "[:") { "repeat-begin" }
        else if str_eq(v, ":]") { "repeat-end" }
        else { "single" };
    t.to_owned()
}

/// The state while reading a line: the stave's elements and the bar's
/// accidental table.
pub struct LineState {
    pub elems: Seq<VexFlowElementView>,
    pub table: Seq<Option<Seq<char>>>,
}

/// The state after the child `k` of a line: a beat adds what it gives (see
/// `process_beat`); a bar line resets the table to the key and adds a bar of
/// its type; breath marks and slur marks add themselves.
pub open spec fn line_step(st: LineState, line: Node, k: int, key: Option<&String>) -> LineState {
    let e = line.nodes@[k];
    if e.node_type@ == "BEAT"@ {
        let fin = beat_walk(BeatState { elems: Seq::empty(), table: st.table }, e, e.nodes@.len() as int, line.nodes@, k, key);
        LineState { elems: st.elems + beat_output(fin.elems, e.divisions), table: fin.table }
    } else if e.node_type@ == "BARLINE"@ {
        LineState { elems: st.elems.push(VexFlowElementView::BarLine { bar_type: bar_type(e.value@) }), table: initial_table(key) }
    } else if e.node_type@ == "BREATHMARK"@ {
        LineState { elems: st.elems.push(VexFlowElementView::Breathe), table: st.table }
    } else if e.node_type@ == "SLUR_START"@ {
        LineState { elems: st.elems.push(VexFlowElementView::SlurStart), table: st.table }
    } else if e.node_type@ == "SLUR_END"@ {
        LineState { elems: st.elems.push(VexFlowElementView::SlurEnd), table: st.table }
    } else {
        st
    }
}

/// The state after the first `k` children of a line.
pub open spec fn line_walk(st: LineState, line: Node, k: int, key: Option<&String>) -> LineState
    decreases k,
{
    if k <= 0 { st } else { line_step(line_walk(st, line, k - 1, key), line, k - 1, key) }
}

/// The elements of the stave of a line, starting from the key's table.
pub open spec fn line_stave(line: Node, key: Option<&String>) -> Seq<VexFlowElementView> {
    line_walk(LineState { elems: Seq::empty(), table: initial_table(key) }, line, line.nodes@.len() as int, key).elems
}

/// Whether the duration tags of every beat of a line can be read.
pub open spec fn line_tags_ordered(line: Node) -> bool {
    forall|k: int| 0 <= k < line.nodes@.len() ==> ((#[trigger] line.nodes@[k]).node_type@ == "BEAT"@ ==> beat_tags_ordered(line.nodes@[k]))
}

/// Whether the duration tags of every beat of every line can be read.
pub open spec fn document_tags_ordered(nodes: Seq<Node>) -> bool {
    forall|i: int| 0 <= i < nodes.len() ==> ((#[trigger] nodes[i]).node_type@ == "LINE"@ ==> line_tags_ordered(nodes[i]))
}

/// Index of the last `Key` directive among the first `n`.
pub open spec fn last_key_directive(ds: Seq<crate::structs_backup::Directive>, n: int) -> Option<int>
    decreases n,
{
    if n <= 0 { None } else if ds[n - 1].key@ == "Key"@ { Some(n - 1) } else { last_key_directive(ds, n - 1) }
}

/// The key a document is written in: the value of its (last) `Key` directive.
pub open spec fn document_key(document: &Document) -> Option<&String> {
    match last_key_directive(document.metadata.directives@, document.metadata.directives@.len() as int) {
        Some(i) => Some(&document.metadata.directives@[i].value),
        None => None,
    }
}

/// The staves of the first `n` nodes of a document: each `LINE` node whose
/// stave has elements, with the document's key.
pub open spec fn fsm_staves(nodes: Seq<Node>, n: int, key: Option<&String>) -> Seq<(Seq<VexFlowElementView>, Option<Seq<char>>)>
    decreases n,
{
    if n <= 0 {
        Seq::empty()
    } else {
        let prev = fsm_staves(nodes, n - 1, key);
        if nodes[n - 1].node_type@ == "LINE"@ && line_stave(nodes[n - 1], key).len() > 0 {
            prev.push((line_stave(nodes[n - 1], key), match key { Some(k) => Some(k@), None => None }))
        } else {
            prev
        }
    }
}

/// The views of staves: their elements and key.
pub open spec fn stave_views(v: Seq<VexFlowStave>) -> Seq<(Seq<VexFlowElementView>, Option<Seq<char>>)> {
    v.map_values(|s: VexFlowStave| (element_views(s.notes@), opt_string_view(s.key_signature)))
}

fn push_element(stave: &mut VexFlowStave, e: VexFlowElement)
    requires
        !(e is Tuplet),
    ensures
        element_views(final(stave).notes@) == element_views(old(stave).notes@).push(shallow_view(e)),
        final(stave).key_signature == old(stave).key_signature,
{
    let ghost before = stave.notes@;
    stave.notes.push(e);
    assert(element_views(stave.notes@) =~= element_views(before).push(shallow_view(e)));
}

fn find_key(document: &Document) -> (r: Option<&String>)
    ensures
        r == document_key(document),
{
    let ds = &document.metadata.directives;
    let mut i = ds.len();
    while i > 0
        invariant
            i <= ds@.len(),
            *ds == document.metadata.directives,
            last_key_directive(ds@, ds@.len() as int) == last_key_directive(ds@, i as int),
        decreases i,
    {
        proof { reveal_strlit("Key"); }
        if str_eq(ds[i - 1].key.as_str(), "Key") {
            let v = &ds[i - 1].value;
            proof {
                assert(last_key_directive(ds@, i as int) == Some(i - 1));
                assert(last_key_directive(document.metadata.directives@, document.metadata.directives@.len() as int) == Some(i - 1));
                assert(*v == document.metadata.directives@[i - 1].value);
            }
            return Some(v);
        }
        i = i - 1;
    }
    None
}

/// The stave of a `LINE` node (see `line_stave`).
fn line_to_stave(line: &Node, key: Option<&String>) -> (r: VexFlowStave)
    requires
        line_tags_ordered(*line),
    ensures
        element_views(r.notes@) == line_stave(*line, key),
        opt_string_view(r.key_signature) == (match key { Some(k) => Some(k@), None => None }),
{
    let mut stave = VexFlowStave {
        notes: Vec::new(),
        key_signature: match key { Some(k) => Some(copy_string(k)), None => None },
    };
    let mut table = NoteAccidentalTable::new(key);
    let ghost init = LineState { elems: Seq::empty(), table: initial_table(key) };
    assert(element_views(stave.notes@) =~= Seq::<VexFlowElementView>::empty());
    let mut k: usize = 0;
    while k < line.nodes.len()
        invariant
            k <= line.nodes@.len(),
            line_tags_ordered(*line),
            table.wf(),
            opt_string_view(stave.key_signature) == (match key { Some(kk) => Some(kk@), None => None }),
            element_views(stave.notes@) == line_walk(init, *line, k as int, key).elems,
            table@ == line_walk(init, *line, k as int, key).table,
        decreases line.nodes@.len() - k,
    {
        let e = &line.nodes[k];
        proof {
            reveal_strlit("BEAT");
            reveal_strlit("BARLINE");
            reveal_strlit("BREATHMARK");
            reveal_strlit("SLUR_START");
            reveal_strlit("SLUR_END");
            assert(line.nodes@[k as int] == *e);
        }
        if str_eq(e.node_type.as_str(), "BEAT") {
            let _ = process_beat(e, &mut stave, key, &mut table, &line.nodes, k);
        } else if str_eq(e.node_type.as_str(), "BARLINE") {
            table.reset_for_new_bar(key);
            push_element(&mut stave, VexFlowElement::BarLine { bar_type: bar_type_of(e.value.as_str()) });
        } else if str_eq(e.node_type.as_str(), "BREATHMARK") {
            push_element(&mut stave, VexFlowElement::Breathe);
        } else if str_eq(e.node_type.as_str(), "SLUR_START") {
            push_element(&mut stave, VexFlowElement::SlurStart);
        } else if str_eq(e.node_type.as_str(), "SLUR_END") {
            push_element(&mut stave, VexFlowElement::SlurEnd);
        }
        k = k + 1;
    }
    stave
}

/// The VexFlow staves of a node document (see `fsm_staves`), written in the
/// key of its `Key` directive.
pub fn convert_fsm_to_vexflow(document: &Document) -> (r: Result<Vec<VexFlowStave>, String>)
    requires
        document_tags_ordered(document.nodes@),
    ensures
        r matches Ok(v) && stave_views(v@) == fsm_staves(document.nodes@, document.nodes@.len() as int, document_key(document)),
{
    let key = find_key(document);
    let mut staves: Vec<VexFlowStave> = Vec::new();
    let mut i: usize = 0;
    while i < document.nodes.len()
        invariant
            i <= document.nodes@.len(),
            key == document_key(document),
            document_tags_ordered(document.nodes@),
            stave_views(staves@) == fsm_staves(document.nodes@, i as int, key),
        decreases document.nodes@.len() - i,
    {
        let line = &document.nodes[i];
        proof {
            reveal_strlit("LINE");
            assert(document.nodes@[i as int] == *line);
        }
        if str_eq(line.node_type.as_str(), "LINE") {
            let stave = line_to_stave(line, key);
            if stave.notes.len() > 0 {
                let ghost before = staves@;
                staves.push(stave);
                proof {
                    assert(stave_views(staves@) =~= stave_views(before).push((element_views(stave.notes@), opt_string_view(stave.key_signature))));
                }
            }
        }
        i = i + 1;
    }
    Ok(staves)
}

/// The first syllable of a pitch node: its first `SYL` child whose text is
/// not blank.
pub fn extract_syllable_from_node(node: &Node) -> (r: Option<String>)
    ensures
        opt_string_view(r) == first_syllable(node.nodes@, 0),
{
    first_syllable_of(&node.nodes, 0)
}

/// The first VexFlow duration of a fraction written as text (see
/// `parse_fraction` and `proper_durations`); text that writes no fraction is
/// refused with `Invalid fraction: ` and the text.
pub fn fraction_to_vexflow_duration(fraction_str: &str, _beat_divisions: usize) -> (r: Result<(String, u8), String>)
    ensures
        match r {
            Ok((name, dots)) => parse_fraction(fraction_str@) matches Some((n, d))
                && (name@, dots) == (if proper_durations(n, d).len() > 0 { proper_durations(n, d)[0] } else { ("q"@, 0u8) }),
            Err(e) => parse_fraction(fraction_str@) is None && e@ == "Invalid fraction: "@ + fraction_str@,
        },
{
    match parse_fraction_of(fraction_str) {
        Some((n, d)) => {
            let durations = fraction_to_vexflow_duration_proper(n, d);
            if durations.len() > 0 {
                proof {
                    assert(pair_views(durations@)[0] == (durations@[0].0@, durations@[0].1));
                }
                Ok((copy_string(&durations[0].0), durations[0].1))
            } else {
                Ok(("q".to_owned(), 0))
            }
        },
        None => {
            let mut e = "Invalid fraction: ".to_owned();
            e.append(fraction_str);
            Err(e)
        },
    }
}

} // verus!
