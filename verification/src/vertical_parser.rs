//! Vertical relationships between the lines of a notation: mordent symbols
//! above notes, syllables of lyrics, and slur underscores above runs of
//! notes.
use vstd::prelude::*;
use crate::text::str_eq;
use crate::models::{byte_len, copy_string};
use crate::structs_backup::Token;
use crate::rhythm::types::{Position, OrnamentType, ParsedChild, ParsedChildView, children_view};

verus! {

/// A note's role in a slur.
#[derive(Clone, Copy, Debug, PartialEq, Eq, Structural)]
pub enum SlurRole {
    Start,
    Middle,
    End,
    StartEnd,
}

/// An element placed on the grid of lines and columns.
#[derive(Debug)]
pub enum ParsedElement {
    Note { value: String, position: Position, children: Vec<ParsedChild>, slur: Option<SlurRole> },
    Symbol { value: String, position: Position },
    Word { text: String, position: Position },
    Other { value: String, position: Position },
}

/// An element as plain values.
pub enum ElementView {
    Note { value: Seq<char>, position: Position, children: Seq<ParsedChildView>, slur: Option<SlurRole> },
    Symbol { value: Seq<char>, position: Position },
    Word { text: Seq<char>, position: Position },
    Other { value: Seq<char>, position: Position },
}

impl View for ParsedElement {
    type V = ElementView;

    open spec fn view(&self) -> ElementView {
        match *self {
            ParsedElement::Note { value, position, children, slur } =>
                ElementView::Note { value: value@, position, children: children_view(children@), slur },
            ParsedElement::Symbol { value, position } => ElementView::Symbol { value: value@, position },
            ParsedElement::Word { text, position } => ElementView::Word { text: text@, position },
            ParsedElement::Other { value, position } => ElementView::Other { value: value@, position },
        }
    }
}

/// The views of a list of elements.
pub open spec fn views(s: Seq<ParsedElement>) -> Seq<ElementView> {
    s.map_values(|e: ParsedElement| e@)
}

/// The position of an element.
pub open spec fn pos_of(e: ElementView) -> Position {
    match e {
        ElementView::Note { position, .. } => position,
        ElementView::Symbol { position, .. } => position,
        ElementView::Word { position, .. } => position,
        ElementView::Other { position, .. } => position,
    }
}

/// Whether an element is a mordent symbol `~`.
pub open spec fn is_ornament(e: ElementView) -> bool {
    e matches ElementView::Symbol { value, .. } && value == "~"@
}

/// A note with a child appended; other elements are unchanged.
pub open spec fn with_child(e: ElementView, c: ParsedChildView) -> ElementView {
    match e {
        ElementView::Note { value, position, children, slur } => ElementView::Note { value, position, children: children.push(c), slur },
        _ => e,
    }
}

/// A note with its slur role set; other elements are unchanged.
pub open spec fn with_slur(e: ElementView, r: SlurRole) -> ElementView {
    match e {
        ElementView::Note { value, position, children, slur: _ } => ElementView::Note { value, position, children, slur: Some(r) },
        _ => e,
    }
}

/// Horizontal distance between two columns.
pub open spec fn col_distance(a: usize, b: usize) -> int {
    if a > b { a - b } else { b - a }
}

// ---------------------------------------------------------------------------
// Ornaments.

/// Among the first `k` elements, the first nearest mordent symbol not yet
/// taken on a line above `p`, with its distance.
pub open spec fn best_ornament(ev: Seq<ElementView>, taken: Set<int>, p: Position, k: int) -> Option<(int, int)>
    decreases k,
{
    if k <= 0 {
        None
    } else {
        let prev = best_ornament(ev, taken, p, k - 1);
        let o = ev[k - 1];
        if is_ornament(o) && !taken.contains(k - 1) && pos_of(o).row < p.row {
            let d = col_distance(p.col, pos_of(o).col);
            match prev {
                Some((_, bd)) => if d < bd { Some((k - 1, d)) } else { prev },
                None => Some((k - 1, d)),
            }
        } else {
            prev
        }
    }
}

/// The elements and taken symbols after the first `n` elements were visited:
/// each note takes its nearest free mordent above it when it is less than
/// five columns away.
pub open spec fn ornament_walk(ev: Seq<ElementView>, n: int) -> (Seq<ElementView>, Set<int>)
    decreases n,
{
    if n <= 0 {
        (ev, Set::empty())
    } else {
        let prev = ornament_walk(ev, n - 1);
        if ev[n - 1] is Note {
            match best_ornament(ev, prev.1, pos_of(ev[n - 1]), ev.len() as int) {
                Some((o, d)) => if d < 5 {
                    (prev.0.update(n - 1, with_child(prev.0[n - 1], ParsedChildView::Ornament { kind: OrnamentType::Mordent, distance: -1i8 })),
                        prev.1.insert(o))
                } else {
                    prev
                },
                None => prev,
            }
        } else {
            prev
        }
    }
}

/// The first `k` elements without those taken.
pub open spec fn retain_untaken(ev: Seq<ElementView>, taken: Set<int>, k: int) -> Seq<ElementView>
    decreases k,
{
    if k <= 0 {
        Seq::empty()
    } else if taken.contains(k - 1) {
        retain_untaken(ev, taken, k - 1)
    } else {
        retain_untaken(ev, taken, k - 1).push(ev[k - 1])
    }
}

/// The elements after mordents were attached and the attached symbols removed.
pub open spec fn ornaments_applied(ev: Seq<ElementView>) -> Seq<ElementView> {
    let w = ornament_walk(ev, ev.len() as int);
    retain_untaken(w.0, w.1, ev.len() as int)
}

// ---------------------------------------------------------------------------
// Syllables.

/// How many of the first `k` elements are notes.
pub open spec fn notes_before(ev: Seq<ElementView>, k: int) -> nat
    decreases k,
{
    if k <= 0 { 0 } else { notes_before(ev, k - 1) + if ev[k - 1] is Note { 1nat } else { 0nat } }
}

/// How many of the first `k` elements are words.
pub open spec fn words_before(ev: Seq<ElementView>, k: int) -> nat
    decreases k,
{
    if k <= 0 { 0 } else { words_before(ev, k - 1) + if ev[k - 1] is Word { 1nat } else { 0nat } }
}

/// The index of the `s`-th word among the first `k` elements.
pub open spec fn word_index(ev: Seq<ElementView>, s: nat, k: int) -> Option<int>
    decreases k,
{
    if k <= 0 {
        None
    } else if ev[k - 1] is Word && words_before(ev, k - 1) == s {
        Some(k - 1)
    } else {
        word_index(ev, s, k - 1)
    }
}

/// The text of a word.
pub open spec fn word_text(e: ElementView) -> Seq<char> {
    match e { ElementView::Word { text, .. } => text, _ => Seq::empty() }
}

/// The elements after the `s`-th word was given to the `s`-th note (for as
/// many as there are both).
pub open spec fn syllables_attached(ev: Seq<ElementView>) -> Seq<ElementView> {
    Seq::new(ev.len(), |i: int| {
        let r = notes_before(ev, i);
        if ev[i] is Note && r < words_before(ev, ev.len() as int) {
            match word_index(ev, r, ev.len() as int) {
                Some(w) => with_child(ev[i], ParsedChildView::Syllable { text: word_text(ev[w]), distance: 1i8 }),
                None => ev[i],
            }
        } else {
            ev[i]
        }
    })
}

/// Whether the element at `i` is a word given to a note.
pub open spec fn word_taken(ev: Seq<ElementView>, i: int) -> bool {
    0 <= i < ev.len() && ev[i] is Word && words_before(ev, i) < notes_before(ev, ev.len() as int)
}

/// Removal scan from `i`: an element whose position in the list as it now
/// stands was a taken word's position is removed and the scan stays there;
/// otherwise it moves on.
pub open spec fn removal_scan(s: Seq<ElementView>, taken: spec_fn(int) -> bool, i: int) -> Seq<ElementView>
    decreases s.len() - i,
{
    if i < 0 || i >= s.len() {
        s
    } else if taken(i) {
        removal_scan(s.remove(i), taken, i)
    } else {
        removal_scan(s, taken, i + 1)
    }
}

/// The elements after syllables were attached and the taken words removed
/// by the position scan (see `removal_scan`).
pub open spec fn syllables_applied(ev: Seq<ElementView>) -> Seq<ElementView> {
    removal_scan(syllables_attached(ev), |i: int| word_taken(ev, i), 0)
}

// ---------------------------------------------------------------------------
// Slurs.

/// The slur regions of the tokens: each `SLUR` token's line and the first
/// and last column of its underscores, in token order.
pub open spec fn slur_regions(tokens: Seq<Token>) -> Seq<(usize, usize, usize)>
    decreases tokens.len(),
{
    if tokens.len() == 0 {
        Seq::empty()
    } else {
        let prev = slur_regions(tokens.drop_last());
        let t = tokens.last();
        if t.token_type@ == "SLUR"@ {
            prev.push((t.line, t.col, (t.col + byte_len(t.value@) - 1) as usize))
        } else {
            prev
        }
    }
}

/// Whether a note belongs to a slur region on line `line` from column `s`
/// to `e`: it is one to three lines below and its column lies in the region
/// or at most three columns before or after it.
pub open spec fn in_region(e: ElementView, line: usize, s: usize, t: usize) -> bool {
    e is Note && {
        let p = pos_of(e);
        &&& line < p.row <= line + 3
        &&& ((s <= p.col <= t) || (p.col <= s && s - p.col <= 3) || (p.col > t && p.col - t <= 3))
    }
}

/// How many of the first `k` members of a region come before member `j` in
/// column order (ties kept in element order).
pub open spec fn region_rank(ev: Seq<ElementView>, line: usize, s: usize, t: usize, j: int, k: int) -> nat
    decreases k,
{
    if k <= 0 {
        0
    } else {
        let i = k - 1;
        region_rank(ev, line, s, t, j, k - 1) + if in_region(ev[i], line, s, t)
            && (pos_of(ev[i]).col < pos_of(ev[j]).col || (pos_of(ev[i]).col == pos_of(ev[j]).col && i < j)) { 1nat } else { 0nat }
    }
}

/// How many of the first `k` elements are members of a region.
pub open spec fn region_size(ev: Seq<ElementView>, line: usize, s: usize, t: usize, k: int) -> nat
    decreases k,
{
    if k <= 0 { 0 } else { region_size(ev, line, s, t, k - 1) + if in_region(ev[k - 1], line, s, t) { 1nat } else { 0nat } }
}

/// The role of the member of rank `r` among `n`.
pub open spec fn role_of(r: nat, n: nat) -> SlurRole {
    if r == 0 && n == 1 { SlurRole::StartEnd } else if r == 0 { SlurRole::Start } else if r == n - 1 { SlurRole::End } else { SlurRole::Middle }
}

/// The elements after the notes of one region took their roles.
pub open spec fn region_applied(ev: Seq<ElementView>, line: usize, s: usize, t: usize) -> Seq<ElementView> {
    Seq::new(ev.len(), |j: int| if in_region(ev[j], line, s, t) {
        with_slur(ev[j], role_of(region_rank(ev, line, s, t, j, ev.len() as int), region_size(ev, line, s, t, ev.len() as int)))
    } else {
        ev[j]
    })
}

/// The elements after the first `k` regions were applied in order.
pub open spec fn regions_applied(ev: Seq<ElementView>, rs: Seq<(usize, usize, usize)>, k: int) -> Seq<ElementView>
    decreases k,
{
    if k <= 0 { ev } else { region_applied(regions_applied(ev, rs, k - 1), rs[k - 1].0, rs[k - 1].1, rs[k - 1].2) }
}

/// Everything the vertical pass does: mordents, then syllables, then slurs.
pub open spec fn vertical_pass(ev: Seq<ElementView>, tokens: Seq<Token>) -> Seq<ElementView> {
    let e2 = syllables_applied(ornaments_applied(ev));
    let rs = slur_regions(tokens);
    regions_applied(e2, rs, rs.len() as int)
}

/// Whether the last column of each slur token is a column: it does not
/// fall before the first column of the line nor past the largest `usize`.
pub open spec fn slur_tokens_fit(tokens: Seq<Token>) -> bool {
    forall|i: int| 0 <= i < tokens.len() && (#[trigger] tokens[i]).token_type@ == "SLUR"@ ==> (
        tokens[i].col + byte_len(tokens[i].value@) >= 1 && tokens[i].col + byte_len(tokens[i].value@) <= usize::MAX)
}

// ---------------------------------------------------------------------------
// Computation.

/// Whether every column is within `isize` (distances are measured there).
pub open spec fn columns_fit(ev: Seq<ElementView>) -> bool {
    forall|i: int| 0 <= i < ev.len() ==> pos_of(#[trigger] ev[i]).col <= isize::MAX
}

fn position_of(e: &ParsedElement) -> (p: Position)
    ensures
        p == pos_of(e@),
{
    match e {
        ParsedElement::Note { position, .. } => *position,
        ParsedElement::Symbol { position, .. } => *position,
        ParsedElement::Word { position, .. } => *position,
        ParsedElement::Other { position, .. } => *position,
    }
}

fn is_ornament_exec(e: &ParsedElement) -> (r: bool)
    ensures
        r == is_ornament(e@),
{
    match e {
        ParsedElement::Symbol { value, .. } => str_eq(value.as_str(), "~"),
        _ => false,
    }
}

fn is_note_exec(e: &ParsedElement) -> (r: bool)
    ensures
        r == (e@ is Note),
{
    match e { ParsedElement::Note { .. } => true, _ => false }
}

fn add_child(elements: &mut Vec<ParsedElement>, idx: usize, child: ParsedChild)
    requires
        idx < old(elements)@.len(),
    ensures
        final(elements)@.len() == old(elements)@.len(),
        views(final(elements)@) == views(old(elements)@).update(idx as int, with_child(old(elements)@[idx as int]@, child@)),
{
    let ghost before = elements@;
    let e = elements.remove(idx);
    let updated = match e {
        ParsedElement::Note { value, position, mut children, slur } => {
            let ghost oc = children@;
            let ghost cv = child@;
            children.push(child);
            assert(children_view(children@) =~= children_view(oc).push(cv));
            ParsedElement::Note { value, position, children, slur }
        },
        other => other,
    };
    elements.insert(idx, updated);
    assert(views(elements@) =~= views(before).update(idx as int, with_child(before[idx as int]@, child@)));
}

fn set_slur(elements: &mut Vec<ParsedElement>, idx: usize, r: SlurRole)
    requires
        idx < old(elements)@.len(),
    ensures
        final(elements)@.len() == old(elements)@.len(),
        views(final(elements)@) == views(old(elements)@).update(idx as int, with_slur(old(elements)@[idx as int]@, r)),
{
    let ghost before = elements@;
    let e = elements.remove(idx);
    let updated = match e {
        ParsedElement::Note { value, position, children, slur: _ } => ParsedElement::Note { value, position, children, slur: Some(r) },
        other => other,
    };
    elements.insert(idx, updated);
    assert(views(elements@) =~= views(before).update(idx as int, with_slur(before[idx as int]@, r)));
}

proof fn lemma_best_ornament_bound(ev: Seq<ElementView>, taken: Set<int>, p: Position, k: int)
    ensures
        best_ornament(ev, taken, p, k) matches Some((o, d)) ==> 0 <= o < k && d >= 0,
    decreases k,
{
    if k > 0 {
        lemma_best_ornament_bound(ev, taken, p, k - 1);
    }
}

/// The ornament search over the original elements: `orn[i]` holds the
/// position of element `i` when it is a mordent symbol.
fn find_best_ornament(orn: &Vec<Option<Position>>, taken: &Vec<bool>, p: Position,
    Ghost(ev): Ghost<Seq<ElementView>>, Ghost(tk): Ghost<Set<int>>) -> (r: Option<(usize, usize)>)
    requires
        orn@.len() == ev.len(),
        taken@.len() == ev.len(),
        forall|i: int| 0 <= i < ev.len() ==> (#[trigger] orn@[i] is Some <==> is_ornament(ev[i])),
        forall|i: int| 0 <= i < ev.len() && is_ornament(ev[i]) ==> #[trigger] orn@[i] == Some(pos_of(ev[i])),
        forall|i: int| 0 <= i < ev.len() ==> (#[trigger] taken@[i] <==> tk.contains(i)),
    ensures
        match r {
            Some((o, d)) => best_ornament(ev, tk, p, ev.len() as int) == Some((o as int, d as int)),
            None => best_ornament(ev, tk, p, ev.len() as int) is None,
        },
{
    let mut best: Option<(usize, usize)> = None;
    let mut i: usize = 0;
    while i < orn.len()
        invariant
            orn@.len() == ev.len(),
            taken@.len() == ev.len(),
            forall|i: int| 0 <= i < ev.len() ==> (#[trigger] orn@[i] is Some <==> is_ornament(ev[i])),
            forall|i: int| 0 <= i < ev.len() && is_ornament(ev[i]) ==> #[trigger] orn@[i] == Some(pos_of(ev[i])),
            forall|i: int| 0 <= i < ev.len() ==> (#[trigger] taken@[i] <==> tk.contains(i)),
            i <= ev.len(),
            match best {
                Some((o, d)) => best_ornament(ev, tk, p, i as int) == Some((o as int, d as int)),
                None => best_ornament(ev, tk, p, i as int) is None,
            },
        decreases ev.len() - i,
    {
        proof { lemma_best_ornament_bound(ev, tk, p, i as int); }
        match orn[i] {
            Some(q) => {
                if !taken[i] && q.row < p.row {
                    let d = if p.col > q.col { p.col - q.col } else { q.col - p.col };
                    match best {
                        Some((_, bd)) => { if d < bd { best = Some((i, d)); } },
                        None => { best = Some((i, d)); },
                    }
                }
            },
            None => {},
        }
        i = i + 1;
    }
    best
}

proof fn lemma_ornament_walk_shape(ev: Seq<ElementView>, n: int)
    requires
        0 <= n <= ev.len(),
    ensures
        ornament_walk(ev, n).0.len() == ev.len(),
        forall|i: int| 0 <= i < ev.len() ==> #[trigger] ornament_walk(ev, n).0[i] == (if i < n { ornament_walk(ev, n).0[i] } else { ev[i] }),
        forall|o: int| ornament_walk(ev, n).1.contains(o) ==> 0 <= o < ev.len(),
    decreases n,
{
    if n > 0 {
        lemma_ornament_walk_shape(ev, n - 1);
        let prev = ornament_walk(ev, n - 1);
        if ev[n - 1] is Note {
            lemma_best_ornament_bound(ev, prev.1, pos_of(ev[n - 1]), ev.len() as int);
        }
    }
}

/// Attaches each note's nearest free mordent above it (under five columns
/// away) as a child and removes the attached symbols (see `ornaments_applied`).
pub fn apply_ornaments_to_elements(elements: &mut Vec<ParsedElement>)
    requires
        columns_fit(views(old(elements)@)),
    ensures
        views(final(elements)@) == ornaments_applied(views(old(elements)@)),
{
    let ghost ev = views(elements@);
    let n = elements.len();
    let mut orn: Vec<Option<Position>> = Vec::new();
    let mut taken: Vec<bool> = Vec::new();
    let mut i: usize = 0;
    while i < n
        invariant
            n == ev.len(),
            ev == views(elements@),
            i <= n,
            orn@.len() == i,
            taken@.len() == i,
            forall|j: int| 0 <= j < i ==> (#[trigger] orn@[j] is Some <==> is_ornament(ev[j])),
            forall|j: int| 0 <= j < i && is_ornament(ev[j]) ==> #[trigger] orn@[j] == Some(pos_of(ev[j])),
            forall|j: int| 0 <= j < i ==> !(#[trigger] taken@[j]),
        decreases n - i,
    {
        assert(ev[i as int] == elements@[i as int]@);
        if is_ornament_exec(&elements[i]) {
            orn.push(Some(position_of(&elements[i])));
        } else {
            orn.push(None);
        }
        taken.push(false);
        i = i + 1;
    }
    let mut k: usize = 0;
    while k < n
        invariant
            n == ev.len(),
            k <= n,
            orn@.len() == n,
            taken@.len() == n,
            forall|j: int| 0 <= j < n ==> (#[trigger] orn@[j] is Some <==> is_ornament(ev[j])),
            forall|j: int| 0 <= j < n && is_ornament(ev[j]) ==> #[trigger] orn@[j] == Some(pos_of(ev[j])),
            forall|j: int| 0 <= j < n ==> (#[trigger] taken@[j] <==> ornament_walk(ev, k as int).1.contains(j)),
            views(elements@) == ornament_walk(ev, k as int).0,
            elements@.len() == n,
        decreases n - k,
    {
        proof {
            lemma_ornament_walk_shape(ev, k as int);
            assert(views(elements@)[k as int] == ev[k as int]);
        }
        let ghost tk = ornament_walk(ev, k as int).1;
        if is_note_exec(&elements[k]) {
            let p = position_of(&elements[k]);
            match find_best_ornament(&orn, &taken, p, Ghost(ev), Ghost(tk)) {
                Some((o, d)) => {
                    proof { lemma_best_ornament_bound(ev, tk, p, ev.len() as int); }
                    if d < 5 {
                        add_child(elements, k, ParsedChild::Ornament { kind: OrnamentType::Mordent, distance: -1 });
                        taken.set(o, true);
                        proof {
                            assert(ornament_walk(ev, k + 1).1 == tk.insert(o as int));
                        }
                    }
                },
                None => {},
            }
        }
        k = k + 1;
    }
    proof { lemma_ornament_walk_shape(ev, n as int); }
    let ghost w = ornament_walk(ev, n as int);
    let mut kept: Vec<ParsedElement> = Vec::new();
    let mut j: usize = 0;
    let ghost all = elements@;
    while elements.len() > 0
        invariant
            n == ev.len(),
            j <= n,
            taken@.len() == n,
            forall|x: int| 0 <= x < n ==> (#[trigger] taken@[x] <==> w.1.contains(x)),
            views(all) == w.0,
            all.len() == n,
            elements@ == all.skip(j as int),
            views(kept@) == retain_untaken(w.0, w.1, j as int),
        decreases elements@.len(),
    {
        proof {
            assert(elements@.len() == n - j);
        }
        let e = elements.remove(0);
        proof {
            assert(e == all[j as int]);
            assert(w.0[j as int] == e@);
        }
        if taken[j] {
            proof {
                assert(views(kept@) == retain_untaken(w.0, w.1, j + 1));
            }
        } else {
            let ghost before = views(kept@);
            kept.push(e);
            proof {
                assert(views(kept@) =~= before.push(w.0[j as int]));
            }
        }
        j = j + 1;
        proof {
            assert(elements@ =~= all.skip(j as int));
        }
    }
    proof {
        assert(all.skip(j as int).len() == 0);
    }
    *elements = kept;
}

/// The texts of the words among the first `k` elements, in order.
pub open spec fn word_texts(ev: Seq<ElementView>, k: int) -> Seq<Seq<char>>
    decreases k,
{
    if k <= 0 { Seq::empty() } else if ev[k - 1] is Word { word_texts(ev, k - 1).push(word_text(ev[k - 1])) } else { word_texts(ev, k - 1) }
}

/// Whether the `s`-th word among the first `k` elements is found with the text
/// recorded for it.
pub open spec fn word_found(ev: Seq<ElementView>, s: nat, k: int) -> bool {
    match word_index(ev, s, k) {
        Some(w) => 0 <= w < k && word_text(ev[w]) == word_texts(ev, k)[s as int],
        None => false,
    }
}

proof fn lemma_word_texts(ev: Seq<ElementView>, k: int)
    requires
        0 <= k <= ev.len(),
    ensures
        word_texts(ev, k).len() == words_before(ev, k),
        forall|s: nat| s < words_before(ev, k) ==> #[trigger] word_found(ev, s, k),
    decreases k,
{
    if k > 0 {
        lemma_word_texts(ev, k - 1);
        assert forall|s: nat| s < words_before(ev, k) implies #[trigger] word_found(ev, s, k) by {
            if ev[k - 1] is Word && words_before(ev, k - 1) == s {
                assert(word_texts(ev, k) == word_texts(ev, k - 1).push(word_text(ev[k - 1])));
            } else {
                assert(s < words_before(ev, k - 1));
                assert(word_found(ev, s, k - 1));
                assert(word_index(ev, s, k) == word_index(ev, s, k - 1));
                if ev[k - 1] is Word {
                    assert(word_texts(ev, k)[s as int] == word_texts(ev, k - 1)[s as int]);
                }
            }
        }
    }
}

/// Gives the `s`-th word to the `s`-th note as a syllable child, for as many
/// as there are both, and removes the given words by the position scan (see
/// `syllables_applied`).
pub fn apply_syllables_to_elements(elements: &mut Vec<ParsedElement>)
    ensures
        views(final(elements)@) == syllables_applied(views(old(elements)@)),
{
    let ghost ev = views(elements@);
    let n = elements.len();
    let mut words: Vec<String> = Vec::new();
    let mut note_count: usize = 0;
    let mut i: usize = 0;
    while i < n
        invariant
            n == ev.len(),
            ev == views(elements@),
            i <= n,
            note_count == notes_before(ev, i as int),
            note_count <= i,
            words@.map_values(|w: String| w@) == word_texts(ev, i as int),
        decreases n - i,
    {
        assert(ev[i as int] == elements@[i as int]@);
        match &elements[i] {
            ParsedElement::Word { text, .. } => {
                let ghost before = words@.map_values(|w: String| w@);
                words.push(copy_string(text));
                assert(words@.map_values(|w: String| w@) =~= before.push(word_text(ev[i as int])));
            },
            ParsedElement::Note { .. } => { note_count = note_count + 1; },
            _ => {},
        }
        i = i + 1;
    }
    proof { lemma_word_texts(ev, n as int); }
    let total_words = words.len();
    let ghost att = syllables_attached(ev);
    let mut seen: usize = 0;
    let mut k: usize = 0;
    while k < n
        invariant
            n == ev.len(),
            k <= n,
            elements@.len() == n,
            att == syllables_attached(ev),
            seen == notes_before(ev, k as int),
            seen <= k,
            total_words == words_before(ev, n as int),
            words@.map_values(|w: String| w@) == word_texts(ev, n as int),
            word_texts(ev, n as int).len() == words_before(ev, n as int),
            forall|s: nat| s < words_before(ev, n as int) ==> #[trigger] word_found(ev, s, n as int),
            forall|j: int| 0 <= j < k ==> #[trigger] views(elements@)[j] == att[j],
            forall|j: int| k <= j < n ==> #[trigger] views(elements@)[j] == ev[j],
        decreases n - k,
    {
        assert(views(elements@)[k as int] == ev[k as int]);
        let ghost cur = views(elements@);
        if is_note_exec(&elements[k]) {
            if seen < total_words {
                proof {
                    assert(word_found(ev, seen as nat, n as int));
                }
                let text = copy_string(&words[seen]);
                proof {
                    assert(words@.map_values(|w: String| w@)[seen as int] == words@[seen as int]@);
                }
                add_child(elements, k, ParsedChild::Syllable { text, distance: 1 });
                proof {
                    assert(views(elements@)[k as int] == att[k as int]);
                }
            } else {
                assert(att[k as int] == ev[k as int]);
            }
            seen = seen + 1;
        } else {
            assert(att[k as int] == ev[k as int]);
        }
        proof {
            assert forall|j: int| 0 <= j < k + 1 implies #[trigger] views(elements@)[j] == att[j] by {
                if j < k { assert(views(elements@)[j] == cur[j]); }
            }
            assert forall|j: int| k + 1 <= j < n implies #[trigger] views(elements@)[j] == ev[j] by {
                assert(views(elements@)[j] == cur[j]);
            }
        }
        k = k + 1;
    }
    assert(views(elements@) =~= att);
    let mut taken: Vec<bool> = Vec::new();
    let mut before_words: usize = 0;
    let mut i2: usize = 0;
    let total_notes = seen;
    while i2 < n
        invariant
            n == ev.len(),
            i2 <= n,
            att == syllables_attached(ev),
            total_notes == notes_before(ev, n as int),
            before_words == words_before(ev, i2 as int),
            before_words <= i2,
            taken@.len() == i2,
            views(elements@) == att,
            elements@.len() == n,
            forall|j: int| 0 <= j < i2 ==> (#[trigger] taken@[j] <==> word_taken(ev, j)),
        decreases n - i2,
    {
        let is_word = match &elements[i2] { ParsedElement::Word { .. } => true, _ => false };
        proof {
            assert(views(elements@)[i2 as int] == att[i2 as int]);
            let e = ev[i2 as int];
            if e is Note && notes_before(ev, i2 as int) < words_before(ev, ev.len() as int) {
                match word_index(ev, notes_before(ev, i2 as int), ev.len() as int) {
                    Some(w) => { assert(att[i2 as int] == with_child(e, ParsedChildView::Syllable { text: word_text(ev[w]), distance: 1i8 })); },
                    None => { assert(att[i2 as int] == e); },
                }
            } else {
                assert(att[i2 as int] == e);
            }
            assert((att[i2 as int] is Word) == (ev[i2 as int] is Word));
        }
        taken.push(is_word && before_words < total_notes);
        if is_word { before_words = before_words + 1; }
        i2 = i2 + 1;
    }
    let ghost tf = |x: int| word_taken(ev, x);
    let mut p: usize = 0;
    proof {
        assert(views(elements@) == att);
    }
    while p < elements.len()
        invariant
            n == ev.len(),
            taken@.len() == n,
            forall|j: int| 0 <= j < n ==> (#[trigger] taken@[j] <==> word_taken(ev, j)),
            tf == (|x: int| word_taken(ev, x)),
            p <= elements@.len(),
            removal_scan(views(elements@), tf, p as int) == removal_scan(att, tf, 0),
        decreases elements@.len() - p,
    {
        if p < n && taken[p] {
            let ghost cur = views(elements@);
            let _ = elements.remove(p);
            proof {
                assert(tf(p as int));
                assert(views(elements@) =~= cur.remove(p as int));
            }
        } else {
            proof {
                assert(!tf(p as int));
            }
            p = p + 1;
        }
    }
}

fn text_len(s: &String) -> (n: usize)
    ensures
        n == byte_len(s@),
{
    s.as_str().len()
}

/// The slur regions of the tokens (see `slur_regions`).
pub fn collect_slur_regions(tokens: &[Token]) -> (r: Vec<(usize, usize, usize)>)
    requires
        slur_tokens_fit(tokens@),
    ensures
        r@ == slur_regions(tokens@),
{
    let mut out: Vec<(usize, usize, usize)> = Vec::new();
    let mut i: usize = 0;
    while i < tokens.len()
        invariant
            i <= tokens@.len(),
            slur_tokens_fit(tokens@),
            out@ == slur_regions(tokens@.take(i as int)),
        decreases tokens@.len() - i,
    {
        proof {
            assert(tokens@.take(i + 1).drop_last() =~= tokens@.take(i as int));
            assert(tokens@.take(i + 1).last() == tokens@[i as int]);
        }
        let t = &tokens[i];
        proof { reveal_strlit("SLUR"); }
        if str_eq(t.token_type.as_str(), "SLUR") {
            let len = text_len(&t.value);
            out.push((t.line, t.col, t.col + len - 1));
        }
        i = i + 1;
    }
    assert(tokens@.take(tokens@.len() as int) =~= tokens@);
    out
}

fn in_region_exec(e: &ParsedElement, line: usize, s: usize, t: usize) -> (r: bool)
    ensures
        r == in_region(e@, line, s, t),
{
    match e {
        ParsedElement::Note { position, .. } => {
            let row = position.row;
            let col = position.col;
            row > line && row - line <= 3
                && ((s <= col && col <= t) || (col <= s && s - col <= 3) || (col > t && col - t <= 3))
        },
        _ => false,
    }
}

fn apply_region(elements: &mut Vec<ParsedElement>, line: usize, s: usize, t: usize)
    ensures
        views(final(elements)@) == region_applied(views(old(elements)@), line, s, t),
{
    let ghost cur = views(elements@);
    let n = elements.len();
    let mut member: Vec<bool> = Vec::new();
    let mut size: usize = 0;
    let mut i: usize = 0;
    while i < n
        invariant
            n == cur.len(),
            cur == views(elements@),
            i <= n,
            member@.len() == i,
            size <= i,
            size == region_size(cur, line, s, t, i as int),
            forall|j: int| 0 <= j < i ==> (#[trigger] member@[j] <==> in_region(cur[j], line, s, t)),
        decreases n - i,
    {
        assert(cur[i as int] == elements@[i as int]@);
        let m = in_region_exec(&elements[i], line, s, t);
        member.push(m);
        if m { size = size + 1; }
        i = i + 1;
    }
    let mut roles: Vec<Option<SlurRole>> = Vec::new();
    let mut j: usize = 0;
    while j < n
        invariant
            n == cur.len(),
            cur == views(elements@),
            j <= n,
            member@.len() == n,
            size == region_size(cur, line, s, t, n as int),
            forall|x: int| 0 <= x < n ==> (#[trigger] member@[x] <==> in_region(cur[x], line, s, t)),
            roles@.len() == j,
            forall|x: int| 0 <= x < j ==> #[trigger] roles@[x] == (if in_region(cur[x], line, s, t) {
                Some(role_of(region_rank(cur, line, s, t, x, n as int), size as nat))
            } else {
                None
            }),
        decreases n - j,
    {
        if member[j] {
            let cj = position_of(&elements[j]).col;
            assert(cur[j as int] == elements@[j as int]@);
            let mut rank: usize = 0;
            let mut i3: usize = 0;
            while i3 < n
                invariant
                    n == cur.len(),
                    cur == views(elements@),
                    j < n,
                    i3 <= n,
                    cj == pos_of(cur[j as int]).col,
                    member@.len() == n,
                    forall|x: int| 0 <= x < n ==> (#[trigger] member@[x] <==> in_region(cur[x], line, s, t)),
                    rank <= i3,
                    rank == region_rank(cur, line, s, t, j as int, i3 as int),
                decreases n - i3,
            {
                assert(cur[i3 as int] == elements@[i3 as int]@);
                if member[i3] {
                    let ci = position_of(&elements[i3]).col;
                    if ci < cj || (ci == cj && i3 < j) {
                        rank = rank + 1;
                    }
                }
                i3 = i3 + 1;
            }
            let role = if rank == 0 && size == 1 {
                SlurRole::StartEnd
            } else if rank == 0 {
                SlurRole::Start
            } else if size > 0 && rank == size - 1 {
                SlurRole::End
            } else {
                SlurRole::Middle
            };
            roles.push(Some(role));
        } else {
            roles.push(None);
        }
        j = j + 1;
    }
    let ghost target = region_applied(cur, line, s, t);
    let mut k: usize = 0;
    while k < n
        invariant
            n == cur.len(),
            k <= n,
            elements@.len() == n,
            target == region_applied(cur, line, s, t),
            size == region_size(cur, line, s, t, n as int),
            roles@.len() == n,
            forall|x: int| 0 <= x < n ==> #[trigger] roles@[x] == (if in_region(cur[x], line, s, t) {
                Some(role_of(region_rank(cur, line, s, t, x, n as int), size as nat))
            } else {
                None
            }),
            forall|x: int| 0 <= x < k ==> #[trigger] views(elements@)[x] == target[x],
            forall|x: int| k <= x < n ==> #[trigger] views(elements@)[x] == cur[x],
        decreases n - k,
    {
        let ghost before = views(elements@);
        assert(roles@[k as int] == (if in_region(cur[k as int], line, s, t) {
            Some(role_of(region_rank(cur, line, s, t, k as int, n as int), size as nat))
        } else {
            None
        }));
        match roles[k] {
            Some(r) => {
                assert(before[k as int] == cur[k as int]);
                set_slur(elements, k, r);
            },
            None => {},
        }
        proof {
            assert forall|x: int| 0 <= x < k + 1 implies #[trigger] views(elements@)[x] == target[x] by {
                if x < k { assert(views(elements@)[x] == before[x]); }
            }
            assert forall|x: int| k + 1 <= x < n implies #[trigger] views(elements@)[x] == cur[x] by {
                assert(views(elements@)[x] == before[x]);
            }
        }
        k = k + 1;
    }
    assert(views(elements@) =~= target);
}

/// The vertical pass over parsed elements (see `vertical_pass`): mordent
/// symbols become ornaments of the notes below them, words become syllables
/// of the notes in order, and slur tokens give the notes under them their
/// slur roles, region after region in token order.
pub fn apply_slurs_and_regions_to_elements(elements: &mut Vec<ParsedElement>, tokens: &[Token])
    requires
        slur_tokens_fit(tokens@),
        columns_fit(views(old(elements)@)),
    ensures
        views(final(elements)@) == vertical_pass(views(old(elements)@), tokens@),
{
    apply_ornaments_to_elements(elements);
    apply_syllables_to_elements(elements);
    let regions = collect_slur_regions(tokens);
    let ghost e2 = views(elements@);
    let mut k: usize = 0;
    while k < regions.len()
        invariant
            k <= regions@.len(),
            views(elements@) == regions_applied(e2, regions@, k as int),
        decreases regions@.len() - k,
    {
        let (line, s, t) = regions[k];
        apply_region(elements, line, s, t);
        k = k + 1;
    }
}

} // verus!
