//! Spatial assignment: annotation symbols above and below the content line
//! (octave markers, mordents, slurs, beat groups, syllables) are consumed
//! and attached to the notes they stand over.
use vstd::prelude::*;
use crate::models::{
    UpperElement, LowerElement, UpperLine, LowerLine, LyricsLine, Syllable, byte_len, upper_taken, lower_taken,
    upper_value, lower_value,
};
use crate::text::{str_eq, nat_digits, u64_to_string, push_char};
use crate::rhythm::types::{
    ParsedElement, ParsedElementView, ParsedChild, ParsedChildView, OrnamentType, BeatGroupRole, elements_view,
    note_with_child, add_child_to_note, children_view, SlurPosition,
};

verus! {

/// An octave marker taken out of an annotation line.
#[derive(Clone, Debug, PartialEq)]
pub struct ConsumedMarker {
    pub octave_value: i8,
    pub char_index: usize,
    /// The marker as written (`.` or `:`).
    pub marker_symbol: String,
    /// Whether the marker stood in an upper line.
    pub is_upper: bool,
}

/// A slur taken out of an upper line.
#[derive(Clone, Debug, PartialEq)]
pub struct ConsumedSlur {
    pub start_pos: usize,
    pub end_pos: usize,
    pub char_index: usize,
}

/// A syllable taken out of a lyrics line.
#[derive(Clone, Debug, PartialEq)]
pub struct ConsumedSyllable {
    pub content: String,
    pub char_index: usize,
}

/// A beat group taken out of a lower line.
#[derive(Clone, Copy, Debug, PartialEq)]
pub struct ConsumedBeatGroup {
    pub start_pos: usize,
    pub end_pos: usize,
    pub char_index: usize,
    /// Number of underscores in the group.
    pub underscore_count: usize,
}

/// A mordent taken out of an upper line.
#[derive(Clone, Copy, Debug, PartialEq)]
pub struct ConsumedMordent {
    pub char_index: usize,
}

/// Columns that annotation elements advance over.  An annotation whose value
/// was already taken occupies no column; its position is recorded instead.
#[derive(Debug)]
pub struct PositionTracker {
    pub current_pos: usize,
    pub consumed_positions: Vec<usize>,
}

/// Columns an upper element advances the tracker by.
pub open spec fn upper_width(e: UpperElement) -> int {
    match e {
        UpperElement::Space { count, .. } => count as int,
        UpperElement::UpperOctaveMarker { value, .. } => if value is Some { 1 } else { 0 },
        UpperElement::SlurIndicator { value, indicator_value, .. } =>
            if value is Some { byte_len(indicator_value@) as int } else { 0 },
        _ => 1,
    }
}

/// Whether advancing over an upper element records its position as consumed.
pub open spec fn upper_records(e: UpperElement) -> bool {
    match e {
        UpperElement::UpperOctaveMarker { value, .. } => value is None,
        UpperElement::SlurIndicator { value, .. } => value is None,
        _ => false,
    }
}

/// Columns a lower element advances the tracker by.
pub open spec fn lower_width(e: LowerElement) -> int {
    match e {
        LowerElement::Space { count, .. } => count as int,
        LowerElement::LowerOctaveMarker { value, .. } => if value is Some { 1 } else { 0 },
        LowerElement::BeatGroupIndicator { value, indicator_value, .. } =>
            if value is Some { byte_len(indicator_value@) as int } else { 0 },
        _ => 1,
    }
}

/// Whether advancing over a lower element records its position as consumed.
pub open spec fn lower_records(e: LowerElement) -> bool {
    match e {
        LowerElement::LowerOctaveMarker { value, .. } => value is None,
        LowerElement::BeatGroupIndicator { value, .. } => value is None,
        _ => false,
    }
}

/// Column of the `i`-th element of an upper line.
pub open spec fn upper_offset(elems: Seq<UpperElement>, i: int) -> int
    decreases i,
{
    if i <= 0 { 0 } else { upper_offset(elems, i - 1) + upper_width(elems[i - 1]) }
}

/// Column of the `i`-th element of a lower line.
pub open spec fn lower_offset(elems: Seq<LowerElement>, i: int) -> int
    decreases i,
{
    if i <= 0 { 0 } else { lower_offset(elems, i - 1) + lower_width(elems[i - 1]) }
}

/// Columns grow along a line.
pub proof fn lemma_upper_offset_monotone(elems: Seq<UpperElement>, i: int, j: int)
    requires
        0 <= i <= j,
    ensures
        upper_offset(elems, i) <= upper_offset(elems, j),
    decreases j,
{
    if i < j {
        lemma_upper_offset_monotone(elems, i, j - 1);
        assert(upper_width(elems[j - 1]) >= 0);
    }
}

/// Columns grow along a line.
pub proof fn lemma_lower_offset_monotone(elems: Seq<LowerElement>, i: int, j: int)
    requires
        0 <= i <= j,
    ensures
        lower_offset(elems, i) <= lower_offset(elems, j),
    decreases j,
{
    if i < j {
        lemma_lower_offset_monotone(elems, i, j - 1);
        assert(lower_width(elems[j - 1]) >= 0);
    }
}

fn string_len(s: &String) -> (n: usize)
    ensures
        n == byte_len(s@),
{
    s.as_str().len()
}

impl PositionTracker {
    /// A tracker at column 0 with nothing recorded.
    pub fn new() -> (t: Self)
        ensures
            t.current_pos == 0,
            t.consumed_positions@.len() == 0,
    {
        PositionTracker { current_pos: 0, consumed_positions: Vec::new() }
    }

    /// Advances over an upper element and returns the column it starts at.
    pub fn advance_for_upper_element(&mut self, element: &UpperElement) -> (old_pos: usize)
        requires
            old(self).current_pos + upper_width(*element) <= usize::MAX,
        ensures
            old_pos == old(self).current_pos,
            final(self).current_pos == old(self).current_pos + upper_width(*element),
            final(self).consumed_positions@ == (if upper_records(*element) {
                old(self).consumed_positions@.push(old_pos)
            } else {
                old(self).consumed_positions@
            }),
    {
        let old_pos = self.current_pos;
        match element {
            UpperElement::Space { count, .. } => {
                self.current_pos = self.current_pos + *count;
            },
            UpperElement::UpperOctaveMarker { value, .. } => {
                if value.is_some() {
                    self.current_pos = self.current_pos + 1;
                } else {
                    self.consumed_positions.push(old_pos);
                }
            },
            UpperElement::SlurIndicator { value, indicator_value, .. } => {
                if value.is_some() {
                    self.current_pos = self.current_pos + string_len(indicator_value);
                } else {
                    self.consumed_positions.push(old_pos);
                }
            },
            _ => {
                self.current_pos = self.current_pos + 1;
            },
        }
        old_pos
    }

    /// Advances over a lower element and returns the column it starts at.
    pub fn advance_for_lower_element(&mut self, element: &LowerElement) -> (old_pos: usize)
        requires
            old(self).current_pos + lower_width(*element) <= usize::MAX,
        ensures
            old_pos == old(self).current_pos,
            final(self).current_pos == old(self).current_pos + lower_width(*element),
            final(self).consumed_positions@ == (if lower_records(*element) {
                old(self).consumed_positions@.push(old_pos)
            } else {
                old(self).consumed_positions@
            }),
    {
        let old_pos = self.current_pos;
        match element {
            LowerElement::Space { count, .. } => {
                self.current_pos = self.current_pos + *count;
            },
            LowerElement::LowerOctaveMarker { value, .. } => {
                if value.is_some() {
                    self.current_pos = self.current_pos + 1;
                } else {
                    self.consumed_positions.push(old_pos);
                }
            },
            LowerElement::BeatGroupIndicator { value, indicator_value, .. } => {
                if value.is_some() {
                    self.current_pos = self.current_pos + string_len(indicator_value);
                } else {
                    self.consumed_positions.push(old_pos);
                }
            },
            _ => {
                self.current_pos = self.current_pos + 1;
            },
        }
        old_pos
    }
}

/// Octave offset of a marker: `.` one octave, `:` two; negative below the line.
pub open spec fn octave_marker_value(marker: Seq<char>, is_upper: bool) -> i8 {
    let base: i8 = if marker == "."@ { 1 } else if marker == ":"@ { 2 } else { 0 };
    if is_upper { base } else { (-base) as i8 }
}

/// Converts an octave marker into its octave offset.
pub fn octave_marker_to_number(marker: &str, is_upper: bool) -> (r: i8)
    ensures
        r == octave_marker_value(marker@, is_upper),
{
    let base_value: i8 = if str_eq(marker, ".") { 1 } else if str_eq(marker, ":") { 2 } else { 0 };
    if is_upper { base_value } else { -base_value }
}

/// The markers consumed from the first `n` elements of an upper line, with their columns.
pub open spec fn upper_markers(elems: Seq<UpperElement>, n: int) -> Seq<(usize, ConsumedMarker)>
    decreases n,
{
    if n <= 0 {
        Seq::empty()
    } else {
        let prev = upper_markers(elems, n - 1);
        match elems[n - 1] {
            UpperElement::UpperOctaveMarker { marker, value, char_index } =>
                if value is Some {
                    prev.push((upper_offset(elems, n - 1) as usize, ConsumedMarker {
                        octave_value: octave_marker_value(marker@, true),
                        char_index,
                        marker_symbol: marker,
                        is_upper: true,
                    }))
                } else {
                    prev
                },
            _ => prev,
        }
    }
}

/// The markers consumed from the first `n` elements of a lower line, with their columns.
pub open spec fn lower_markers(elems: Seq<LowerElement>, n: int) -> Seq<(usize, ConsumedMarker)>
    decreases n,
{
    if n <= 0 {
        Seq::empty()
    } else {
        let prev = lower_markers(elems, n - 1);
        match elems[n - 1] {
            LowerElement::LowerOctaveMarker { marker, value, char_index } =>
                if value is Some {
                    prev.push((lower_offset(elems, n - 1) as usize, ConsumedMarker {
                        octave_value: octave_marker_value(marker@, false),
                        char_index,
                        marker_symbol: marker,
                        is_upper: false,
                    }))
                } else {
                    prev
                },
            _ => prev,
        }
    }
}

/// An upper element after its octave marker (if any) was consumed.
pub open spec fn upper_without_marker(e: UpperElement) -> UpperElement {
    if e is UpperOctaveMarker { upper_taken(e) } else { e }
}

/// A lower element after its octave marker (if any) was consumed.
pub open spec fn lower_without_marker(e: LowerElement) -> LowerElement {
    if e is LowerOctaveMarker { lower_taken(e) } else { e }
}

fn consume_upper_markers(upper_line: &UpperLine, consumed: &mut Vec<(usize, ConsumedMarker)>) -> (r: UpperLine)
    requires
        upper_offset(upper_line.elements@, upper_line.elements@.len() as int) <= usize::MAX,
    ensures
        final(consumed)@ == old(consumed)@ + upper_markers(upper_line.elements@, upper_line.elements@.len() as int),
        r.elements@ == upper_line.elements@.map_values(|e: UpperElement| upper_without_marker(e)),
        r.value == upper_line.value,
        r.char_index == upper_line.char_index,
{
    let ghost elems = upper_line.elements@;
    let ghost start = consumed@;
    let mut tracker = PositionTracker::new();
    let mut elements: Vec<UpperElement> = Vec::new();
    let mut i: usize = 0;
    while i < upper_line.elements.len()
        invariant
            elems == upper_line.elements@,
            upper_offset(elems, elems.len() as int) <= usize::MAX,
            i <= elems.len(),
            tracker.current_pos == upper_offset(elems, i as int),
            consumed@ == start + upper_markers(elems, i as int),
            elements@ == elems.take(i as int).map_values(|e: UpperElement| upper_without_marker(e)),
        decreases elems.len() - i,
    {
        let element = &upper_line.elements[i];
        proof {
            lemma_upper_offset_monotone(elems, i + 1, elems.len() as int);
        }
        let pos = tracker.advance_for_upper_element(element);
        match element {
            UpperElement::UpperOctaveMarker { marker, value, char_index } => {
                if value.is_some() {
                    let consumed_marker = ConsumedMarker {
                        octave_value: octave_marker_to_number(marker.as_str(), true),
                        char_index: *char_index,
                        marker_symbol: marker.clone(),
                        is_upper: true,
                    };
                    consumed.push((pos, consumed_marker));
                }
                elements.push(element.taken());
            },
            _ => {
                elements.push(element.copy());
            },
        }
        i = i + 1;
        proof {
            assert(elems.take(i as int).drop_last() =~= elems.take(i - 1));
            assert(elements@ =~= elems.take(i as int).map_values(|e: UpperElement| upper_without_marker(e)));
            assert(consumed@ =~= start + upper_markers(elems, i as int));
        }
    }
    assert(elems.take(elems.len() as int) =~= elems);
    UpperLine { elements, value: crate::models::copy_opt_string(&upper_line.value), char_index: upper_line.char_index }
}

fn consume_lower_markers(lower_line: &LowerLine, consumed: &mut Vec<(usize, ConsumedMarker)>) -> (r: LowerLine)
    requires
        lower_offset(lower_line.elements@, lower_line.elements@.len() as int) <= usize::MAX,
    ensures
        final(consumed)@ == old(consumed)@ + lower_markers(lower_line.elements@, lower_line.elements@.len() as int),
        r.elements@ == lower_line.elements@.map_values(|e: LowerElement| lower_without_marker(e)),
        r.value == lower_line.value,
        r.char_index == lower_line.char_index,
{
    let ghost elems = lower_line.elements@;
    let ghost start = consumed@;
    let mut tracker = PositionTracker::new();
    let mut elements: Vec<LowerElement> = Vec::new();
    let mut i: usize = 0;
    while i < lower_line.elements.len()
        invariant
            elems == lower_line.elements@,
            lower_offset(elems, elems.len() as int) <= usize::MAX,
            i <= elems.len(),
            tracker.current_pos == lower_offset(elems, i as int),
            consumed@ == start + lower_markers(elems, i as int),
            elements@ == elems.take(i as int).map_values(|e: LowerElement| lower_without_marker(e)),
        decreases elems.len() - i,
    {
        let element = &lower_line.elements[i];
        proof {
            lemma_lower_offset_monotone(elems, i + 1, elems.len() as int);
        }
        let pos = tracker.advance_for_lower_element(element);
        match element {
            LowerElement::LowerOctaveMarker { marker, value, char_index } => {
                if value.is_some() {
                    let consumed_marker = ConsumedMarker {
                        octave_value: octave_marker_to_number(marker.as_str(), false),
                        char_index: *char_index,
                        marker_symbol: marker.clone(),
                        is_upper: false,
                    };
                    consumed.push((pos, consumed_marker));
                }
                elements.push(element.taken());
            },
            _ => {
                elements.push(element.copy());
            },
        }
        i = i + 1;
        proof {
            assert(elems.take(i as int).drop_last() =~= elems.take(i - 1));
            assert(elements@ =~= elems.take(i as int).map_values(|e: LowerElement| lower_without_marker(e)));
            assert(consumed@ =~= start + lower_markers(elems, i as int));
        }
    }
    assert(elems.take(elems.len() as int) =~= elems);
    LowerLine { elements, value: crate::models::copy_opt_string(&lower_line.value), char_index: lower_line.char_index }
}

/// Consumes the octave markers of an upper and a lower line: each marker that
/// still has its value is taken out of its line and returned with its column
/// and octave offset (upper markers first, then lower markers, each in line order).
pub fn consume_octave_markers(upper_line: UpperLine, lower_line: LowerLine)
    -> (r: (Vec<(usize, ConsumedMarker)>, UpperLine, LowerLine))
    requires
        upper_offset(upper_line.elements@, upper_line.elements@.len() as int) <= usize::MAX,
        lower_offset(lower_line.elements@, lower_line.elements@.len() as int) <= usize::MAX,
    ensures
        r.0@ == upper_markers(upper_line.elements@, upper_line.elements@.len() as int)
            + lower_markers(lower_line.elements@, lower_line.elements@.len() as int),
        r.1.elements@ == upper_line.elements@.map_values(|e: UpperElement| upper_without_marker(e)),
        r.1.value == upper_line.value,
        r.1.char_index == upper_line.char_index,
        r.2.elements@ == lower_line.elements@.map_values(|e: LowerElement| lower_without_marker(e)),
        r.2.value == lower_line.value,
        r.2.char_index == lower_line.char_index,
{
    let mut consumed: Vec<(usize, ConsumedMarker)> = Vec::new();
    let upper = consume_upper_markers(&upper_line, &mut consumed);
    let lower = consume_lower_markers(&lower_line, &mut consumed);
    assert(consumed@ =~= upper_markers(upper_line.elements@, upper_line.elements@.len() as int)
        + lower_markers(lower_line.elements@, lower_line.elements@.len() as int));
    (consumed, upper, lower)
}

/// The beat groups consumed from the first `n` elements of a lower line:
/// each indicator that still has its underscores yields a group spanning
/// as many columns as it has underscores, starting at its column.
pub open spec fn line_beat_groups(elems: Seq<LowerElement>, n: int) -> Seq<(usize, ConsumedBeatGroup)>
    decreases n,
{
    if n <= 0 {
        Seq::empty()
    } else {
        let prev = line_beat_groups(elems, n - 1);
        let pos = lower_offset(elems, n - 1);
        match elems[n - 1] {
            LowerElement::BeatGroupIndicator { value, char_index, .. } =>
                match value {
                    Some(u) => prev.push((pos as usize, ConsumedBeatGroup {
                        start_pos: pos as usize,
                        end_pos: (pos + byte_len(u@) - 1) as usize,
                        char_index,
                        underscore_count: byte_len(u@) as usize,
                    })),
                    None => prev,
                },
            _ => prev,
        }
    }
}

/// The beat groups consumed from the first `k` lower lines, line by line.
pub open spec fn lines_beat_groups(lines: Seq<LowerLine>, k: int) -> Seq<(usize, ConsumedBeatGroup)>
    decreases k,
{
    if k <= 0 {
        Seq::empty()
    } else {
        lines_beat_groups(lines, k - 1)
            + line_beat_groups(lines[k - 1].elements@, lines[k - 1].elements@.len() as int)
    }
}

/// A lower element after its beat group (if any) was consumed.
pub open spec fn lower_without_beat_group(e: LowerElement) -> LowerElement {
    if e is BeatGroupIndicator { lower_taken(e) } else { e }
}

/// A lower line whose columns fit in `usize` and whose beat group indicators
/// each hold at least one underscore, the last of which has a column too.
pub open spec fn beat_group_line_fits(elems: Seq<LowerElement>) -> bool {
    &&& lower_offset(elems, elems.len() as int) <= usize::MAX
    &&& forall|i: int| #![trigger elems[i]] 0 <= i < elems.len() && elems[i] is BeatGroupIndicator
        && lower_value(elems[i]) is Some ==> {
            let u = lower_value(elems[i])->0;
            1 <= byte_len(u@) && lower_offset(elems, i) + byte_len(u@) - 1 <= usize::MAX
        }
}

/// Consuming is final: once the beat groups of a line were consumed,
/// consuming the line again yields no beat group.
pub proof fn lemma_beat_groups_consumed_once(elems: Seq<LowerElement>, n: int)
    requires
        0 <= n <= elems.len(),
    ensures
        line_beat_groups(elems.map_values(|e: LowerElement| lower_without_beat_group(e)), n)
            == Seq::<(usize, ConsumedBeatGroup)>::empty(),
    decreases n,
{
    if n > 0 {
        lemma_beat_groups_consumed_once(elems, n - 1);
    }
}

/// Consuming is final: once the octave markers of two lines were consumed,
/// consuming them again yields no marker.
pub proof fn lemma_octave_markers_consumed_once(upper: Seq<UpperElement>, lower: Seq<LowerElement>, n: int, m: int)
    requires
        0 <= n <= upper.len(),
        0 <= m <= lower.len(),
    ensures
        upper_markers(upper.map_values(|e: UpperElement| upper_without_marker(e)), n)
            == Seq::<(usize, ConsumedMarker)>::empty(),
        lower_markers(lower.map_values(|e: LowerElement| lower_without_marker(e)), m)
            == Seq::<(usize, ConsumedMarker)>::empty(),
    decreases n + m,
{
    if n > 0 {
        lemma_octave_markers_consumed_once(upper, lower, n - 1, m);
    }
    if m > 0 {
        lemma_octave_markers_consumed_once(upper, lower, n, m - 1);
    }
}


fn consume_line_beat_groups(lower_line: &LowerLine, consumed: &mut Vec<(usize, ConsumedBeatGroup)>) -> (r: LowerLine)
    requires
        beat_group_line_fits(lower_line.elements@),
    ensures
        final(consumed)@ == old(consumed)@ + line_beat_groups(lower_line.elements@, lower_line.elements@.len() as int),
        r.elements@ == lower_line.elements@.map_values(|e: LowerElement| lower_without_beat_group(e)),
        r.value == lower_line.value,
        r.char_index == lower_line.char_index,
{
    let ghost elems = lower_line.elements@;
    let ghost start = consumed@;
    let mut tracker = PositionTracker::new();
    let mut elements: Vec<LowerElement> = Vec::new();
    let mut i: usize = 0;
    while i < lower_line.elements.len()
        invariant
            elems == lower_line.elements@,
            beat_group_line_fits(elems),
            i <= elems.len(),
            tracker.current_pos == lower_offset(elems, i as int),
            consumed@ == start + line_beat_groups(elems, i as int),
            elements@ == elems.take(i as int).map_values(|e: LowerElement| lower_without_beat_group(e)),
        decreases elems.len() - i,
    {
        let element = &lower_line.elements[i];
        proof {
            lemma_lower_offset_monotone(elems, i + 1, elems.len() as int);
        }
        let pos = tracker.advance_for_lower_element(element);
        match element {
            LowerElement::BeatGroupIndicator { value, char_index, .. } => {
                match value {
                    Some(underscores) => {
                        let n = string_len(underscores);
                        assert(lower_value(elems[i as int]) is Some);
                        let group = ConsumedBeatGroup {
                            start_pos: pos,
                            end_pos: pos + (n - 1),
                            char_index: *char_index,
                            underscore_count: n,
                        };
                        consumed.push((pos, group));
                    },
                    None => {},
                }
                elements.push(element.taken());
            },
            _ => {
                elements.push(element.copy());
            },
        }
        i = i + 1;
        proof {
            assert(elems.take(i as int).drop_last() =~= elems.take(i - 1));
            assert(elements@ =~= elems.take(i as int).map_values(|e: LowerElement| lower_without_beat_group(e)));
            assert(consumed@ =~= start + line_beat_groups(elems, i as int));
        }
    }
    assert(elems.take(elems.len() as int) =~= elems);
    LowerLine { elements, value: crate::models::copy_opt_string(&lower_line.value), char_index: lower_line.char_index }
}

/// Consumes the beat group indicators of the lower lines: each indicator that
/// still has its underscores is taken out of its line and returned with its
/// column and the columns it spans (lines in order, each in line order).
pub fn consume_beat_groups(lower_lines: Vec<LowerLine>) -> (r: (Vec<(usize, ConsumedBeatGroup)>, Vec<LowerLine>))
    requires
        forall|k: int| 0 <= k < lower_lines@.len() ==> beat_group_line_fits(#[trigger] lower_lines@[k].elements@),
    ensures
        r.0@ == lines_beat_groups(lower_lines@, lower_lines@.len() as int),
        r.1@.len() == lower_lines@.len(),
        forall|k: int| #![trigger r.1@[k]] 0 <= k < lower_lines@.len() ==> {
            &&& r.1@[k].elements@ == lower_lines@[k].elements@.map_values(|e: LowerElement| lower_without_beat_group(e))
            &&& r.1@[k].value == lower_lines@[k].value
            &&& r.1@[k].char_index == lower_lines@[k].char_index
        },
{
    let mut consumed: Vec<(usize, ConsumedBeatGroup)> = Vec::new();
    let mut lines: Vec<LowerLine> = Vec::new();
    let mut k: usize = 0;
    while k < lower_lines.len()
        invariant
            k <= lower_lines@.len(),
            forall|j: int| 0 <= j < lower_lines@.len() ==> beat_group_line_fits(#[trigger] lower_lines@[j].elements@),
            consumed@ == lines_beat_groups(lower_lines@, k as int),
            lines@.len() == k,
            forall|j: int| #![trigger lines@[j]] 0 <= j < k ==> {
                &&& lines@[j].elements@ == lower_lines@[j].elements@.map_values(|e: LowerElement| lower_without_beat_group(e))
                &&& lines@[j].value == lower_lines@[j].value
                &&& lines@[j].char_index == lower_lines@[j].char_index
            },
        decreases lower_lines@.len() - k,
    {
        let line = consume_line_beat_groups(&lower_lines[k], &mut consumed);
        lines.push(line);
        k = k + 1;
    }
    (consumed, lines)
}


/// The mordents consumed from the first `n` elements of an upper line, with their columns.
pub open spec fn upper_mordents(elems: Seq<UpperElement>, n: int) -> Seq<(usize, ConsumedMordent)>
    decreases n,
{
    if n <= 0 {
        Seq::empty()
    } else {
        let prev = upper_mordents(elems, n - 1);
        match elems[n - 1] {
            UpperElement::Mordent { value, char_index } =>
                if value is Some {
                    prev.push((upper_offset(elems, n - 1) as usize, ConsumedMordent { char_index }))
                } else {
                    prev
                },
            _ => prev,
        }
    }
}

/// An upper element after its mordent (if any) was consumed.
pub open spec fn upper_without_mordent(e: UpperElement) -> UpperElement {
    if e is Mordent { upper_taken(e) } else { e }
}

/// Consumes the mordents of an upper line, returning each with its column.
pub fn consume_mordents(upper_line: UpperLine) -> (r: (Vec<(usize, ConsumedMordent)>, UpperLine))
    requires
        upper_offset(upper_line.elements@, upper_line.elements@.len() as int) <= usize::MAX,
    ensures
        r.0@ == upper_mordents(upper_line.elements@, upper_line.elements@.len() as int),
        r.1.elements@ == upper_line.elements@.map_values(|e: UpperElement| upper_without_mordent(e)),
        r.1.value == upper_line.value,
        r.1.char_index == upper_line.char_index,
{
    let ghost elems = upper_line.elements@;
    let mut consumed: Vec<(usize, ConsumedMordent)> = Vec::new();
    let mut tracker = PositionTracker::new();
    let mut elements: Vec<UpperElement> = Vec::new();
    let mut i: usize = 0;
    while i < upper_line.elements.len()
        invariant
            elems == upper_line.elements@,
            upper_offset(elems, elems.len() as int) <= usize::MAX,
            i <= elems.len(),
            tracker.current_pos == upper_offset(elems, i as int),
            consumed@ == upper_mordents(elems, i as int),
            elements@ == elems.take(i as int).map_values(|e: UpperElement| upper_without_mordent(e)),
        decreases elems.len() - i,
    {
        let element = &upper_line.elements[i];
        proof {
            lemma_upper_offset_monotone(elems, i + 1, elems.len() as int);
        }
        let pos = tracker.advance_for_upper_element(element);
        match element {
            UpperElement::Mordent { value, char_index } => {
                if value.is_some() {
                    consumed.push((pos, ConsumedMordent { char_index: *char_index }));
                }
                elements.push(element.taken());
            },
            _ => {
                elements.push(element.copy());
            },
        }
        i = i + 1;
        proof {
            assert(elems.take(i as int).drop_last() =~= elems.take(i - 1));
            assert(elements@ =~= elems.take(i as int).map_values(|e: UpperElement| upper_without_mordent(e)));
        }
    }
    assert(elems.take(elems.len() as int) =~= elems);
    (consumed, UpperLine { elements, value: crate::models::copy_opt_string(&upper_line.value), char_index: upper_line.char_index })
}

/// `(char_index, index)` of each note among the first `n` elements.
pub open spec fn note_char_indices(elems: Seq<ParsedElementView>, n: int) -> Seq<(usize, usize)>
    decreases n,
{
    if n <= 0 {
        Seq::empty()
    } else {
        let prev = note_char_indices(elems, n - 1);
        match elems[n - 1] {
            ParsedElementView::Note { position, .. } => prev.push((position.char_index, (n - 1) as usize)),
            _ => prev,
        }
    }
}

/// The element index of the first entry (among the first `k`) at column `pos`.
pub open spec fn first_at(list: Seq<(usize, usize)>, pos: usize, k: int) -> Option<usize>
    decreases k,
{
    if k <= 0 {
        None
    } else {
        let prev = first_at(list, pos, k - 1);
        if prev is Some { prev } else if list[k - 1].0 == pos { Some(list[k - 1].1) } else { None }
    }
}

/// Distance between two columns.
pub open spec fn column_distance(a: usize, b: usize) -> usize {
    if a > b { (a - b) as usize } else { (b - a) as usize }
}

/// The element index of the entry (among the first `k`) nearest to `pos`; the
/// first of equally near entries wins, and an entry at distance `usize::MAX` is
/// never chosen.
pub open spec fn nearest_in(list: Seq<(usize, usize)>, pos: usize, k: int) -> Option<(usize, usize)>
    decreases k,
{
    if k <= 0 {
        None
    } else {
        let prev = nearest_in(list, pos, k - 1);
        let best: usize = if prev is Some { prev.unwrap().1 } else { usize::MAX };
        let d = column_distance(pos, list[k - 1].0);
        if d < best { Some((list[k - 1].1, d)) } else { prev }
    }
}

/// The ornament a mordent becomes on its note.
pub open spec fn mordent_child() -> ParsedChildView {
    ParsedChildView::Ornament { kind: OrnamentType::Mordent, distance: -1i8 }
}

/// Elements after the first `n` mordents were attached directly to the
/// note at their column, where there is one.
pub open spec fn mordents_direct(elems: Seq<ParsedElementView>, ms: Seq<(usize, ConsumedMordent)>, n: int)
    -> Seq<ParsedElementView>
    decreases n,
{
    if n <= 0 {
        elems
    } else {
        let prev = mordents_direct(elems, ms, n - 1);
        let notes = note_char_indices(elems, elems.len() as int);
        match first_at(notes, ms[n - 1].0, notes.len() as int) {
            Some(i) => prev.update(i as int, note_with_child(prev[i as int], mordent_child(), None)),
            None => prev,
        }
    }
}

/// The first `n` mordents that stand over no note.
pub open spec fn mordents_unmatched(elems: Seq<ParsedElementView>, ms: Seq<(usize, ConsumedMordent)>, n: int)
    -> Seq<(usize, ConsumedMordent)>
    decreases n,
{
    if n <= 0 {
        Seq::empty()
    } else {
        let prev = mordents_unmatched(elems, ms, n - 1);
        let notes = note_char_indices(elems, elems.len() as int);
        if first_at(notes, ms[n - 1].0, notes.len() as int) is Some { prev } else { prev.push(ms[n - 1]) }
    }
}

/// Indices listed by `note_char_indices` are in range.
pub proof fn lemma_note_indices_in_range(elems: Seq<ParsedElementView>, n: int)
    requires
        0 <= n <= elems.len(),
    ensures
        forall|j: int| 0 <= j < note_char_indices(elems, n).len() ==>
            (#[trigger] note_char_indices(elems, n)[j]).1 < n,
    decreases n,
{
    if n > 0 {
        lemma_note_indices_in_range(elems, n - 1);
        let prev = note_char_indices(elems, n - 1);
        let cur = note_char_indices(elems, n);
        assert forall|j: int| 0 <= j < cur.len() implies (#[trigger] cur[j]).1 < n by {
            if j < prev.len() {
                assert(cur[j] == prev[j]);
            }
        }
    }
}

fn collect_note_char_indices(elements: &Vec<ParsedElement>) -> (r: Vec<(usize, usize)>)
    ensures
        r@ == note_char_indices(elements_view(elements@), elements@.len() as int),
{
    let ghost ev = elements_view(elements@);
    let mut r: Vec<(usize, usize)> = Vec::new();
    let mut i: usize = 0;
    while i < elements.len()
        invariant
            ev == elements_view(elements@),
            i <= elements.len(),
            r@ == note_char_indices(ev, i as int),
        decreases elements.len() - i,
    {
        match &elements[i] {
            ParsedElement::Note { position, .. } => {
                r.push((position.char_index, i));
            },
            _ => {},
        }
        i = i + 1;
    }
    r
}

fn find_first_at(list: &Vec<(usize, usize)>, pos: usize) -> (r: Option<usize>)
    ensures
        r == first_at(list@, pos, list@.len() as int),
{
    let mut k: usize = 0;
    while k < list.len()
        invariant
            k <= list.len(),
            first_at(list@, pos, k as int) is None,
        decreases list.len() - k,
    {
        if list[k].0 == pos {
            proof {
                let ghost j = (k + 1) as int;
                assert(first_at(list@, pos, j) == Some(list@[k as int].1));
                lemma_first_at_stable(list@, pos, j, list@.len() as int);
            }
            return Some(list[k].1);
        }
        k = k + 1;
    }
    None
}

/// Once found, the first match stays the first match.
pub proof fn lemma_first_at_stable(list: Seq<(usize, usize)>, pos: usize, i: int, j: int)
    requires
        0 <= i <= j,
        first_at(list, pos, i) is Some,
    ensures
        first_at(list, pos, j) == first_at(list, pos, i),
    decreases j,
{
    if i < j {
        lemma_first_at_stable(list, pos, i, j - 1);
    }
}

fn find_nearest(list: &Vec<(usize, usize)>, pos: usize) -> (r: Option<usize>)
    ensures
        r == (if nearest_in(list@, pos, list@.len() as int) is Some {
            Some(nearest_in(list@, pos, list@.len() as int).unwrap().0)
        } else {
            None::<usize>
        }),
{
    let mut best_distance: usize = usize::MAX;
    let mut best: Option<usize> = None;
    let mut k: usize = 0;
    while k < list.len()
        invariant
            k <= list.len(),
            nearest_in(list@, pos, k as int) is Some ==> best == Some(nearest_in(list@, pos, k as int).unwrap().0)
                && best_distance == nearest_in(list@, pos, k as int).unwrap().1,
            nearest_in(list@, pos, k as int) is None ==> best is None && best_distance == usize::MAX,
        decreases list.len() - k,
    {
        let note_pos = list[k].0;
        let distance = if pos > note_pos { pos - note_pos } else { note_pos - pos };
        if distance < best_distance {
            best_distance = distance;
            best = Some(list[k].1);
        }
        k = k + 1;
    }
    best
}

/// Attaches each mordent to the note at exactly its column (the first such
/// note); mordents with no note at their column are returned.
pub fn assign_mordents_direct(content_elements: Vec<ParsedElement>, consumed_mordents: Vec<(usize, ConsumedMordent)>)
    -> (r: (Vec<ParsedElement>, Vec<(usize, ConsumedMordent)>))
    ensures
        elements_view(r.0@) == mordents_direct(elements_view(content_elements@), consumed_mordents@,
            consumed_mordents@.len() as int),
        r.1@ == mordents_unmatched(elements_view(content_elements@), consumed_mordents@,
            consumed_mordents@.len() as int),
{
    let ghost orig = elements_view(content_elements@);
    let mut content_elements = content_elements;
    let note_positions = collect_note_char_indices(&content_elements);
    proof {
        lemma_note_indices_in_range(orig, orig.len() as int);
    }
    let mut remaining: Vec<(usize, ConsumedMordent)> = Vec::new();
    let mut m: usize = 0;
    while m < consumed_mordents.len()
        invariant
            m <= consumed_mordents.len(),
            note_positions@ == note_char_indices(orig, orig.len() as int),
            forall|j: int| 0 <= j < note_positions@.len() ==> (#[trigger] note_positions@[j]).1 < orig.len(),
            elements_view(content_elements@) == mordents_direct(orig, consumed_mordents@, m as int),
            content_elements@.len() == orig.len(),
            remaining@ == mordents_unmatched(orig, consumed_mordents@, m as int),
        decreases consumed_mordents.len() - m,
    {
        let (mordent_pos, mordent) = consumed_mordents[m];
        let hit = find_first_at(&note_positions, mordent_pos);
        match hit {
            Some(idx) => {
                proof {
                    lemma_first_at_in_list(note_positions@, mordent_pos, note_positions@.len() as int);
                }
                add_child_to_note(&mut content_elements, idx,
                    ParsedChild::Ornament { kind: OrnamentType::Mordent, distance: -1 }, None);
            },
            None => {
                remaining.push((mordent_pos, mordent));
            },
        }
        m = m + 1;
    }
    (content_elements, remaining)
}

/// A match found by `first_at` is an element index listed in the list.
pub proof fn lemma_first_at_in_list(list: Seq<(usize, usize)>, pos: usize, k: int)
    requires
        0 <= k <= list.len(),
    ensures
        first_at(list, pos, k) matches Some(i) ==> exists|j: int| 0 <= j < k && #[trigger] list[j].1 == i,
    decreases k,
{
    if k > 0 {
        lemma_first_at_in_list(list, pos, k - 1);
        if first_at(list, pos, k - 1) is None && list[k - 1].0 == pos {
            assert(list[k - 1].1 == list[k - 1].1);
        }
    }
}

/// A match found by `nearest_in` is an element index listed in the list.
pub proof fn lemma_nearest_in_list(list: Seq<(usize, usize)>, pos: usize, k: int)
    requires
        0 <= k <= list.len(),
    ensures
        nearest_in(list, pos, k) matches Some(b) ==> exists|j: int| 0 <= j < k && #[trigger] list[j].1 == b.0,
    decreases k,
{
    if k > 0 {
        lemma_nearest_in_list(list, pos, k - 1);
    }
}

/// Elements after the first `n` mordents were attached to the note nearest
/// to their column.
pub open spec fn mordents_nearest(elems: Seq<ParsedElementView>, ms: Seq<(usize, ConsumedMordent)>, n: int)
    -> Seq<ParsedElementView>
    decreases n,
{
    if n <= 0 {
        elems
    } else {
        let prev = mordents_nearest(elems, ms, n - 1);
        let notes = note_char_indices(elems, elems.len() as int);
        match nearest_in(notes, ms[n - 1].0, notes.len() as int) {
            Some(b) => prev.update(b.0 as int, note_with_child(prev[b.0 as int], mordent_child(), None)),
            None => prev,
        }
    }
}

/// Attaches each remaining mordent to the note nearest to its column.
pub fn assign_mordents_nearest(content_elements: Vec<ParsedElement>, remaining_mordents: Vec<(usize, ConsumedMordent)>)
    -> (r: Vec<ParsedElement>)
    ensures
        elements_view(r@) == mordents_nearest(elements_view(content_elements@), remaining_mordents@,
            remaining_mordents@.len() as int),
{
    let ghost orig = elements_view(content_elements@);
    let mut content_elements = content_elements;
    let note_positions = collect_note_char_indices(&content_elements);
    proof {
        lemma_note_indices_in_range(orig, orig.len() as int);
    }
    let mut m: usize = 0;
    while m < remaining_mordents.len()
        invariant
            m <= remaining_mordents.len(),
            note_positions@ == note_char_indices(orig, orig.len() as int),
            forall|j: int| 0 <= j < note_positions@.len() ==> (#[trigger] note_positions@[j]).1 < orig.len(),
            elements_view(content_elements@) == mordents_nearest(orig, remaining_mordents@, m as int),
            content_elements@.len() == orig.len(),
        decreases remaining_mordents.len() - m,
    {
        let mordent_pos = remaining_mordents[m].0;
        let hit = find_nearest(&note_positions, mordent_pos);
        proof {
            lemma_nearest_in_list(note_positions@, mordent_pos, note_positions@.len() as int);
        }
        match hit {
            Some(idx) => {
                add_child_to_note(&mut content_elements, idx,
                    ParsedChild::Ornament { kind: OrnamentType::Mordent, distance: -1 }, None);
            },
            None => {},
        }
        m = m + 1;
    }
    content_elements
}


/// The note (among the first `k` elements) with default octave 0 whose column
/// is nearest to `pos`, with its distance; the first of equally near notes wins.
pub open spec fn unassigned_nearest(elems: Seq<ParsedElementView>, pos: usize, k: int) -> Option<(usize, usize)>
    decreases k,
{
    if k <= 0 {
        None
    } else {
        let prev = unassigned_nearest(elems, pos, k - 1);
        let best: usize = if prev is Some { prev.unwrap().1 } else { usize::MAX };
        match elems[k - 1] {
            ParsedElementView::Note { octave, position, .. } =>
                if octave == 0 && column_distance(pos, position.col) < best {
                    Some(((k - 1) as usize, column_distance(pos, position.col)))
                } else {
                    prev
                },
            _ => prev,
        }
    }
}

/// The child an octave marker becomes on its note (above for upper markers).
pub open spec fn marker_child(m: ConsumedMarker) -> ParsedChildView {
    ParsedChildView::OctaveMarker { symbol: m.marker_symbol@, distance: if m.is_upper { -1i8 } else { 1i8 } }
}

/// Elements after the first `n` markers were assigned, each to the nearest note
/// still at octave 0, which takes the marker's octave and the marker as a child.
pub open spec fn markers_nearest(elems: Seq<ParsedElementView>, ms: Seq<(usize, ConsumedMarker)>, n: int)
    -> Seq<ParsedElementView>
    decreases n,
{
    if n <= 0 {
        elems
    } else {
        let prev = markers_nearest(elems, ms, n - 1);
        match unassigned_nearest(prev, ms[n - 1].0, prev.len() as int) {
            Some(b) => prev.update(b.0 as int, note_with_child(prev[b.0 as int], marker_child(ms[n - 1].1),
                Some(ms[n - 1].1.octave_value))),
            None => prev,
        }
    }
}

/// Markers only update existing positions.
pub proof fn lemma_markers_nearest_len(elems: Seq<ParsedElementView>, ms: Seq<(usize, ConsumedMarker)>, n: int)
    ensures
        markers_nearest(elems, ms, n).len() == elems.len(),
    decreases n,
{
    if n > 0 {
        lemma_markers_nearest_len(elems, ms, n - 1);
        let prev = markers_nearest(elems, ms, n - 1);
        lemma_unassigned_nearest_range(prev, ms[n - 1].0, prev.len() as int);
    }
}

/// The note found is among the elements searched.
pub proof fn lemma_unassigned_nearest_range(elems: Seq<ParsedElementView>, pos: usize, k: int)
    ensures
        unassigned_nearest(elems, pos, k) matches Some(b) ==> b.0 < k,
    decreases k,
{
    if k > 0 {
        lemma_unassigned_nearest_range(elems, pos, k - 1);
    }
}

fn find_unassigned_nearest(elements: &Vec<ParsedElement>, pos: usize) -> (r: Option<usize>)
    ensures
        r == (if unassigned_nearest(elements_view(elements@), pos, elements@.len() as int) is Some {
            Some(unassigned_nearest(elements_view(elements@), pos, elements@.len() as int).unwrap().0)
        } else {
            None::<usize>
        }),
{
    let ghost ev = elements_view(elements@);
    let mut best_distance: usize = usize::MAX;
    let mut best: Option<usize> = None;
    let mut k: usize = 0;
    while k < elements.len()
        invariant
            ev == elements_view(elements@),
            k <= elements.len(),
            unassigned_nearest(ev, pos, k as int) is Some ==>
                best == Some(unassigned_nearest(ev, pos, k as int).unwrap().0)
                && best_distance == unassigned_nearest(ev, pos, k as int).unwrap().1,
            unassigned_nearest(ev, pos, k as int) is None ==> best is None && best_distance == usize::MAX,
        decreases elements.len() - k,
    {
        match &elements[k] {
            ParsedElement::Note { octave, position, .. } => {
                if *octave == 0 {
                    let note_pos = position.col;
                    let distance = if pos > note_pos { pos - note_pos } else { note_pos - pos };
                    if distance < best_distance {
                        best_distance = distance;
                        best = Some(k);
                    }
                }
            },
            _ => {},
        }
        k = k + 1;
    }
    best
}

/// Assigns each remaining octave marker to the nearest note that still has the
/// default octave 0: the note takes the marker's octave and keeps the marker
/// as a child.  A marker with no such note is dropped.
pub fn assign_markers_nearest(content_elements: Vec<ParsedElement>, remaining_markers: Vec<(usize, ConsumedMarker)>)
    -> (r: Vec<ParsedElement>)
    ensures
        elements_view(r@) == markers_nearest(elements_view(content_elements@), remaining_markers@,
            remaining_markers@.len() as int),
{
    let ghost orig = elements_view(content_elements@);
    let mut content_elements = content_elements;
    let mut m: usize = 0;
    while m < remaining_markers.len()
        invariant
            m <= remaining_markers.len(),
            elements_view(content_elements@) == markers_nearest(orig, remaining_markers@, m as int),
        decreases remaining_markers.len() - m,
    {
        let marker_pos = remaining_markers[m].0;
        let marker = &remaining_markers[m].1;
        let hit = find_unassigned_nearest(&content_elements, marker_pos);
        proof {
            lemma_unassigned_nearest_range(elements_view(content_elements@), marker_pos, content_elements@.len() as int);
        }
        match hit {
            Some(idx) => {
                let distance: i8 = if marker.is_upper { -1 } else { 1 };
                let child = ParsedChild::OctaveMarker { symbol: marker.marker_symbol.clone(), distance };
                add_child_to_note(&mut content_elements, idx, child, Some(marker.octave_value));
            },
            None => {},
        }
        m = m + 1;
    }
    content_elements
}


/// An upper element after a slur of at least two underscores was consumed.
pub open spec fn upper_without_long_slur(e: UpperElement) -> UpperElement {
    if e matches UpperElement::SlurIndicator { indicator_value, .. } && byte_len(indicator_value@) >= 2 {
        upper_taken(e)
    } else {
        e
    }
}

/// The spans `(start, end)` of the slurs consumed from the first `n` elements
/// of an upper line: indicators of two or more underscores whose value is
/// still present, spanning their own columns.
pub open spec fn line_slur_spans(elems: Seq<UpperElement>, n: int) -> Seq<(usize, usize)>
    decreases n,
{
    if n <= 0 {
        Seq::empty()
    } else {
        let prev = line_slur_spans(elems, n - 1);
        match elems[n - 1] {
            UpperElement::SlurIndicator { value, indicator_value, .. } =>
                if value is Some && byte_len(indicator_value@) >= 2 {
                    prev.push((upper_offset(elems, n - 1) as usize,
                        (upper_offset(elems, n - 1) + byte_len(indicator_value@) - 1) as usize))
                } else {
                    prev
                },
            _ => prev,
        }
    }
}

/// Whether an element is a note whose character index lies in `[s, t]`.
pub open spec fn note_in_span(e: ParsedElementView, s: int, t: int) -> bool {
    e matches ParsedElementView::Note { position, .. } && s <= position.char_index && position.char_index <= t
}

/// How many of the elements `lo..hi` are notes in the span `[s, t]`.
pub open spec fn slur_note_count(ev: Seq<ParsedElementView>, lo: int, hi: int, s: int, t: int) -> nat
    decreases hi - lo,
{
    if hi <= lo {
        0
    } else {
        slur_note_count(ev, lo, hi - 1, s, t) + if note_in_span(ev[hi - 1], s, t) { 1nat } else { 0nat }
    }
}

/// Counting notes in a span splits at any middle index.
pub proof fn lemma_slur_note_count_split(ev: Seq<ParsedElementView>, lo: int, m: int, hi: int, s: int, t: int)
    requires
        lo <= m <= hi,
    ensures
        slur_note_count(ev, lo, hi, s, t) == slur_note_count(ev, lo, m, s, t) + slur_note_count(ev, m, hi, s, t),
    decreases hi - m,
{
    if m < hi {
        lemma_slur_note_count_split(ev, lo, m, hi - 1, s, t);
    }
}

/// A note with its slur position replaced; other elements are unchanged.
pub open spec fn note_with_slur(e: ParsedElementView, p: SlurPosition) -> ParsedElementView {
    match e {
        ParsedElementView::Note { degree, octave, value, position, children, duration, beat_group, slur_position, in_beat_group } =>
            ParsedElementView::Note { degree, octave, value, position, children, duration, beat_group, slur_position: p, in_beat_group },
        _ => e,
    }
}

/// The role of the `k`-th element under the slur `[s, t]`: the first note of
/// the span starts the slur, the last one ends it, those between are inside it.
pub open spec fn slur_role(ev: Seq<ParsedElementView>, k: int, s: int, t: int) -> SlurPosition {
    if slur_note_count(ev, 0, k, s, t) == 0 {
        SlurPosition::Start
    } else if slur_note_count(ev, k + 1, ev.len() as int, s, t) == 0 {
        SlurPosition::End
    } else {
        SlurPosition::Middle
    }
}

/// The elements after the notes in the span `[s, t]` took their slur roles.
pub open spec fn apply_slur(ev: Seq<ParsedElementView>, s: int, t: int) -> Seq<ParsedElementView> {
    Seq::new(ev.len(), |k: int| if note_in_span(ev[k], s, t) { note_with_slur(ev[k], slur_role(ev, k, s, t)) } else { ev[k] })
}

/// The elements after each slur span, in order, was assigned to its notes.
pub open spec fn apply_slurs(ev: Seq<ParsedElementView>, spans: Seq<(usize, usize)>) -> Seq<ParsedElementView>
    decreases spans.len(),
{
    if spans.len() == 0 {
        ev
    } else {
        apply_slur(apply_slurs(ev, spans.drop_last()), spans.last().0 as int, spans.last().1 as int)
    }
}

/// Replaces the slur position of the note at `idx`.
fn set_slur_position(elements: &mut Vec<ParsedElement>, idx: usize, p: SlurPosition)
    requires
        idx < old(elements)@.len(),
    ensures
        final(elements)@.len() == old(elements)@.len(),
        elements_view(final(elements)@) == elements_view(old(elements)@).update(
            idx as int, note_with_slur(old(elements)@[idx as int]@, p)),
{
    let ghost before = elements@;
    let e = elements.remove(idx);
    let updated = match e {
        ParsedElement::Note { degree, octave, value, position, children, duration, beat_group, slur_position, in_beat_group } =>
            ParsedElement::Note { degree, octave, value, position, children, duration, beat_group, slur_position: p, in_beat_group },
        other => other,
    };
    elements.insert(idx, updated);
    assert(elements_view(elements@) =~= elements_view(before).update(
        idx as int, note_with_slur(before[idx as int]@, p)));
}

/// Whether the element is a note whose character index lies in `[s, t]`.
fn is_note_in_span(e: &ParsedElement, s: usize, t: usize) -> (r: bool)
    ensures
        r == note_in_span(e@, s as int, t as int),
{
    match e {
        ParsedElement::Note { position, .. } => s <= position.char_index && position.char_index <= t,
        _ => false,
    }
}

/// Counts the notes in the span `[s, t]`.
fn count_span_notes(elements: &Vec<ParsedElement>, s: usize, t: usize) -> (n: usize)
    ensures
        n == slur_note_count(elements_view(elements@), 0, elements@.len() as int, s as int, t as int),
{
    let ghost ev = elements_view(elements@);
    let mut n: usize = 0;
    let mut k: usize = 0;
    while k < elements.len()
        invariant
            ev == elements_view(elements@),
            k <= elements@.len(),
            n <= k,
            n == slur_note_count(ev, 0, k as int, s as int, t as int),
        decreases elements@.len() - k,
    {
        if is_note_in_span(&elements[k], s, t) {
            n = n + 1;
        }
        k = k + 1;
    }
    n
}

/// Gives the notes in the span `[s, t]` their slur roles.
fn assign_slur_span(elements: &mut Vec<ParsedElement>, s: usize, t: usize)
    ensures
        elements_view(final(elements)@) == apply_slur(elements_view(old(elements)@), s as int, t as int),
{
    let ghost ev = elements_view(elements@);
    let total = count_span_notes(elements, s, t);
    let mut seen: usize = 0;
    let mut k: usize = 0;
    while k < elements.len()
        invariant
            elements@.len() == ev.len(),
            k <= ev.len(),
            seen == slur_note_count(ev, 0, k as int, s as int, t as int),
            total == slur_note_count(ev, 0, ev.len() as int, s as int, t as int),
            forall|j: int| 0 <= j < k ==> #[trigger] elements_view(elements@)[j] == apply_slur(ev, s as int, t as int)[j],
            forall|j: int| k <= j < ev.len() ==> #[trigger] elements_view(elements@)[j] == ev[j],
        decreases ev.len() - k,
    {
        assert(elements_view(elements@)[k as int] == ev[k as int]);
        if is_note_in_span(&elements[k], s, t) {
            proof {
                lemma_slur_note_count_split(ev, 0, k + 1, ev.len() as int, s as int, t as int);
            }
            let role = if seen == 0 {
                SlurPosition::Start
            } else if seen + 1 == total {
                SlurPosition::End
            } else {
                SlurPosition::Middle
            };
            set_slur_position(elements, k, role);
            seen = seen + 1;
        }
        k = k + 1;
    }
    assert(elements_view(elements@) =~= apply_slur(ev, s as int, t as int));
}

/// Consumes the slur indicators (two or more underscores) of an upper line and
/// assigns each consumed slur to the notes under it: the first note whose
/// character index lies in the slur's columns starts the slur, the last one
/// ends it and those between are inside it.
pub fn consume_and_assign_slurs(upper_line: UpperLine, content_elements: Vec<ParsedElement>)
    -> (r: (UpperLine, Vec<ParsedElement>))
    requires
        upper_offset(upper_line.elements@, upper_line.elements@.len() as int) <= usize::MAX,
    ensures
        r.0.elements@ == upper_line.elements@.map_values(|e: UpperElement| upper_without_long_slur(e)),
        r.0.value == upper_line.value,
        r.0.char_index == upper_line.char_index,
        elements_view(r.1@) == apply_slurs(elements_view(content_elements@),
            line_slur_spans(upper_line.elements@, upper_line.elements@.len() as int)),
{
    let ghost elems = upper_line.elements@;
    let mut elements: Vec<UpperElement> = Vec::new();
    let mut spans: Vec<(usize, usize)> = Vec::new();
    let mut tracker = PositionTracker::new();
    let mut i: usize = 0;
    while i < upper_line.elements.len()
        invariant
            elems == upper_line.elements@,
            i <= elems.len(),
            upper_offset(elems, elems.len() as int) <= usize::MAX,
            tracker.current_pos == upper_offset(elems, i as int),
            elements@ == elems.take(i as int).map_values(|e: UpperElement| upper_without_long_slur(e)),
            spans@ == line_slur_spans(elems, i as int),
        decreases elems.len() - i,
    {
        let element = &upper_line.elements[i];
        proof {
            lemma_upper_offset_monotone(elems, i as int + 1, elems.len() as int);
        }
        let pos = tracker.advance_for_upper_element(element);
        match element {
            UpperElement::SlurIndicator { value, indicator_value, .. } => {
                let len = string_len(indicator_value);
                if len >= 2 {
                    if value.is_some() {
                        spans.push((pos, pos + len - 1));
                    }
                    elements.push(element.taken());
                } else {
                    elements.push(element.copy());
                }
            },
            _ => {
                elements.push(element.copy());
            },
        }
        i = i + 1;
        proof {
            assert(elems.take(i as int).drop_last() =~= elems.take(i - 1));
            assert(elements@ =~= elems.take(i as int).map_values(|e: UpperElement| upper_without_long_slur(e)));
        }
    }
    assert(elems.take(elems.len() as int) =~= elems);
    let mut content_elements = content_elements;
    let ghost ev0 = elements_view(content_elements@);
    let mut j: usize = 0;
    while j < spans.len()
        invariant
            j <= spans@.len(),
            elements_view(content_elements@) == apply_slurs(ev0, spans@.take(j as int)),
        decreases spans@.len() - j,
    {
        let (s, t) = spans[j];
        assign_slur_span(&mut content_elements, s, t);
        j = j + 1;
        proof {
            assert(spans@.take(j as int).drop_last() =~= spans@.take(j - 1));
        }
    }
    assert(spans@.take(spans@.len() as int) =~= spans@);
    (UpperLine { elements, value: crate::models::copy_opt_string(&upper_line.value), char_index: upper_line.char_index },
        content_elements)
}

/// A syllable with its value taken.
pub open spec fn syllable_taken(s: Syllable) -> Syllable {
    Syllable { value: None, char_index: s.char_index }
}

/// Whether a lyrics line has had all its syllables consumed from `original`.
pub open spec fn lyrics_consumed(original: LyricsLine, result: LyricsLine) -> bool {
    result.syllables@ == original.syllables@.map_values(|s: Syllable| syllable_taken(s))
}

/// Consumes every syllable of the lyrics lines.  The content elements are
/// returned unchanged: notes carry no syllable field at this stage.
pub fn consume_and_assign_syllables(lyrics_lines: Vec<LyricsLine>, content_elements: Vec<ParsedElement>)
    -> (r: (Vec<LyricsLine>, Vec<ParsedElement>))
    ensures
        r.0@.len() == lyrics_lines@.len(),
        forall|i: int| 0 <= i < lyrics_lines@.len() ==> lyrics_consumed(#[trigger] lyrics_lines@[i], r.0@[i]),
        r.1 == content_elements,
{
    let mut lines: Vec<LyricsLine> = Vec::new();
    let mut i: usize = 0;
    while i < lyrics_lines.len()
        invariant
            i <= lyrics_lines.len(),
            lines@.len() == i,
            forall|j: int| 0 <= j < i ==> lyrics_consumed(#[trigger] lyrics_lines@[j], lines@[j]),
        decreases lyrics_lines.len() - i,
    {
        let line = &lyrics_lines[i];
        let mut syllables: Vec<Syllable> = Vec::new();
        let mut k: usize = 0;
        while k < line.syllables.len()
            invariant
                k <= line.syllables.len(),
                syllables@ == line.syllables@.take(k as int).map_values(|s: Syllable| syllable_taken(s)),
            decreases line.syllables.len() - k,
        {
            syllables.push(Syllable { value: None, char_index: line.syllables[k].char_index });
            k = k + 1;
            proof {
                assert(line.syllables@.take(k as int).drop_last() =~= line.syllables@.take(k - 1));
                assert(syllables@ =~= line.syllables@.take(k as int).map_values(|s: Syllable| syllable_taken(s)));
            }
        }
        assert(line.syllables@.take(line.syllables@.len() as int) =~= line.syllables@);
        lines.push(LyricsLine { syllables });
        i = i + 1;
    }
    (lines, content_elements)
}

/// Index of the first upper element whose marker or slur was not consumed (among the first `n`).
pub open spec fn first_unconsumed_upper(elems: Seq<UpperElement>, n: int) -> Option<int>
    decreases n,
{
    if n <= 0 {
        None
    } else {
        let prev = first_unconsumed_upper(elems, n - 1);
        if prev is Some { prev } else if (elems[n - 1] is UpperOctaveMarker || elems[n - 1] is SlurIndicator)
            && upper_value(elems[n - 1]) is Some { Some(n - 1) } else { None }
    }
}

/// Index of the first lower element whose marker or beat group was not consumed (among the first `n`).
pub open spec fn first_unconsumed_lower(elems: Seq<LowerElement>, n: int) -> Option<int>
    decreases n,
{
    if n <= 0 {
        None
    } else {
        let prev = first_unconsumed_lower(elems, n - 1);
        if prev is Some { prev } else if (elems[n - 1] is LowerOctaveMarker || elems[n - 1] is BeatGroupIndicator)
            && lower_value(elems[n - 1]) is Some { Some(n - 1) } else { None }
    }
}

/// The report of an unconsumed upper element.
pub open spec fn upper_unconsumed_message(e: UpperElement) -> Seq<char> {
    match e {
        UpperElement::UpperOctaveMarker { char_index, .. } =>
            "Unconsumed octave marker at position "@ + nat_digits(char_index as nat),
        UpperElement::SlurIndicator { char_index, .. } =>
            "Unconsumed slur at position "@ + nat_digits(char_index as nat),
        _ => Seq::empty(),
    }
}

/// The report of an unconsumed lower element.
pub open spec fn lower_unconsumed_message(e: LowerElement) -> Seq<char> {
    match e {
        LowerElement::LowerOctaveMarker { char_index, .. } =>
            "Unconsumed octave marker at position "@ + nat_digits(char_index as nat),
        LowerElement::BeatGroupIndicator { char_index, .. } =>
            "Unconsumed beat grouping at position "@ + nat_digits(char_index as nat),
        _ => Seq::empty(),
    }
}

fn position_message(prefix: &str, char_index: usize) -> (r: String)
    ensures
        r@ == prefix@ + nat_digits(char_index as nat),
{
    let mut r = prefix.to_owned();
    r.append(u64_to_string(char_index as u64).as_str());
    r
}

/// Checks that every octave marker and slur of the upper line, and every octave
/// marker and beat group of the lower line, was consumed; reports the first
/// one that was not (upper line first).
pub fn validate_consumption(upper_line: &UpperLine, lower_line: &LowerLine) -> (r: Result<(), String>)
    ensures
        ({
            let u = upper_line.elements@;
            let l = lower_line.elements@;
            match first_unconsumed_upper(u, u.len() as int) {
                Some(i) => r matches Err(msg) && msg@ == upper_unconsumed_message(u[i]),
                None => match first_unconsumed_lower(l, l.len() as int) {
                    Some(i) => r matches Err(msg) && msg@ == lower_unconsumed_message(l[i]),
                    None => r is Ok,
                },
            }
        }),
{
    let ghost u = upper_line.elements@;
    let ghost l = lower_line.elements@;
    let mut i: usize = 0;
    while i < upper_line.elements.len()
        invariant
            u == upper_line.elements@,
            i <= u.len(),
            first_unconsumed_upper(u, i as int) is None,
        decreases u.len() - i,
    {
        match &upper_line.elements[i] {
            UpperElement::UpperOctaveMarker { value, char_index, .. } => {
                if value.is_some() {
                    proof { lemma_first_unconsumed_upper_stable(u, i + 1, u.len() as int); }
                    return Err(position_message("Unconsumed octave marker at position ", *char_index));
                }
            },
            UpperElement::SlurIndicator { value, char_index, .. } => {
                if value.is_some() {
                    proof { lemma_first_unconsumed_upper_stable(u, i + 1, u.len() as int); }
                    return Err(position_message("Unconsumed slur at position ", *char_index));
                }
            },
            _ => {},
        }
        i = i + 1;
    }
    let mut k: usize = 0;
    while k < lower_line.elements.len()
        invariant
            l == lower_line.elements@,
            u == upper_line.elements@,
            k <= l.len(),
            first_unconsumed_lower(l, k as int) is None,
            first_unconsumed_upper(u, u.len() as int) is None,
        decreases l.len() - k,
    {
        match &lower_line.elements[k] {
            LowerElement::LowerOctaveMarker { value, char_index, .. } => {
                if value.is_some() {
                    proof { lemma_first_unconsumed_lower_stable(l, k + 1, l.len() as int); }
                    return Err(position_message("Unconsumed octave marker at position ", *char_index));
                }
            },
            LowerElement::BeatGroupIndicator { value, char_index, .. } => {
                if value.is_some() {
                    proof { lemma_first_unconsumed_lower_stable(l, k + 1, l.len() as int); }
                    return Err(position_message("Unconsumed beat grouping at position ", *char_index));
                }
            },
            _ => {},
        }
        k = k + 1;
    }
    Ok(())
}

/// Once found, the first unconsumed upper element stays the first.
pub proof fn lemma_first_unconsumed_upper_stable(elems: Seq<UpperElement>, i: int, j: int)
    requires
        0 <= i <= j,
        first_unconsumed_upper(elems, i) is Some,
    ensures
        first_unconsumed_upper(elems, j) == first_unconsumed_upper(elems, i),
    decreases j,
{
    if i < j {
        lemma_first_unconsumed_upper_stable(elems, i, j - 1);
    }
}

/// Once found, the first unconsumed lower element stays the first.
pub proof fn lemma_first_unconsumed_lower_stable(elems: Seq<LowerElement>, i: int, j: int)
    requires
        0 <= i <= j,
        first_unconsumed_lower(elems, i) is Some,
    ensures
        first_unconsumed_lower(elems, j) == first_unconsumed_lower(elems, i),
    decreases j,
{
    if i < j {
        lemma_first_unconsumed_lower_stable(elems, i, j - 1);
    }
}

/// The warning for a beat group that no notes took.
pub open spec fn beat_group_warning(pos: usize, g: ConsumedBeatGroup) -> Seq<char> {
    "Unprocessed beat group indicator at position "@ + nat_digits(pos as nat) + " (span: "@
        + nat_digits(g.start_pos as nat) + "-"@ + nat_digits(g.end_pos as nat) + "): "@
        + nat_digits(g.underscore_count as nat) + " underscores could not be assigned to notes"@
}

/// One warning per beat group that could not be assigned, in order.
pub fn validate_beat_group_processing(remaining_beat_groups: &[(usize, ConsumedBeatGroup)]) -> (r: Vec<String>)
    ensures
        r@.len() == remaining_beat_groups@.len(),
        forall|i: int| 0 <= i < r@.len() ==> (#[trigger] r@[i])@ == beat_group_warning(
            remaining_beat_groups@[i].0, remaining_beat_groups@[i].1),
{
    let mut warnings: Vec<String> = Vec::new();
    let mut i: usize = 0;
    while i < remaining_beat_groups.len()
        invariant
            i <= remaining_beat_groups@.len(),
            warnings@.len() == i,
            forall|j: int| 0 <= j < i ==> (#[trigger] warnings@[j])@ == beat_group_warning(
                remaining_beat_groups@[j].0, remaining_beat_groups@[j].1),
        decreases remaining_beat_groups@.len() - i,
    {
        let (pos, group) = &remaining_beat_groups[i];
        let mut w = position_message("Unprocessed beat group indicator at position ", *pos);
        w.append(" (span: ");
        w.append(u64_to_string(group.start_pos as u64).as_str());
        w.append("-");
        w.append(u64_to_string(group.end_pos as u64).as_str());
        w.append("): ");
        w.append(u64_to_string(group.underscore_count as u64).as_str());
        w.append(" underscores could not be assigned to notes");
        warnings.push(w);
        i = i + 1;
    }
    warnings
}


/// The role of the element at `rank` among `m` grouped elements.
pub open spec fn group_role(rank: int, m: int) -> BeatGroupRole {
    if rank == 0 { BeatGroupRole::Start } else if rank == m - 1 { BeatGroupRole::End } else { BeatGroupRole::Middle }
}

/// A note placed in a beat group with a role; other elements are unchanged.
pub open spec fn with_group_role(e: ParsedElementView, role: BeatGroupRole) -> ParsedElementView {
    match e {
        ParsedElementView::Note { degree, octave, value, position, children, duration, beat_group: _, slur_position, in_beat_group: _ } =>
            ParsedElementView::Note { degree, octave, value, position, children, duration, beat_group: Some(role), slur_position, in_beat_group: true },
        _ => e,
    }
}

/// The column a beat group searches near for an element: a note not yet in a
/// group, or a rest, dash, bar line or whitespace, by its character index.
pub open spec fn nearest_candidate_pos(e: ParsedElementView) -> Option<usize> {
    match e {
        ParsedElementView::Note { beat_group, position, .. } => if beat_group is None { Some(position.char_index) } else { None },
        ParsedElementView::Rest { position, .. } => Some(position.char_index),
        ParsedElementView::Dash { position, .. } => Some(position.char_index),
        ParsedElementView::Barline { position, .. } => Some(position.char_index),
        ParsedElementView::Whitespace { position, .. } => Some(position.char_index),
        _ => None,
    }
}

/// Whether element `i` is a candidate within five columns of the group.
pub open spec fn near_candidate(els: Seq<ParsedElementView>, gpos: usize, i: int) -> bool {
    0 <= i < els.len() && (nearest_candidate_pos(els[i]) matches Some(p) && column_distance(gpos, p) <= 5)
}

/// Candidate `j` comes before candidate `i`: nearer, or as near and further
/// left, or at the same column and earlier.
pub open spec fn near_before(els: Seq<ParsedElementView>, gpos: usize, j: int, i: int) -> bool {
    let pj = nearest_candidate_pos(els[j]).unwrap();
    let pi = nearest_candidate_pos(els[i]).unwrap();
    let dj = column_distance(gpos, pj);
    let di = column_distance(gpos, pi);
    dj < di || (dj == di && (pj < pi || (pj == pi && j < i)))
}

/// Number of candidates among the first `n` elements that come before element `i`.
pub open spec fn near_rank(els: Seq<ParsedElementView>, gpos: usize, i: int, n: int) -> nat
    decreases n,
{
    if n <= 0 {
        0
    } else {
        near_rank(els, gpos, i, n - 1) + if near_candidate(els, gpos, n - 1) && near_before(els, gpos, n - 1, i) { 1nat } else { 0nat }
    }
}

/// Number of candidates among the first `n` elements.
pub open spec fn near_count(els: Seq<ParsedElementView>, gpos: usize, n: int) -> nat
    decreases n,
{
    if n <= 0 { 0 } else { near_count(els, gpos, n - 1) + if near_candidate(els, gpos, n - 1) { 1nat } else { 0nat } }
}

/// One beat group placed on the nearest candidates: when at least two
/// candidates lie within five columns, the first `m = min(candidates,
/// underscores)` of them in order of nearness (then column, then element
/// order) form the group, if `m >= 2`; notes among them get their roles in that
/// order. `None` when the group is not placed.
pub open spec fn nearest_group(els: Seq<ParsedElementView>, gpos: usize, underscores: usize) -> Option<Seq<ParsedElementView>> {
    let c = near_count(els, gpos, els.len() as int);
    let m: int = if c < underscores { c as int } else { underscores as int };
    if c >= 2 && m >= 2 {
        Some(Seq::new(els.len(), |i: int|
            if near_candidate(els, gpos, i) && near_rank(els, gpos, i, els.len() as int) < m {
                with_group_role(els[i], group_role(near_rank(els, gpos, i, els.len() as int) as int, m))
            } else {
                els[i]
            }))
    } else {
        None
    }
}

/// Elements and unplaced groups after placing the first `n` groups.
pub open spec fn groups_nearest(els: Seq<ParsedElementView>, groups: Seq<(usize, ConsumedBeatGroup)>, n: int)
    -> (Seq<ParsedElementView>, Seq<(usize, ConsumedBeatGroup)>)
    decreases n,
{
    if n <= 0 {
        (els, Seq::empty())
    } else {
        let prev = groups_nearest(els, groups, n - 1);
        let g = groups[n - 1];
        match nearest_group(prev.0, g.0, g.1.underscore_count) {
            Some(next) => (next, prev.1),
            None => (prev.0, prev.1.push(g)),
        }
    }
}

fn candidate_position(e: &ParsedElement) -> (r: Option<usize>)
    ensures
        r == nearest_candidate_pos(e@),
{
    match e {
        ParsedElement::Note { beat_group, position, .. } => if beat_group.is_none() { Some(position.char_index) } else { None },
        ParsedElement::Rest { position, .. } => Some(position.char_index),
        ParsedElement::Dash { position, .. } => Some(position.char_index),
        ParsedElement::Barline { position, .. } => Some(position.char_index),
        ParsedElement::Whitespace { position, .. } => Some(position.char_index),
        _ => None,
    }
}

fn distance_of(a: usize, b: usize) -> (r: usize)
    ensures
        r == column_distance(a, b),
{
    if a > b { a - b } else { b - a }
}

/// Candidate positions (within five columns) of all elements.
fn near_positions(els: &Vec<ParsedElement>, gpos: usize) -> (r: Vec<Option<usize>>)
    ensures
        r@.len() == els@.len(),
        forall|i: int| 0 <= i < els@.len() ==> (#[trigger] r@[i] is Some <==> near_candidate(elements_view(els@), gpos, i))
            && (r@[i] is Some ==> r@[i] == nearest_candidate_pos(els@[i]@)),
{
    let ghost ev = elements_view(els@);
    let mut r: Vec<Option<usize>> = Vec::new();
    let mut i: usize = 0;
    while i < els.len()
        invariant
            ev == elements_view(els@),
            i <= els@.len(),
            r@.len() == i,
            forall|j: int| 0 <= j < i ==> (#[trigger] r@[j] is Some <==> near_candidate(ev, gpos, j))
                && (r@[j] is Some ==> r@[j] == nearest_candidate_pos(els@[j]@)),
        decreases els@.len() - i,
    {
        let p = candidate_position(&els[i]);
        proof { assert(ev[i as int] == els@[i as int]@); }
        let entry = match p {
            Some(pos) => if distance_of(gpos, pos) <= 5 { Some(pos) } else { None },
            None => None,
        };
        r.push(entry);
        i = i + 1;
    }
    r
}

fn set_group_role(els: &mut Vec<ParsedElement>, i: usize, role: BeatGroupRole)
    requires
        i < old(els)@.len(),
    ensures
        final(els)@.len() == old(els)@.len(),
        elements_view(final(els)@) == elements_view(old(els)@).update(i as int, with_group_role(old(els)@[i as int]@, role)),
{
    let ghost before = els@;
    let e = els.remove(i);
    let updated = match e {
        ParsedElement::Note { degree, octave, value, position, children, duration, beat_group: _, slur_position, in_beat_group: _ } =>
            ParsedElement::Note { degree, octave, value, position, children, duration, beat_group: Some(role), slur_position, in_beat_group: true },
        other => other,
    };
    els.insert(i, updated);
    assert(elements_view(els@) =~= elements_view(before).update(i as int, with_group_role(before[i as int]@, role)));
}

fn role_of(rank: usize, m: usize) -> (r: BeatGroupRole)
    requires
        m >= 2,
    ensures
        r == group_role(rank as int, m as int),
{
    if rank == 0 { BeatGroupRole::Start } else if rank == m - 1 { BeatGroupRole::End } else { BeatGroupRole::Middle }
}

/// Places one group on the nearest candidates (see `nearest_group`); false when it is not placed.
fn place_group_nearest(els: &mut Vec<ParsedElement>, gpos: usize, underscores: usize) -> (placed: bool)
    ensures
        placed == nearest_group(elements_view(old(els)@), gpos, underscores) is Some,
        placed ==> elements_view(final(els)@) == nearest_group(elements_view(old(els)@), gpos, underscores).unwrap(),
        !placed ==> final(els)@ == old(els)@,
{
    let ghost ev = elements_view(els@);
    let n = els.len();
    let near = near_positions(els, gpos);
    let mut count: usize = 0;
    let mut i: usize = 0;
    while i < n
        invariant
            n == els@.len(),
            ev == elements_view(els@),
            near@.len() == n,
            forall|j: int| 0 <= j < n ==> (#[trigger] near@[j] is Some <==> near_candidate(ev, gpos, j)),
            i <= n,
            count == near_count(ev, gpos, i as int),
            count <= i,
        decreases n - i,
    {
        if near[i].is_some() {
            count = count + 1;
        }
        i = i + 1;
    }
    let m = if count < underscores { count } else { underscores };
    if !(count >= 2 && m >= 2) {
        return false;
    }
    // Ranks of all candidates, taken before any element changes.
    let mut ranks: Vec<usize> = Vec::new();
    let mut k: usize = 0;
    while k < n
        invariant
            n == els@.len(),
            ev == elements_view(els@),
            near@.len() == n,
            forall|j: int| 0 <= j < n ==> (#[trigger] near@[j] is Some <==> near_candidate(ev, gpos, j))
                && (near@[j] is Some ==> near@[j] == nearest_candidate_pos(ev[j])),
            k <= n,
            ranks@.len() == k,
            forall|j: int| 0 <= j < k && near_candidate(ev, gpos, j) ==> #[trigger] ranks@[j] == near_rank(ev, gpos, j, n as int),
        decreases n - k,
    {
        let mut r: usize = 0;
        if near[k].is_some() {
            let mut j: usize = 0;
            while j < n
                invariant
                    n == els@.len(),
                    ev == elements_view(els@),
                    near@.len() == n,
                    forall|x: int| 0 <= x < n ==> (#[trigger] near@[x] is Some <==> near_candidate(ev, gpos, x))
                        && (near@[x] is Some ==> near@[x] == nearest_candidate_pos(ev[x])),
                    k < n,
                    near@[k as int] is Some,
                    j <= n,
                    r == near_rank(ev, gpos, k as int, j as int),
                    r <= j,
                decreases n - j,
            {
                if let (Some(pj), Some(pk)) = (near[j], near[k]) {
                    let dj = distance_of(gpos, pj);
                    let dk = distance_of(gpos, pk);
                    if dj < dk || (dj == dk && (pj < pk || (pj == pk && j < k))) {
                        r = r + 1;
                    }
                } else {
                    proof {
                        if near_candidate(ev, gpos, j as int) {
                            assert(near@[j as int] is Some);
                        }
                    }
                }
                j = j + 1;
            }
        }
        ranks.push(r);
        k = k + 1;
    }
    let ghost target = nearest_group(ev, gpos, underscores).unwrap();
    let mut t: usize = 0;
    while t < n
        invariant
            n == els@.len(),
            near@.len() == n,
            ranks@.len() == n,
            forall|j: int| 0 <= j < n ==> (#[trigger] near@[j] is Some <==> near_candidate(ev, gpos, j)),
            forall|j: int| 0 <= j < n && near_candidate(ev, gpos, j) ==> #[trigger] ranks@[j] == near_rank(ev, gpos, j, n as int),
            ev.len() == n,
            count == near_count(ev, gpos, n as int),
            m == (if count < underscores { count } else { underscores }),
            count >= 2 && m >= 2,
            target == nearest_group(ev, gpos, underscores).unwrap(),
            t <= n,
            forall|j: int| 0 <= j < t ==> #[trigger] elements_view(els@)[j] == target[j],
            forall|j: int| t <= j < n ==> #[trigger] elements_view(els@)[j] == ev[j],
        decreases n - t,
    {
        if near[t].is_some() && ranks[t] < m {
            let ghost before = els@;
            let role = role_of(ranks[t], m);
            set_group_role(els, t, role);
            proof {
                assert(near_candidate(ev, gpos, t as int));
                assert(elements_view(before)[t as int] == ev[t as int]);
                assert(before[t as int]@ == ev[t as int]);
                assert(ranks@[t as int] == near_rank(ev, gpos, t as int, n as int));
                let mm: int = if near_count(ev, gpos, ev.len() as int) < underscores { near_count(ev, gpos, ev.len() as int) as int } else { underscores as int };
                assert(mm == m as int);
                assert(nearest_group(ev, gpos, underscores) is Some);
                assert(target[t as int] == with_group_role(ev[t as int], group_role(near_rank(ev, gpos, t as int, ev.len() as int) as int, mm)));
                assert(elements_view(els@)[t as int] == target[t as int]);
                assert forall|j: int| 0 <= j < n && j != t implies #[trigger] elements_view(els@)[j] == elements_view(before)[j] by {}
            }
        } else {
            proof {
                assert(elements_view(els@)[t as int] == target[t as int]);
            }
        }
        t = t + 1;
    }
    proof {
        assert(elements_view(els@) =~= target);
    }
    true
}

/// Places each remaining beat group on the candidates nearest to it (see
/// `groups_nearest`) and returns the elements with the groups that found no place.
pub fn assign_beat_groups_nearest(content_elements: Vec<ParsedElement>, remaining_beat_groups: Vec<(usize, ConsumedBeatGroup)>)
    -> (r: (Vec<ParsedElement>, Vec<(usize, ConsumedBeatGroup)>))
    ensures
        (elements_view(r.0@), r.1@) == groups_nearest(elements_view(content_elements@), remaining_beat_groups@,
            remaining_beat_groups@.len() as int),
{
    let mut els = content_elements;
    let mut still_remaining: Vec<(usize, ConsumedBeatGroup)> = Vec::new();
    let mut i: usize = 0;
    while i < remaining_beat_groups.len()
        invariant
            i <= remaining_beat_groups@.len(),
            (elements_view(els@), still_remaining@) == groups_nearest(elements_view(content_elements@),
                remaining_beat_groups@, i as int),
        decreases remaining_beat_groups@.len() - i,
    {
        let (beat_group_pos, consumed_beat_group) = remaining_beat_groups[i];
        let placed = place_group_nearest(&mut els, beat_group_pos, consumed_beat_group.underscore_count);
        if !placed {
            still_remaining.push((beat_group_pos, consumed_beat_group));
        }
        i = i + 1;
    }
    (els, still_remaining)
}


/// The column a beat group matches an element at: a note's character index,
/// the column of a rest, dash, bar line or whitespace.
pub open spec fn direct_pos(e: ParsedElementView) -> Option<usize> {
    match e {
        ParsedElementView::Note { position, .. } => Some(position.char_index),
        ParsedElementView::Rest { position, .. } => Some(position.col),
        ParsedElementView::Dash { position, .. } => Some(position.col),
        ParsedElementView::Barline { position, .. } => Some(position.col),
        ParsedElementView::Whitespace { position, .. } => Some(position.col),
        _ => None,
    }
}

/// Whether element `i` lies within the group's span.
pub open spec fn in_span(els: Seq<ParsedElementView>, g: ConsumedBeatGroup, i: int) -> bool {
    0 <= i < els.len() && (direct_pos(els[i]) matches Some(p) && g.start_pos <= p && p <= g.end_pos)
}

/// Number of elements among the first `n` within the group's span.
pub open spec fn span_count(els: Seq<ParsedElementView>, g: ConsumedBeatGroup, n: int) -> nat
    decreases n,
{
    if n <= 0 { 0 } else { span_count(els, g, n - 1) + if in_span(els, g, n - 1) { 1nat } else { 0nat } }
}

/// Whether an element is a note already in a beat group.
pub open spec fn grouped_note(e: ParsedElementView) -> bool {
    e matches ParsedElementView::Note { beat_group, .. } && beat_group is Some
}

/// Whether some element among the first `n` within the span is not a note
/// already in a group.
pub open spec fn any_assignable(els: Seq<ParsedElementView>, g: ConsumedBeatGroup, n: int) -> bool
    decreases n,
{
    if n <= 0 { false } else { any_assignable(els, g, n - 1) || (in_span(els, g, n - 1) && !grouped_note(els[n - 1])) }
}

/// The indicator child a group's first note carries: the group's underscores.
pub open spec fn indicator_view(k: usize) -> ParsedChildView {
    ParsedChildView::BeatGroupIndicator { symbol: Seq::new(k as nat, |_i: int| '_'), span: k }
}

/// A member of a group at `rank` among `count` members: a note not yet in a
/// group gets its role (the first also the indicator); other members are unchanged.
pub open spec fn direct_member(e: ParsedElementView, rank: int, count: int, k: usize) -> ParsedElementView {
    match e {
        ParsedElementView::Note { beat_group, .. } => if beat_group is None {
            let role = group_role(rank, count);
            if role == BeatGroupRole::Start {
                note_with_child(with_group_role(e, role), indicator_view(k), None)
            } else {
                with_group_role(e, role)
            }
        } else {
            e
        },
        _ => e,
    }
}

/// The elements with one group's members updated in element order.
pub open spec fn direct_apply(els: Seq<ParsedElementView>, g: ConsumedBeatGroup) -> Seq<ParsedElementView> {
    let c = span_count(els, g, els.len() as int);
    Seq::new(els.len(), |i: int|
        if in_span(els, g, i) { direct_member(els[i], span_count(els, g, i) as int, c as int, g.underscore_count) } else { els[i] })
}

/// One beat group placed on the elements within its span, when it holds at
/// least two of them and one is not a note already in a group; `None` otherwise.
pub open spec fn direct_group(els: Seq<ParsedElementView>, g: ConsumedBeatGroup) -> Option<Seq<ParsedElementView>> {
    if span_count(els, g, els.len() as int) >= 2 && any_assignable(els, g, els.len() as int) {
        Some(direct_apply(els, g))
    } else {
        None
    }
}

/// Elements and unplaced groups after placing the first `n` groups directly.
pub open spec fn groups_direct(els: Seq<ParsedElementView>, groups: Seq<(usize, ConsumedBeatGroup)>, n: int)
    -> (Seq<ParsedElementView>, Seq<(usize, ConsumedBeatGroup)>)
    decreases n,
{
    if n <= 0 {
        (els, Seq::empty())
    } else {
        let prev = groups_direct(els, groups, n - 1);
        let g = groups[n - 1];
        match direct_group(prev.0, g.1) {
            Some(next) => (next, prev.1),
            None => (prev.0, prev.1.push(g)),
        }
    }
}

fn direct_position(e: &ParsedElement) -> (r: Option<usize>)
    ensures
        r == direct_pos(e@),
{
    match e {
        ParsedElement::Note { position, .. } => Some(position.char_index),
        ParsedElement::Rest { position, .. } => Some(position.col),
        ParsedElement::Dash { position, .. } => Some(position.col),
        ParsedElement::Barline { position, .. } => Some(position.col),
        ParsedElement::Whitespace { position, .. } => Some(position.col),
        _ => None,
    }
}

fn underscores(k: usize) -> (r: String)
    ensures
        r@ == Seq::new(k as nat, |_i: int| '_'),
{
    let mut r = String::new();
    let mut i: usize = 0;
    while i < k
        invariant
            i <= k,
            r@ == Seq::new(i as nat, |_i: int| '_'),
        decreases k - i,
    {
        push_char(&mut r, '_');
        i = i + 1;
        assert(r@ =~= Seq::new(i as nat, |_i: int| '_'));
    }
    r
}

proof fn lemma_unassignable_unchanged(els: Seq<ParsedElementView>, g: ConsumedBeatGroup, n: int)
    requires
        0 <= n <= els.len(),
        !any_assignable(els, g, n),
    ensures
        forall|j: int| 0 <= j < n && in_span(els, g, j) ==> #[trigger] grouped_note(els[j]),
    decreases n,
{
    if n > 0 {
        lemma_unassignable_unchanged(els, g, n - 1);
    }
}

/// Places one group on the elements within its span (see `direct_group`);
/// false when it is not placed.
fn place_group_direct(els: &mut Vec<ParsedElement>, g: ConsumedBeatGroup) -> (placed: bool)
    ensures
        placed == direct_group(elements_view(old(els)@), g) is Some,
        placed ==> elements_view(final(els)@) == direct_group(elements_view(old(els)@), g).unwrap(),
        !placed ==> elements_view(final(els)@) == elements_view(old(els)@),
{
    let ghost ev = elements_view(els@);
    let n = els.len();
    let mut count: usize = 0;
    let mut i: usize = 0;
    while i < n
        invariant
            n == els@.len(),
            ev == elements_view(els@),
            i <= n,
            count == span_count(ev, g, i as int),
            count <= i,
        decreases n - i,
    {
        let p = direct_position(&els[i]);
        proof { assert(ev[i as int] == els@[i as int]@); }
        if let Some(pos) = p {
            if pos >= g.start_pos && pos <= g.end_pos {
                count = count + 1;
            }
        }
        i = i + 1;
    }
    if count < 2 {
        return false;
    }
    let ghost target = direct_apply(ev, g);
    let mut assigned = false;
    let mut rank: usize = 0;
    let mut t: usize = 0;
    while t < n
        invariant
            n == els@.len(),
            ev.len() == n,
            count == span_count(ev, g, n as int),
            count >= 2,
            target == direct_apply(ev, g),
            t <= n,
            rank == span_count(ev, g, t as int),
            rank <= t,
            assigned == any_assignable(ev, g, t as int),
            forall|j: int| 0 <= j < t ==> #[trigger] elements_view(els@)[j] == target[j],
            forall|j: int| t <= j < n ==> #[trigger] elements_view(els@)[j] == ev[j],
        decreases n - t,
    {
        let ghost before = els@;
        proof { assert(elements_view(before)[t as int] == ev[t as int]); }
        let p = direct_position(&els[t]);
        let member = match p { Some(pos) => pos >= g.start_pos && pos <= g.end_pos, None => false };
        if member {
            let kind: u8 = match &els[t] {
                ParsedElement::Note { beat_group, .. } => if beat_group.is_some() { 2 } else { 1 },
                _ => 0,
            };
            proof { assert(in_span(ev, g, t as int)); }
            if kind == 1 {
                let role = role_of(rank, count);
                set_group_role(els, t, role);
                proof {
                    assert(elements_view(els@)[t as int] == with_group_role(ev[t as int], role));
                    assert(role == BeatGroupRole::Start <==> rank == 0);
                }
                if rank == 0 {
                    let symbol = underscores(g.underscore_count);
                    let child = ParsedChild::BeatGroupIndicator { symbol, span: g.underscore_count };
                    proof { assert(child@ == indicator_view(g.underscore_count)); }
                    let ghost mid = els@;
                    add_child_to_note(els, t, child, None);
                    proof {
                        assert(elements_view(els@)[t as int] == note_with_child(with_group_role(ev[t as int], role), indicator_view(g.underscore_count), None));
                        assert forall|j: int| 0 <= j < n && j != t implies #[trigger] elements_view(els@)[j] == elements_view(mid)[j] by {}
                    }
                }
                assigned = true;
            } else if kind == 0 {
                assigned = true;
            }
            proof {
                assert(elements_view(els@)[t as int] == target[t as int]);
                assert forall|j: int| 0 <= j < n && j != t implies #[trigger] elements_view(els@)[j] == elements_view(before)[j] by {}
            }
            rank = rank + 1;
        } else {
            proof { assert(elements_view(els@)[t as int] == target[t as int]); }
        }
        t = t + 1;
    }
    if !assigned {
        proof {
            lemma_unassignable_unchanged(ev, g, n as int);
            assert(elements_view(els@) =~= ev) by {
                assert forall|j: int| 0 <= j < n implies #[trigger] elements_view(els@)[j] == ev[j] by {
                    if in_span(ev, g, j) { assert(grouped_note(ev[j])); }
                }
            }
        }
        return false;
    }
    proof {
        assert(elements_view(els@) =~= target);
    }
    true
}

/// Places each beat group on the elements within its span (see
/// `groups_direct`) and returns the elements with the groups not placed.
pub fn assign_beat_groups_direct(content_elements: Vec<ParsedElement>, consumed_beat_groups: Vec<(usize, ConsumedBeatGroup)>)
    -> (r: (Vec<ParsedElement>, Vec<(usize, ConsumedBeatGroup)>))
    ensures
        (elements_view(r.0@), r.1@) == groups_direct(elements_view(content_elements@), consumed_beat_groups@,
            consumed_beat_groups@.len() as int),
{
    let mut els = content_elements;
    let mut remaining: Vec<(usize, ConsumedBeatGroup)> = Vec::new();
    let mut i: usize = 0;
    while i < consumed_beat_groups.len()
        invariant
            i <= consumed_beat_groups@.len(),
            (elements_view(els@), remaining@) == groups_direct(elements_view(content_elements@),
                consumed_beat_groups@, i as int),
        decreases consumed_beat_groups@.len() - i,
    {
        let (beat_group_pos, consumed_beat_group) = consumed_beat_groups[i];
        let placed = place_group_direct(&mut els, consumed_beat_group);
        if !placed {
            remaining.push((beat_group_pos, consumed_beat_group));
        }
        i = i + 1;
    }
    (els, remaining)
}

} // verus!
