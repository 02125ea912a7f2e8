//! Helpers for the editor's syntax view: XML escaping and per-character
//! styles from syntax tokens.
use vstd::prelude::*;
use crate::text::{str_eq, push_char, utf8_len, utf8_bytes, utf8_len_of, str_byte_len, lemma_utf8_bytes_split, lemma_utf8_bytes_single};
use crate::rhythm::types::{Position, ParsedElement, ParsedElementView, elements_view};
use crate::rhythm_fsm::position_of;
use crate::text::nat_digits;
use crate::to_staff_notation::append_digits;
use crate::json::{JsonValue, json_get, str_field, array_field, get, get_str, get_array};
use crate::parse::{Document, DocumentElement, Stave, StaveLine, Directive, Source, UpperElement, LowerElement, UpperLine, LowerLine, LyricsLine, Syllable, TextLine, BlankLines};

verus! {

/// A token of the editor's syntax view: its kind and the character range it covers.
#[derive(Clone, Debug)]
pub struct SyntaxToken {
    pub token_type: String,
    pub start: usize,
    pub end: usize,
    pub content: String,
}

/// The style classes of one character position.
#[derive(Clone, Debug)]
pub struct CharacterStyle {
    pub pos: usize,
    pub classes: Vec<String>,
}

/// The escape of one character in XML text.
pub open spec fn xml_escape_char(c: char) -> Seq<char> {
    if c == '&' { "&amp;"@ } else if c == '<' { "&lt;"@ } else if c == '>' { "&gt;"@ }
    else if c == '"' { "&quot;"@ } else if c == '\'' { "&apos;"@ } else { seq![c] }
}

/// A text with `&`, `<`, `>`, `"` and `'` replaced by their XML entities.
pub open spec fn xml_escaped(s: Seq<char>) -> Seq<char>
    decreases s.len(),
{
    if s.len() == 0 { Seq::empty() } else { xml_escaped(s.drop_last()) + xml_escape_char(s.last()) }
}

/// Escapes the XML special characters of a text (see `xml_escaped`).
pub fn escape_xml(input: &str) -> (r: String)
    ensures
        r@ == xml_escaped(input@),
{
    let n = input.unicode_len();
    let mut r = String::new();
    let mut i: usize = 0;
    proof {
        assert(input@.take(0) =~= Seq::<char>::empty());
    }
    while i < n
        invariant
            n == input@.len(),
            i <= n,
            r@ == xml_escaped(input@.take(i as int)),
        decreases n - i,
    {
        let c = input.get_char(i);
        if c == '&' { r.append("&amp;"); }
        else if c == '<' { r.append("&lt;"); }
        else if c == '>' { r.append("&gt;"); }
        else if c == '"' { r.append("&quot;"); }
        else if c == '\'' { r.append("&apos;"); }
        else { push_char(&mut r, c); }
        proof {
            assert(input@.take(i + 1).drop_last() =~= input@.take(i as int));
            assert(input@.take(i + 1).last() == c);
            assert(r@ =~= xml_escaped(input@.take(i as int)) + xml_escape_char(c));
        }
        i = i + 1;
    }
    proof {
        assert(input@.take(n as int) =~= input@);
    }
    r
}

/// Whether a token kind gets styles: everything but whitespace and newlines.
pub open spec fn styled_kind(t: Seq<char>) -> bool {
    t != "whitespace"@ && t != "newline"@
}

/// The first styled token (among the first `k`) covering character `p`.
pub open spec fn first_covering(tokens: Seq<SyntaxToken>, p: int, k: int) -> Option<int>
    decreases k,
{
    if k <= 0 {
        None
    } else {
        let prev = first_covering(tokens, p, k - 1);
        if prev is Some { prev }
        else if styled_kind(tokens[k - 1].token_type@) && tokens[k - 1].start <= p < tokens[k - 1].end { Some(k - 1) }
        else { None }
    }
}

/// The largest end of the tokens, 0 without tokens.
pub open spec fn max_end(tokens: Seq<SyntaxToken>) -> nat
    decreases tokens.len(),
{
    if tokens.len() == 0 { 0 } else {
        let m = max_end(tokens.drop_last());
        if tokens.last().end as nat > m { tokens.last().end as nat } else { m }
    }
}

/// The classes of character `p`: `cm-music-<kind>` of the first styled token
/// covering it, or none.
pub open spec fn char_classes(tokens: Seq<SyntaxToken>, p: int) -> Seq<Seq<char>> {
    match first_covering(tokens, p, tokens.len() as int) {
        Some(k) => seq!["cm-music-"@ + tokens[k].token_type@],
        None => Seq::empty(),
    }
}

/// The class lists of styles, as plain text.
pub open spec fn style_classes(v: Seq<CharacterStyle>) -> Seq<Seq<Seq<char>>> {
    v.map_values(|s: CharacterStyle| s.classes@.map_values(|c: String| c@))
}

fn max_end_of(tokens: &[SyntaxToken]) -> (m: usize)
    ensures
        m as nat == max_end(tokens@),
{
    let mut m: usize = 0;
    let mut i: usize = 0;
    proof {
        assert(tokens@.take(0) =~= Seq::<SyntaxToken>::empty());
    }
    while i < tokens.len()
        invariant
            i <= tokens@.len(),
            m as nat == max_end(tokens@.take(i as int)),
        decreases tokens@.len() - i,
    {
        proof {
            assert(tokens@.take(i + 1).drop_last() =~= tokens@.take(i as int));
        }
        if tokens[i].end > m {
            m = tokens[i].end;
        }
        i = i + 1;
    }
    proof {
        assert(tokens@.take(i as int) =~= tokens@);
    }
    m
}

fn find_covering(tokens: &[SyntaxToken], p: usize) -> (r: Option<usize>)
    ensures
        r matches Some(k) ==> k < tokens@.len(),
        match r { Some(k) => first_covering(tokens@, p as int, tokens@.len() as int) == Some(k as int),
            None => first_covering(tokens@, p as int, tokens@.len() as int) is None },
{
    let mut i: usize = 0;
    while i < tokens.len()
        invariant
            i <= tokens@.len(),
            first_covering(tokens@, p as int, i as int) is None,
        decreases tokens@.len() - i,
    {
        let t = &tokens[i];
        let styled = !str_eq(t.token_type.as_str(), "whitespace") && !str_eq(t.token_type.as_str(), "newline");
        if styled && t.start <= p && p < t.end {
            proof {
                lemma_first_covering_stable(tokens@, p as int, i as int + 1, tokens@.len() as int);
            }
            return Some(i);
        }
        i = i + 1;
    }
    None
}

proof fn lemma_first_covering_stable(tokens: Seq<SyntaxToken>, p: int, i: int, j: int)
    requires
        0 <= i <= j,
        first_covering(tokens, p, i) is Some,
    ensures
        first_covering(tokens, p, j) == first_covering(tokens, p, i),
    decreases j,
{
    if i < j {
        lemma_first_covering_stable(tokens, p, i, j - 1);
    }
}

/// One style per character from 0 up to the largest token end: the classes
/// of the first styled token covering it (see `char_classes`).
pub fn generate_character_styles(tokens: &[SyntaxToken]) -> (r: Vec<CharacterStyle>)
    ensures
        r@.len() == max_end(tokens@),
        forall|p: int| 0 <= p < r@.len() ==> #[trigger] r@[p].pos == p,
        style_classes(r@) == Seq::new(max_end(tokens@), |p: int| char_classes(tokens@, p)),
{
    let max_pos = max_end_of(tokens);
    let mut styles: Vec<CharacterStyle> = Vec::new();
    let mut p: usize = 0;
    while p < max_pos
        invariant
            max_pos as nat == max_end(tokens@),
            p <= max_pos,
            styles@.len() == p,
            forall|q: int| 0 <= q < p ==> #[trigger] styles@[q].pos == q,
            style_classes(styles@) == Seq::new(p as nat, |q: int| char_classes(tokens@, q)),
        decreases max_pos - p,
    {
        let mut classes: Vec<String> = Vec::new();
        match find_covering(tokens, p) {
            Some(k) => {
                let mut css_class = "cm-music-".to_owned();
                css_class.append(tokens[k].token_type.as_str());
                classes.push(css_class);
            },
            None => {},
        }
        proof {
            assert(classes@.map_values(|c: String| c@) =~= char_classes(tokens@, p as int));
        }
        let ghost cv = classes@.map_values(|c: String| c@);
        let ghost before = styles@;
        styles.push(CharacterStyle { pos: p, classes });
        proof {
            assert(style_classes(styles@) =~= style_classes(before).push(cv));
            assert(style_classes(styles@) =~= Seq::new((p + 1) as nat, |q: int| char_classes(tokens@, q)));
        }
        p = p + 1;
    }
    styles
}

} // verus!

verus! {

/// The first line of a text: its characters up to the first newline.
pub open spec fn first_line(s: Seq<char>) -> Seq<char>
    decreases s.len(),
{
    if s.len() == 0 || s[0] == '\n' { Seq::empty() } else { seq![s[0]] + first_line(s.skip(1)) }
}

/// The byte offset, in a text, of column `col` of line `row` (both counted
/// from 0, the column in bytes); a column past the end of its line counts as
/// the line's start. `None` when the text has no such line.
pub open spec fn line_col_offset(s: Seq<char>, row: nat, col: nat) -> Option<nat>
    decreases s.len(),
{
    if row == 0 {
        Some(if col <= utf8_bytes(first_line(s)) { col } else { 0 })
    } else if s.len() == 0 {
        None
    } else {
        let rest = if s[0] == '\n' { line_col_offset(s.skip(1), (row - 1) as nat, col) } else { line_col_offset(s.skip(1), row, col) };
        match rest {
            Some(o) => Some(o + utf8_len(s[0])),
            None => None,
        }
    }
}

/// The byte offset of a parsed position (row counted from 1, a row of 0
/// read as 1) in the source text.
pub open spec fn absolute_offset(p: Position, input: Seq<char>) -> Option<nat> {
    line_col_offset(input, if p.row > 0 { (p.row - 1) as nat } else { 0 }, p.col as nat)
}

proof fn lemma_first_line_bytes(s: Seq<char>)
    ensures
        utf8_bytes(first_line(s)) <= utf8_bytes(s),
    decreases s.len(),
{
    if s.len() > 0 && s[0] != '\n' {
        lemma_first_line_bytes(s.skip(1));
        let f = first_line(s);
        assert(f[0] == s[0]);
        assert(f.skip(1) =~= first_line(s.skip(1)));
    }
}

proof fn lemma_line_col_offset_bound(s: Seq<char>, row: nat, col: nat)
    ensures
        line_col_offset(s, row, col) matches Some(o) ==> o <= utf8_bytes(s),
    decreases s.len(),
{
    if row == 0 {
        lemma_first_line_bytes(s);
    } else if s.len() > 0 {
        if s[0] == '\n' {
            lemma_line_col_offset_bound(s.skip(1), (row - 1) as nat, col);
        } else {
            lemma_line_col_offset_bound(s.skip(1), row, col);
        }
    }
}

/// The byte offset of column `col` of line `row` (see `line_col_offset`).
fn line_col_offset_of(s: &str, row: usize, col: usize) -> (r: Option<usize>)
    ensures
        match r {
            Some(o) => line_col_offset(s@, row as nat, col as nat) == Some(o as nat),
            None => line_col_offset(s@, row as nat, col as nat) is None,
        },
{
    let total = str_byte_len(s);
    let n = s.unicode_len();
    let mut i: usize = 0;
    let mut r: usize = row;
    let mut acc: usize = 0;
    proof {
        assert(s@.take(0) =~= Seq::<char>::empty());
        assert(s@.skip(0) =~= s@);
    }
    while r > 0
        invariant
            n == s@.len(),
            total == utf8_bytes(s@),
            i <= n,
            acc == utf8_bytes(s@.take(i as int)),
            line_col_offset(s@, row as nat, col as nat) == match line_col_offset(s@.skip(i as int), r as nat, col as nat) {
                Some(o) => Some((o + acc) as nat),
                None => None::<nat>,
            },
        decreases n - i,
    {
        if i == n {
            return None;
        }
        let c = s.get_char(i);
        proof {
            lemma_utf8_bytes_split(s@, i + 1);
            let t = s@.take(i + 1);
            assert(t.take(i as int) =~= s@.take(i as int));
            assert(t.skip(i as int) =~= seq![c]);
            lemma_utf8_bytes_split(t, i as int);
            lemma_utf8_bytes_single(c);
            assert(s@.skip(i as int).skip(1) =~= s@.skip(i + 1));
            assert(s@.skip(i as int)[0] == c);
        }
        if c == '\n' {
            r = r - 1;
        }
        acc = acc + utf8_len_of(c);
        i = i + 1;
    }
    let ghost rest = s@.skip(i as int);
    let mut j: usize = i;
    let mut line_bytes: usize = 0;
    proof {
        assert(s@.subrange(i as int, i as int) =~= Seq::<char>::empty());
        lemma_utf8_bytes_split(s@, i as int);
    }
    while j < n && s.get_char(j) != '\n'
        invariant
            n == s@.len(),
            total == utf8_bytes(s@),
            i <= j <= n,
            acc == utf8_bytes(s@.take(i as int)),
            line_bytes == utf8_bytes(s@.subrange(i as int, j as int)),
            first_line(rest) == s@.subrange(i as int, j as int) + first_line(s@.skip(j as int)),
            rest == s@.skip(i as int),
            acc + utf8_bytes(s@.skip(i as int)) == total,
        decreases n - j,
    {
        proof {
            let sub = s@.subrange(i as int, j + 1);
            assert(sub.take(j - i) =~= s@.subrange(i as int, j as int));
            assert(sub.skip(j - i) =~= seq![s@[j as int]]);
            lemma_utf8_bytes_split(sub, j - i);
            lemma_utf8_bytes_single(s@[j as int]);
            assert(s@.skip(j as int)[0] == s@[j as int]);
            assert(s@.skip(j as int).skip(1) =~= s@.skip(j + 1));
            assert(s@.subrange(i as int, j as int) + seq![s@[j as int]] =~= sub);
            lemma_utf8_bytes_split(s@.skip(i as int), j - i);
            assert(s@.skip(i as int).take(j - i) =~= s@.subrange(i as int, j as int));
            assert(s@.skip(i as int).skip(j - i) =~= s@.skip(j as int));
            lemma_utf8_bytes_split(s@.skip(j as int), 1);
            assert(s@.skip(j as int).take(1) =~= seq![s@[j as int]]);
            assert(s@.skip(j as int).skip(1) =~= s@.skip(j + 1));
        }
        line_bytes = line_bytes + utf8_len_of(s.get_char(j));
        j = j + 1;
    }
    proof {
        if j < n {
            assert(s@.skip(j as int)[0] == s@[j as int]);
        } else {
            assert(s@.skip(j as int) =~= Seq::<char>::empty());
        }
        assert(first_line(s@.skip(j as int)) =~= Seq::<char>::empty());
        assert(first_line(rest) =~= s@.subrange(i as int, j as int));
        lemma_first_line_bytes(rest);
    }
    if col <= line_bytes {
        Some(acc + col)
    } else {
        Some(acc)
    }
}

/// The byte offset of a parsed position in the source text (see `absolute_offset`).
pub fn position_to_absolute_offset(position: &Position, original_input: &str) -> (r: Option<usize>)
    ensures
        match r {
            Some(o) => absolute_offset(*position, original_input@) == Some(o as nat),
            None => absolute_offset(*position, original_input@) is None,
        },
{
    let zero_based_row = if position.row > 0 { position.row - 1 } else { 0 };
    line_col_offset_of(original_input, zero_based_row, position.col)
}

/// The byte offset of a source position (line counted from 1, column from 0);
/// `None` for line 0 or a line the text does not have.
pub fn source_position_to_absolute_offset(line: usize, column: usize, original_input: &str) -> (r: Option<usize>)
    ensures
        match r {
            Some(o) => line > 0 && line_col_offset(original_input@, (line - 1) as nat, column as nat) == Some(o as nat),
            None => line == 0 || line_col_offset(original_input@, (line - 1) as nat, column as nat) is None,
        },
{
    if line == 0 {
        return None;
    }
    line_col_offset_of(original_input, line - 1, column)
}


/// A token as plain values: kind, start, end and content.
pub open spec fn token_view(t: SyntaxToken) -> (Seq<char>, nat, nat, Seq<char>) {
    (t.token_type@, t.start as nat, t.end as nat, t.content@)
}

/// The views of tokens.
pub open spec fn token_views(v: Seq<SyntaxToken>) -> Seq<(Seq<char>, nat, nat, Seq<char>)> {
    v.map_values(|t: SyntaxToken| token_view(t))
}

/// The token kind, content and byte length of a parsed element; the end of
/// input has none.
pub open spec fn element_kind_content(e: ParsedElementView) -> Option<(Seq<char>, Seq<char>, nat)> {
    match e {
        ParsedElementView::Note { value, .. } => Some(("note"@, value, utf8_bytes(value))),
        ParsedElementView::Rest { value, .. } => Some(("rest"@, value, utf8_bytes(value))),
        ParsedElementView::Dash { .. } => Some(("dash"@, "-"@, 1)),
        ParsedElementView::Barline { style, .. } => Some(("barline"@, style, utf8_bytes(style))),
        ParsedElementView::Whitespace { value, .. } => Some(("whitespace"@, value, utf8_bytes(value))),
        ParsedElementView::Symbol { value, .. } => Some(("symbol"@, value, utf8_bytes(value))),
        ParsedElementView::Unknown { value, .. } => Some(("unknown"@, value, utf8_bytes(value))),
        ParsedElementView::Newline { value, .. } => Some(("newline"@, value, utf8_bytes(value))),
        ParsedElementView::EndOfInput { .. } => None,
    }
}

/// The token of a parsed element: its kind and content from the byte offset
/// of its position on; none for the end of input or a position the source
/// does not have.
pub open spec fn element_token(e: ParsedElementView, input: Seq<char>) -> Option<(Seq<char>, nat, nat, Seq<char>)> {
    match element_kind_content(e) {
        Some(kc) => match absolute_offset(position_of(e), input) {
            Some(o) => Some((kc.0, o, o + kc.2, kc.1)),
            None => None,
        },
        None => None,
    }
}

fn push_token(tokens: &mut Vec<SyntaxToken>, position: &mut usize, kind: &str, start: usize, content: &str, len: usize)
    requires
        start + len <= usize::MAX,
    ensures
        token_views(final(tokens)@) == token_views(old(tokens)@).push((kind@, start as nat, (start + len) as nat, content@)),
        *final(position) == start + len,
{
    let ghost before = tokens@;
    let t = SyntaxToken { token_type: kind.to_owned(), start, end: start + len, content: content.to_owned() };
    tokens.push(t);
    *position = start + len;
    assert(token_views(tokens@) =~= token_views(before).push((kind@, start as nat, (start + len) as nat, content@)));
}

/// Appends the token of a parsed element (see `element_token`) and moves
/// `position` to its end; elements without a token change nothing.
pub fn process_parsed_element(element: &ParsedElement, tokens: &mut Vec<SyntaxToken>, position: &mut usize, original_input: &str)
    requires
        element_token(element@, original_input@) matches Some(t) ==> t.2 <= usize::MAX,
    ensures
        match element_token(element@, original_input@) {
            Some(t) => token_views(final(tokens)@) == token_views(old(tokens)@).push(t) && *final(position) == t.2,
            None => final(tokens)@ == old(tokens)@ && *final(position) == *old(position),
        },
{
    proof {
        reveal_strlit("-");
        assert(utf8_bytes("-"@) == 1) by {
            lemma_utf8_bytes_single('-');
            assert("-"@ =~= seq!['-']);
        }
    }
    match element {
        ParsedElement::Note { value, position: pos, .. } => {
            if let Some(start) = position_to_absolute_offset(pos, original_input) {
                push_token(tokens, position, "note", start, value.as_str(), str_byte_len(value.as_str()));
            }
        },
        ParsedElement::Rest { value, position: pos, .. } => {
            if let Some(start) = position_to_absolute_offset(pos, original_input) {
                push_token(tokens, position, "rest", start, value.as_str(), str_byte_len(value.as_str()));
            }
        },
        ParsedElement::Dash { position: pos, .. } => {
            if let Some(start) = position_to_absolute_offset(pos, original_input) {
                push_token(tokens, position, "dash", start, "-", 1);
            }
        },
        ParsedElement::Barline { style, position: pos, .. } => {
            if let Some(start) = position_to_absolute_offset(pos, original_input) {
                push_token(tokens, position, "barline", start, style.as_str(), str_byte_len(style.as_str()));
            }
        },
        ParsedElement::Whitespace { value, position: pos } => {
            if let Some(start) = position_to_absolute_offset(pos, original_input) {
                push_token(tokens, position, "whitespace", start, value.as_str(), str_byte_len(value.as_str()));
            }
        },
        ParsedElement::Symbol { value, position: pos } => {
            if let Some(start) = position_to_absolute_offset(pos, original_input) {
                push_token(tokens, position, "symbol", start, value.as_str(), str_byte_len(value.as_str()));
            }
        },
        ParsedElement::Unknown { value, position: pos } => {
            if let Some(start) = position_to_absolute_offset(pos, original_input) {
                push_token(tokens, position, "unknown", start, value.as_str(), str_byte_len(value.as_str()));
            }
        },
        ParsedElement::Newline { value, position: pos } => {
            if let Some(start) = position_to_absolute_offset(pos, original_input) {
                push_token(tokens, position, "newline", start, value.as_str(), str_byte_len(value.as_str()));
            }
        },
        ParsedElement::EndOfInput { .. } => {},
    }
}


/// The character position of each style.
pub open spec fn style_positions(v: Seq<CharacterStyle>) -> Seq<usize> {
    v.map_values(|st: CharacterStyle| st.pos)
}

/// Index of the first style at character `p`.
pub open spec fn first_style_at(ps: Seq<usize>, p: usize) -> Option<int>
    decreases ps.len(),
{
    if ps.len() == 0 {
        None
    } else if ps[0] == p {
        Some(0)
    } else {
        match first_style_at(ps.skip(1), p) {
            Some(j) => Some(j + 1),
            None => None,
        }
    }
}

/// The classes a group gives its element `i` of `len`: `in-<name>`, then
/// `<name>-start` and `<name>-<count>` for the first, `<name>-end` for the
/// last and `<name>-middle` for the others.
pub open spec fn group_classes(name: Seq<char>, i: nat, len: nat, count: nat) -> Seq<Seq<char>> {
    seq!["in-"@ + name] + if i == 0 {
        seq![name + "-start"@, name + "-"@ + nat_digits(count)]
    } else if i == len - 1 {
        seq![name + "-end"@]
    } else {
        seq![name + "-middle"@]
    }
}

/// Class lists after the first `k` group positions gave their classes to the
/// first style at each (a position without a style is skipped).
pub open spec fn grouped_classes(classes: Seq<Seq<Seq<char>>>, ps: Seq<usize>, positions: Seq<usize>, count: nat, name: Seq<char>, k: int) -> Seq<Seq<Seq<char>>>
    decreases k,
{
    if k <= 0 {
        classes
    } else {
        let prev = grouped_classes(classes, ps, positions, count, name, k - 1);
        match first_style_at(ps, positions[k - 1]) {
            Some(j) => prev.update(j, prev[j] + group_classes(name, (k - 1) as nat, positions.len(), count)),
            None => prev,
        }
    }
}

proof fn lemma_first_style_at_bound(ps: Seq<usize>, p: usize)
    ensures
        first_style_at(ps, p) matches Some(j) ==> 0 <= j < ps.len() && ps[j] == p,
    decreases ps.len(),
{
    if ps.len() > 0 && ps[0] != p {
        lemma_first_style_at_bound(ps.skip(1), p);
    }
}

fn find_style_at(styles: &Vec<CharacterStyle>, p: usize) -> (r: Option<usize>)
    ensures
        match r {
            Some(j) => first_style_at(style_positions(styles@), p) == Some(j as int),
            None => first_style_at(style_positions(styles@), p) is None,
        },
{
    let ghost ps = style_positions(styles@);
    let mut j: usize = 0;
    proof {
        assert(ps.skip(0) =~= ps);
    }
    while j < styles.len()
        invariant
            ps == style_positions(styles@),
            j <= styles@.len(),
            first_style_at(ps, p) == match first_style_at(ps.skip(j as int), p) {
                Some(t) => Some(t + j),
                None => None::<int>,
            },
        decreases styles@.len() - j,
    {
        proof {
            assert(ps.skip(j as int)[0] == styles@[j as int].pos);
            assert(ps.skip(j as int).skip(1) =~= ps.skip(j + 1));
        }
        if styles[j].pos == p {
            return Some(j);
        }
        j = j + 1;
    }
    proof {
        assert(ps.skip(j as int) =~= Seq::<usize>::empty());
    }
    None
}

fn push_class(classes: &mut Vec<String>, c: String)
    ensures
        final(classes)@.map_values(|x: String| x@) == old(classes)@.map_values(|x: String| x@).push(c@),
{
    let ghost before = classes@;
    let ghost cv = c@;
    classes.push(c);
    assert(classes@.map_values(|x: String| x@) =~= before.map_values(|x: String| x@).push(cv));
}

fn add_group_classes(styles: &mut Vec<CharacterStyle>, positions: &[usize], count: usize, name: &str)
    ensures
        style_positions(final(styles)@) == style_positions(old(styles)@),
        style_classes(final(styles)@) == grouped_classes(style_classes(old(styles)@), style_positions(old(styles)@),
            positions@, count as nat, name@, positions@.len() as int),
{
    let ghost ps = style_positions(styles@);
    let ghost cl0 = style_classes(styles@);
    let mut i: usize = 0;
    while i < positions.len()
        invariant
            style_positions(styles@) == ps,
            style_classes(styles@) == grouped_classes(cl0, ps, positions@, count as nat, name@, i as int),
            i <= positions@.len(),
        decreases positions@.len() - i,
    {
        let ghost prev = style_classes(styles@);
        let found = find_style_at(styles, positions[i]);
        if let Some(j) = found {
            proof {
                lemma_first_style_at_bound(ps, positions@[i as int]);
            }
            let mut st = styles.remove(j);
            let ghost st0 = st;
            let mut first = "in-".to_owned();
            first.append(name);
            push_class(&mut st.classes, first);
            if i == 0 {
                let mut a = name.to_owned();
                a.append("-start");
                push_class(&mut st.classes, a);
                let mut b = name.to_owned();
                b.append("-");
                append_digits(&mut b, count);
                push_class(&mut st.classes, b);
            } else if i == positions.len() - 1 {
                let mut a = name.to_owned();
                a.append("-end");
                push_class(&mut st.classes, a);
            } else {
                let mut a = name.to_owned();
                a.append("-middle");
                push_class(&mut st.classes, a);
            }
            proof {
                assert(st.classes@.map_values(|x: String| x@) =~= st0.classes@.map_values(|x: String| x@)
                    + group_classes(name@, i as nat, positions@.len() as nat, count as nat));
            }
            styles.insert(j, st);
            proof {
                assert(style_positions(styles@) =~= ps);
                assert(style_classes(styles@) =~= prev.update(j as int, prev[j as int] + group_classes(name@, i as nat, positions@.len() as nat, count as nat)));
            }
        }
        i = i + 1;
    }
}

/// Gives slur classes (see `group_classes` with `slur`) to the first style
/// at each position, the first one getting the slur's note count.
pub fn add_slur_classes(styles: &mut Vec<CharacterStyle>, positions: &[usize], count: usize)
    ensures
        style_positions(final(styles)@) == style_positions(old(styles)@),
        style_classes(final(styles)@) == grouped_classes(style_classes(old(styles)@), style_positions(old(styles)@),
            positions@, count as nat, "slur"@, positions@.len() as int),
{
    add_group_classes(styles, positions, count, "slur");
}

/// Gives beat group classes (see `group_classes` with `beat-group`) to the
/// first style at each position, the first one getting the group's size.
pub fn add_beat_group_classes(styles: &mut Vec<CharacterStyle>, positions: &[usize], count: usize)
    ensures
        style_positions(final(styles)@) == style_positions(old(styles)@),
        style_classes(final(styles)@) == grouped_classes(style_classes(old(styles)@), style_positions(old(styles)@),
            positions@, count as nat, "beat-group"@, positions@.len() as int),
{
    add_group_classes(styles, positions, count, "beat-group");
}


/// The entry of an element at a position with a duration: its byte offset
/// and duration, when the source has the position.
pub open spec fn offset_entry(p: Position, d: Option<(usize, usize)>, input: Seq<char>) -> Seq<(usize, Option<(usize, usize)>)> {
    match absolute_offset(p, input) {
        Some(o) => seq![(o as usize, d)],
        None => Seq::empty(),
    }
}

/// The byte offsets and durations of the notes outside explicit beat groups,
/// rests and dashes, in order.
pub open spec fn musical_entries(els: Seq<ParsedElementView>, input: Seq<char>) -> Seq<(usize, Option<(usize, usize)>)>
    decreases els.len(),
{
    if els.len() == 0 {
        Seq::empty()
    } else {
        musical_entries(els.drop_last(), input) + match els.last() {
            ParsedElementView::Note { position, duration, in_beat_group, .. } =>
                if in_beat_group { Seq::empty() } else { offset_entry(position, duration, input) },
            ParsedElementView::Rest { position, duration, .. } => offset_entry(position, duration, input),
            ParsedElementView::Dash { position, duration, .. } => offset_entry(position, duration, input),
            _ => Seq::empty(),
        }
    }
}

/// Whether an entry joins the run before it: both durations are known,
/// equal, and a quarter or shorter (denominator of at least 4).
pub open spec fn joins_run(last: Option<(usize, usize)>, d: Option<(usize, usize)>) -> bool {
    match (last, d) {
        (Some(l), Some(c)) => l == c && l.1 >= 4,
        _ => false,
    }
}

/// Scanning entries into runs of equal short durations: the runs of two or
/// more closed so far, the open run and the last duration.
pub open spec fn implicit_scan(es: Seq<(usize, Option<(usize, usize)>)>) -> (Seq<Seq<usize>>, Seq<usize>, Option<(usize, usize)>)
    decreases es.len(),
{
    if es.len() == 0 {
        (Seq::empty(), Seq::empty(), None)
    } else {
        let prev = implicit_scan(es.drop_last());
        let e = es.last();
        if joins_run(prev.2, e.1) {
            (prev.0, prev.1.push(e.0), e.1)
        } else {
            (if prev.1.len() >= 2 { prev.0.push(prev.1) } else { prev.0 }, seq![e.0], e.1)
        }
    }
}

/// The implicit beat groups of entries: the runs of two or more.
pub open spec fn implicit_groups(es: Seq<(usize, Option<(usize, usize)>)>) -> Seq<Seq<usize>> {
    let s = implicit_scan(es);
    if s.1.len() >= 2 { s.0.push(s.1) } else { s.0 }
}

/// Class lists after the first `k` groups gave their beat group classes.
pub open spec fn apply_beat_groups(classes: Seq<Seq<Seq<char>>>, ps: Seq<usize>, groups: Seq<Seq<usize>>, k: int) -> Seq<Seq<Seq<char>>>
    decreases k,
{
    if k <= 0 {
        classes
    } else {
        let g = groups[k - 1];
        grouped_classes(apply_beat_groups(classes, ps, groups, k - 1), ps, g, g.len(), "beat-group"@, g.len() as int)
    }
}

proof fn lemma_apply_prefix(c: Seq<Seq<Seq<char>>>, ps: Seq<usize>, g1: Seq<Seq<usize>>, g2: Seq<Seq<usize>>, k: int)
    requires
        k <= g1.len(),
        k <= g2.len(),
        forall|j: int| 0 <= j < k ==> g1[j] == g2[j],
    ensures
        apply_beat_groups(c, ps, g1, k) == apply_beat_groups(c, ps, g2, k),
    decreases k,
{
    if k > 0 {
        lemma_apply_prefix(c, ps, g1, g2, k - 1);
    }
}

fn push_entry(es: &mut Vec<(usize, Option<(usize, usize)>)>, p: &Position, d: Option<(usize, usize)>, input: &str)
    ensures
        final(es)@ == old(es)@ + offset_entry(*p, d, input@),
{
    let found = position_to_absolute_offset(p, input);
    match found {
        Some(o) => {
            es.push((o, d));
        },
        None => {},
    }
}

/// Marks implicit beat groups: runs of two or more consecutive notes (outside
/// explicit groups), rests and dashes with the same quarter-or-shorter
/// duration get beat group classes at their byte offsets in the source.
fn mark_implicit_beat_groups(styles: &mut Vec<CharacterStyle>, content_elements: &[ParsedElement], original_input: &str)
    ensures
        style_positions(final(styles)@) == style_positions(old(styles)@),
        ({
            let groups = implicit_groups(musical_entries(elements_view(content_elements@), original_input@));
            style_classes(final(styles)@) == apply_beat_groups(style_classes(old(styles)@), style_positions(old(styles)@), groups, groups.len() as int)
        }),
{
    let ghost ev = elements_view(content_elements@);
    let mut entries: Vec<(usize, Option<(usize, usize)>)> = Vec::new();
    let mut i: usize = 0;
    proof {
        assert(ev.take(0) =~= Seq::<ParsedElementView>::empty());
    }
    while i < content_elements.len()
        invariant
            ev == elements_view(content_elements@),
            i <= content_elements@.len(),
            entries@ == musical_entries(ev.take(i as int), original_input@),
        decreases content_elements@.len() - i,
    {
        proof {
            let t = ev.take(i + 1);
            assert(t.drop_last() =~= ev.take(i as int));
            assert(t.last() == content_elements@[i as int]@);
        }
        match &content_elements[i] {
            ParsedElement::Note { position, duration, in_beat_group, .. } => {
                if !*in_beat_group {
                    push_entry(&mut entries, position, *duration, original_input);
                }
            },
            ParsedElement::Rest { position, duration, .. } => {
                push_entry(&mut entries, position, *duration, original_input);
            },
            ParsedElement::Dash { position, duration, .. } => {
                push_entry(&mut entries, position, *duration, original_input);
            },
            _ => {},
        }
        i = i + 1;
    }
    proof {
        assert(ev.take(i as int) =~= ev);
    }
    let ghost es = entries@;
    let ghost ps = style_positions(styles@);
    let ghost cl0 = style_classes(styles@);
    let mut current: Vec<usize> = Vec::new();
    let mut last: Option<(usize, usize)> = None;
    let ghost mut closed: Seq<Seq<usize>> = Seq::empty();
    let mut k: usize = 0;
    proof {
        assert(es.take(0) =~= Seq::<(usize, Option<(usize, usize)>)>::empty());
    }
    while k < entries.len()
        invariant
            entries@ == es,
            k <= es.len(),
            implicit_scan(es.take(k as int)) == (closed, current@, last),
            style_positions(styles@) == ps,
            style_classes(styles@) == apply_beat_groups(cl0, ps, closed, closed.len() as int),
        decreases es.len() - k,
    {
        let ghost t = es.take(k + 1);
        proof {
            assert(t.drop_last() =~= es.take(k as int));
            assert(t.last() == es[k as int]);
        }
        let (p, d) = entries[k];
        let grouped = match (last, d) {
            (Some(l), Some(c)) => l.0 == c.0 && l.1 == c.1 && l.1 >= 4,
            _ => false,
        };
        if grouped {
            current.push(p);
        } else {
            if current.len() >= 2 {
                let ghost before = closed;
                add_beat_group_classes(styles, current.as_slice(), current.len());
                proof {
                    closed = closed.push(current@);
                    lemma_apply_prefix(cl0, ps, before, closed, before.len() as int);
                }
            }
            current = Vec::new();
            current.push(p);
            proof {
                assert(current@ =~= seq![p]);
            }
        }
        last = d;
        k = k + 1;
    }
    proof {
        assert(es.take(k as int) =~= es);
    }
    if current.len() >= 2 {
        let ghost before = closed;
        add_beat_group_classes(styles, current.as_slice(), current.len());
        proof {
            closed = closed.push(current@);
            lemma_apply_prefix(cl0, ps, before, closed, before.len() as int);
        }
    }
}


/// Whether some token covers byte position `p`.
pub open spec fn covered(tokens: Seq<SyntaxToken>, p: int) -> bool {
    exists|k: int| 0 <= k < tokens.len() && (#[trigger] tokens[k]).start <= p < tokens[k].end
}

/// Scanning positions `0..n` for uncovered runs: the runs closed so far
/// (start, end) and the start of the open one.
pub open spec fn gap_scan(tokens: Seq<SyntaxToken>, n: nat) -> (Seq<(nat, nat)>, Option<nat>)
    decreases n,
{
    if n == 0 {
        (Seq::empty(), None)
    } else {
        let p = (n - 1) as nat;
        let prev = gap_scan(tokens, p);
        if !covered(tokens, p as int) {
            (prev.0, if prev.1 is None { Some(p) } else { prev.1 })
        } else {
            match prev.1 {
                Some(st) => (prev.0.push((st, p)), None),
                None => (prev.0, None),
            }
        }
    }
}

/// The maximal runs of positions below `n` that no token covers.
pub open spec fn gaps(tokens: Seq<SyntaxToken>, n: nat) -> Seq<(nat, nat)> {
    let sc = gap_scan(tokens, n);
    match sc.1 {
        Some(st) => sc.0.push((st, n)),
        None => sc.0,
    }
}

/// The `dummy` token filling a gap with the characters of the source it spans.
pub open spec fn gap_token(input: Seq<char>, g: (nat, nat)) -> (Seq<char>, nat, nat, Seq<char>) {
    ("dummy"@, g.0, g.1, input.subrange(g.0 as int, g.1 as int))
}

/// Index of the first token starting after `start`.
pub open spec fn first_starting_after(s: Seq<(Seq<char>, nat, nat, Seq<char>)>, start: nat) -> int
    decreases s.len(),
{
    if s.len() == 0 { 0 } else if s[0].1 > start { 0 } else { 1 + first_starting_after(s.skip(1), start) }
}

/// Tokens ordered by start, tokens with the same start keeping their order
/// (a stable sort).
pub open spec fn sorted_by_start(s: Seq<(Seq<char>, nat, nat, Seq<char>)>) -> Seq<(Seq<char>, nat, nat, Seq<char>)>
    decreases s.len(),
{
    if s.len() == 0 {
        Seq::empty()
    } else {
        let r = sorted_by_start(s.drop_last());
        r.insert(first_starting_after(r, s.last().1), s.last())
    }
}

/// The tokens with every uncovered run of positions below `input_length`
/// filled by a `dummy` token, ordered by start.
pub open spec fn filled_tokens(tokens: Seq<SyntaxToken>, input_length: nat, input: Seq<char>) -> Seq<(Seq<char>, nat, nat, Seq<char>)> {
    let g = gaps(tokens, input_length);
    sorted_by_start(token_views(tokens) + g.map_values(|x: (nat, nat)| gap_token(input, x)))
}

proof fn lemma_first_starting_after_bound(s: Seq<(Seq<char>, nat, nat, Seq<char>)>, start: nat)
    ensures
        0 <= first_starting_after(s, start) <= s.len(),
    decreases s.len(),
{
    if s.len() > 0 {
        lemma_first_starting_after_bound(s.skip(1), start);
    }
}

fn insert_by_start(r: &mut Vec<SyntaxToken>, t: SyntaxToken)
    ensures
        final(r)@.len() == old(r)@.len() + 1,
        token_views(final(r)@) == token_views(old(r)@).insert(first_starting_after(token_views(old(r)@), t.start as nat), token_view(t)),
{
    let ghost s = token_views(r@);
    let ghost tv = token_view(t);
    let mut j: usize = 0;
    proof {
        assert(s.skip(0) =~= s);
    }
    while j < r.len() && r[j].start <= t.start
        invariant
            token_views(r@) == s,
            j <= s.len(),
            first_starting_after(s, t.start as nat) == j + first_starting_after(s.skip(j as int), t.start as nat),
        decreases s.len() - j,
    {
        proof {
            assert(s.skip(j as int)[0] == s[j as int]);
            assert(s.skip(j as int).skip(1) =~= s.skip(j + 1));
        }
        j = j + 1;
    }
    proof {
        if j < s.len() {
            assert(s.skip(j as int)[0] == s[j as int]);
        }
    }
    let ghost before = r@;
    r.insert(j, t);
    assert(token_views(r@) =~= s.insert(j as int, tv));
}

fn chars_between(input: &str, start: usize, end: usize) -> (r: String)
    requires
        start <= end <= input@.len(),
    ensures
        r@ == input@.subrange(start as int, end as int),
{
    let mut r = String::new();
    let mut j = start;
    while j < end
        invariant
            start <= j <= end <= input@.len(),
            r@ == input@.subrange(start as int, j as int),
        decreases end - j,
    {
        push_char(&mut r, input.get_char(j));
        assert(r@ =~= input@.subrange(start as int, j + 1));
        j = j + 1;
    }
    r
}

/// Fills the runs of positions below `input_length` that no token covers
/// with `dummy` tokens and orders all tokens by start (see `filled_tokens`).
/// The source must have a character at every uncovered position.
pub fn fill_token_gaps(tokens: Vec<SyntaxToken>, input_length: usize, original_input: &str) -> (r: Vec<SyntaxToken>)
    requires
        forall|p: int| original_input@.len() <= p < input_length ==> covered(tokens@, p),
    ensures
        token_views(r@) == filled_tokens(tokens@, input_length as nat, original_input@),
{
    let ghost tv = tokens@;
    let n = input_length;
    let mut covered_at: Vec<bool> = Vec::new();
    while covered_at.len() < n
        invariant
            covered_at@.len() <= n,
            forall|p: int| 0 <= p < covered_at@.len() ==> !covered_at@[p],
        decreases n - covered_at@.len(),
    {
        covered_at.push(false);
    }
    let mut i: usize = 0;
    while i < tokens.len()
        invariant
            tokens@ == tv,
            covered_at@.len() == n,
            i <= tv.len(),
            forall|p: int| 0 <= p < n ==> (covered_at@[p] <==> exists|k: int| 0 <= k < i && (#[trigger] tv[k]).start <= p < tv[k].end),
        decreases tv.len() - i,
    {
        let st = tokens[i].start;
        let en = if tokens[i].end < n { tokens[i].end } else { n };
        let mut pos = st;
        while pos < en
            invariant
                tokens@ == tv,
                covered_at@.len() == n,
                i < tv.len(),
                st == tv[i as int].start,
                en <= n,
                en <= tv[i as int].end,
                st <= pos,
                forall|p: int| 0 <= p < n ==> (covered_at@[p] <==> (exists|k: int| 0 <= k < i && (#[trigger] tv[k]).start <= p < tv[k].end)
                    || (st <= p < pos && p < en)),
            decreases en - pos,
        {
            let ghost before = covered_at@;
            covered_at.set(pos, true);
            proof {
                assert forall|q: int| 0 <= q < n implies (covered_at@[q] <==> (exists|k: int| 0 <= k < i && (#[trigger] tv[k]).start <= q < tv[k].end)
                    || (st <= q < pos + 1 && q < en)) by {
                    if q != pos {
                        assert(covered_at@[q] == before[q]);
                    } else {
                        assert(covered_at@[q]);
                        assert(st <= q < pos + 1 && q < en);
                    }
                }
            }
            pos = pos + 1;
        }
        proof {
            assert forall|p: int| 0 <= p < n implies (covered_at@[p] <==> exists|k: int| 0 <= k < i + 1 && (#[trigger] tv[k]).start <= p < tv[k].end) by {
                if st <= p < tv[i as int].end {
                    assert(tv[i as int].start <= p < tv[i as int].end);
                }
                if exists|k: int| 0 <= k < i + 1 && (#[trigger] tv[k]).start <= p < tv[k].end {
                    let k = choose|k: int| 0 <= k < i + 1 && (#[trigger] tv[k]).start <= p < tv[k].end;
                    if k == i {
                        assert(st <= p && p < pos);
                    }
                }
            }
        }
        i = i + 1;
    }
    proof {
        assert forall|p: int| 0 <= p < n implies (covered_at@[p] == covered(tv, p)) by {}
    }
    let mut result = tokens;
    let ghost mut found: Seq<(nat, nat)> = Seq::empty();
    let mut gap_start: Option<usize> = None;
    let mut p: usize = 0;
    while p < n
        invariant
            covered_at@.len() == n,
            forall|q: int| 0 <= q < n ==> covered_at@[q] == covered(tv, q),
            forall|q: int| original_input@.len() <= q < n ==> covered(tv, q),
            p <= n,
            gap_scan(tv, p as nat) == (found, match gap_start { Some(g) => Some(g as nat), None => None::<nat> }),
            gap_start matches Some(g) ==> g < p && g < original_input@.len(),
            token_views(result@) == token_views(tv) + found.map_values(|x: (nat, nat)| gap_token(original_input@, x)),
            forall|k: int| 0 <= k < found.len() ==> (#[trigger] found[k]).0 <= found[k].1 <= original_input@.len(),
        decreases n - p,
    {
        if !covered_at[p] {
            proof {
                if p >= original_input@.len() {
                    assert(covered(tv, p as int));
                }
            }
            if gap_start.is_none() {
                gap_start = Some(p);
            }
        } else {
            if let Some(start) = gap_start {
                let content = chars_between(original_input, start, p);
                let ghost before = result@;
                result.push(SyntaxToken { token_type: "dummy".to_owned(), start, end: p, content });
                proof {
                    let old_found = found;
                    found = found.push((start as nat, p as nat));
                    assert(found.map_values(|x: (nat, nat)| gap_token(original_input@, x))
                        =~= old_found.map_values(|x: (nat, nat)| gap_token(original_input@, x)).push(gap_token(original_input@, (start as nat, p as nat))));
                    assert(token_views(result@) =~= token_views(before).push(gap_token(original_input@, (start as nat, p as nat))));
                }
                gap_start = None;
            }
        }
        p = p + 1;
    }
    if let Some(start) = gap_start {
        let content = chars_between(original_input, start, n);
        let ghost before = result@;
        result.push(SyntaxToken { token_type: "dummy".to_owned(), start, end: n, content });
        proof {
            let old_found = found;
            found = found.push((start as nat, n as nat));
            assert(found.map_values(|x: (nat, nat)| gap_token(original_input@, x))
                =~= old_found.map_values(|x: (nat, nat)| gap_token(original_input@, x)).push(gap_token(original_input@, (start as nat, n as nat))));
            assert(token_views(result@) =~= token_views(before).push(gap_token(original_input@, (start as nat, n as nat))));
        }
    }
    let ghost unsorted = token_views(result@);
    proof {
        assert(unsorted == token_views(tv) + gaps(tv, n as nat).map_values(|x: (nat, nat)| gap_token(original_input@, x)));
    }
    let mut sorted: Vec<SyntaxToken> = Vec::new();
    let mut k: usize = 0;
    proof {
        assert(unsorted.take(0) =~= Seq::<(Seq<char>, nat, nat, Seq<char>)>::empty());
        assert(token_views(sorted@) =~= Seq::<(Seq<char>, nat, nat, Seq<char>)>::empty());
        assert(token_views(result@) =~= unsorted.skip(0));
    }
    while result.len() > 0
        invariant
            k <= unsorted.len(),
            token_views(result@) == unsorted.skip(k as int),
            sorted@.len() == k,
            token_views(sorted@) == sorted_by_start(unsorted.take(k as int)),
        decreases result@.len(),
    {
        let ghost rest = result@;
        proof {
            assert(token_views(rest).len() == rest.len());
            assert(unsorted.skip(k as int).len() == unsorted.len() - k);
            assert(token_views(rest)[0] == token_view(rest[0]));
        }
        let t = result.remove(0);
        proof {
            assert(token_view(t) == unsorted[k as int]);
            assert(result@ =~= rest.skip(1));
            assert(token_views(rest.skip(1)) =~= token_views(rest).skip(1));
            assert(unsorted.skip(k as int).skip(1) =~= unsorted.skip(k + 1));
            assert(token_views(result@) =~= unsorted.skip(k + 1));
            let tk = unsorted.take(k + 1);
            assert(tk.drop_last() =~= unsorted.take(k as int));
            assert(tk.last() == unsorted[k as int]);
        }
        insert_by_start(&mut sorted, t);
        k = sorted.len();
    }
    proof {
        assert(unsorted.skip(k as int).len() == 0);
        assert(unsorted.take(k as int) =~= unsorted);
    }
    sorted
}


/// The column of a note, rest, dash, bar line or whitespace.
pub open spec fn spanned_column(e: ParsedElementView) -> Option<usize> {
    match e {
        ParsedElementView::Note { position, .. } => Some(position.col),
        ParsedElementView::Rest { position, .. } => Some(position.col),
        ParsedElementView::Dash { position, .. } => Some(position.col),
        ParsedElementView::Barline { position, .. } => Some(position.col),
        ParsedElementView::Whitespace { position, .. } => Some(position.col),
        _ => None,
    }
}

/// The byte offsets, on the source's first line, of the elements whose
/// column lies within `span` (both ends included), in element order.
pub open spec fn span_offsets(els: Seq<ParsedElementView>, input: Seq<char>, span: (usize, usize)) -> Seq<usize>
    decreases els.len(),
{
    if els.len() == 0 {
        Seq::empty()
    } else {
        span_offsets(els.drop_last(), input, span) + match spanned_column(els.last()) {
            Some(c) => if span.0 <= c && c <= span.1 {
                match line_col_offset(input, 0, c as nat) {
                    Some(o) => seq![o as usize],
                    None => Seq::empty(),
                }
            } else {
                Seq::empty()
            },
            None => Seq::empty(),
        }
    }
}

/// Index of the first number greater than `x`.
pub open spec fn first_greater(s: Seq<usize>, x: usize) -> int
    decreases s.len(),
{
    if s.len() == 0 { 0 } else if s[0] > x { 0 } else { 1 + first_greater(s.skip(1), x) }
}

/// Numbers in ascending order.
pub open spec fn ascending(s: Seq<usize>) -> Seq<usize>
    decreases s.len(),
{
    if s.len() == 0 {
        Seq::empty()
    } else {
        let r = ascending(s.drop_last());
        r.insert(first_greater(r, s.last()), s.last())
    }
}

/// Class lists after the first `k` spans gave `name` classes to the elements
/// they hold, in ascending order, where they hold two or more.
pub open spec fn apply_spans(classes: Seq<Seq<Seq<char>>>, ps: Seq<usize>, els: Seq<ParsedElementView>, input: Seq<char>,
    spans: Seq<(usize, usize)>, name: Seq<char>, k: int) -> Seq<Seq<Seq<char>>>
    decreases k,
{
    if k <= 0 {
        classes
    } else {
        let prev = apply_spans(classes, ps, els, input, spans, name, k - 1);
        let g = ascending(span_offsets(els, input, spans[k - 1]));
        if g.len() >= 2 { grouped_classes(prev, ps, g, g.len(), name, g.len() as int) } else { prev }
    }
}

fn insert_ascending(r: &mut Vec<usize>, x: usize)
    ensures
        final(r)@ == old(r)@.insert(first_greater(old(r)@, x), x),
{
    let ghost s = r@;
    let mut j: usize = 0;
    proof {
        assert(s.skip(0) =~= s);
    }
    while j < r.len() && r[j] <= x
        invariant
            r@ == s,
            j <= s.len(),
            first_greater(s, x) == j + first_greater(s.skip(j as int), x),
        decreases s.len() - j,
    {
        proof {
            assert(s.skip(j as int)[0] == s[j as int]);
            assert(s.skip(j as int).skip(1) =~= s.skip(j + 1));
        }
        j = j + 1;
    }
    proof {
        if j < s.len() {
            assert(s.skip(j as int)[0] == s[j as int]);
        }
    }
    r.insert(j, x);
}

fn span_group(content_elements: &[ParsedElement], original_input: &str, span: (usize, usize)) -> (r: Vec<usize>)
    ensures
        r@ == ascending(span_offsets(elements_view(content_elements@), original_input@, span)),
{
    let ghost ev = elements_view(content_elements@);
    let mut found: Vec<usize> = Vec::new();
    let mut i: usize = 0;
    proof {
        assert(ev.take(0) =~= Seq::<ParsedElementView>::empty());
    }
    while i < content_elements.len()
        invariant
            ev == elements_view(content_elements@),
            i <= content_elements@.len(),
            found@ == span_offsets(ev.take(i as int), original_input@, span),
        decreases content_elements@.len() - i,
    {
        proof {
            let t = ev.take(i + 1);
            assert(t.drop_last() =~= ev.take(i as int));
            assert(t.last() == content_elements@[i as int]@);
        }
        let col = match &content_elements[i] {
            ParsedElement::Note { position, .. } => Some(position.col),
            ParsedElement::Rest { position, .. } => Some(position.col),
            ParsedElement::Dash { position, .. } => Some(position.col),
            ParsedElement::Barline { position, .. } => Some(position.col),
            ParsedElement::Whitespace { position, .. } => Some(position.col),
            _ => None,
        };
        if let Some(c) = col {
            if span.0 <= c && c <= span.1 {
                let off = line_col_offset_of(original_input, 0, c);
                if let Some(o) = off {
                    found.push(o);
                }
            }
        }
        i = i + 1;
    }
    proof {
        assert(ev.take(i as int) =~= ev);
    }
    let ghost all = found@;
    let mut sorted: Vec<usize> = Vec::new();
    let mut k: usize = 0;
    proof {
        assert(all.take(0) =~= Seq::<usize>::empty());
    }
    while k < found.len()
        invariant
            found@ == all,
            k <= all.len(),
            sorted@ == ascending(all.take(k as int)),
        decreases all.len() - k,
    {
        proof {
            let t = all.take(k + 1);
            assert(t.drop_last() =~= all.take(k as int));
            assert(t.last() == all[k as int]);
        }
        insert_ascending(&mut sorted, found[k]);
        k = k + 1;
    }
    proof {
        assert(all.take(k as int) =~= all);
    }
    sorted
}

fn process_spans(styles: &mut Vec<CharacterStyle>, content_elements: &[ParsedElement], spans: &[(usize, usize)], original_input: &str, name: &str)
    ensures
        style_positions(final(styles)@) == style_positions(old(styles)@),
        style_classes(final(styles)@) == apply_spans(style_classes(old(styles)@), style_positions(old(styles)@),
            elements_view(content_elements@), original_input@, spans@, name@, spans@.len() as int),
{
    let ghost ps = style_positions(styles@);
    let ghost cl0 = style_classes(styles@);
    let mut i: usize = 0;
    while i < spans.len()
        invariant
            style_positions(styles@) == ps,
            i <= spans@.len(),
            style_classes(styles@) == apply_spans(cl0, ps, elements_view(content_elements@), original_input@, spans@, name@, i as int),
        decreases spans@.len() - i,
    {
        let group = span_group(content_elements, original_input, spans[i]);
        if group.len() >= 2 {
            add_group_classes(styles, group.as_slice(), group.len(), name);
        }
        i = i + 1;
    }
}

/// The text of field `inner` of field `outer`, when both are there.
pub open spec fn nested_str(v: JsonValue, outer: Seq<char>, inner: Seq<char>) -> Option<Seq<char>> {
    match json_get(v, outer) {
        Some(x) => str_field(x, inner),
        None => None,
    }
}

/// Whether an object has a field.
pub open spec fn has_field(v: JsonValue, key: Seq<char>) -> bool {
    json_get(v, key) is Some
}

/// A token of `content` from `pos`, and the position after it.
pub open spec fn token_at(kind: Seq<char>, content: Seq<char>, pos: nat) -> (Seq<(Seq<char>, nat, nat, Seq<char>)>, nat) {
    (seq![(kind, pos, pos + utf8_bytes(content), content)], pos + utf8_bytes(content))
}

/// A token of the text of field `inner` of field `outer` (none, and the
/// position unchanged, without that text).
pub open spec fn field_token(v: JsonValue, outer: Seq<char>, inner: Seq<char>, kind: Seq<char>, pos: nat) -> (Seq<(Seq<char>, nat, nat, Seq<char>)>, nat) {
    match nested_str(v, outer, inner) {
        Some(c) => token_at(kind, c, pos),
        None => (Seq::empty(), pos),
    }
}

/// Skipping the text of field `inner` of field `outer`.
pub open spec fn field_skip(v: JsonValue, outer: Seq<char>, inner: Seq<char>, pos: nat) -> (Seq<(Seq<char>, nat, nat, Seq<char>)>, nat) {
    match nested_str(v, outer, inner) {
        Some(c) => (Seq::empty(), pos + utf8_bytes(c)),
        None => (Seq::empty(), pos),
    }
}

/// The tokens of an element of a content line of a JSON document, from byte
/// position `pos`, with the position after it: notes, bar lines, dashes,
/// rests, breath marks and unknown text get tokens; whitespace and newlines
/// only move the position.
pub open spec fn json_content_element(el: JsonValue, pos: nat) -> (Seq<(Seq<char>, nat, nat, Seq<char>)>, nat) {
    if has_field(el, "Note"@) {
        field_token(el, "Note"@, "value"@, "note"@, pos)
    } else if has_field(el, "Whitespace"@) {
        field_skip(el, "Whitespace"@, "value"@, pos)
    } else if has_field(el, "Barline"@) {
        field_token(el, "Barline"@, "style"@, "barline"@, pos)
    } else if has_field(el, "Dash"@) {
        token_at("dash"@, "-"@, pos)
    } else if has_field(el, "Rest"@) {
        field_token(el, "Rest"@, "value"@, "rest"@, pos)
    } else if has_field(el, "Breath"@) {
        token_at("breath"@, "'"@, pos)
    } else if has_field(el, "Newline"@) {
        field_skip(el, "Newline"@, "value"@, pos)
    } else if has_field(el, "Unknown"@) {
        field_token(el, "Unknown"@, "value"@, "unknown"@, pos)
    } else {
        (Seq::empty(), pos)
    }
}

/// The tokens of a content line's elements, in order.
pub open spec fn json_content_tokens(els: Seq<JsonValue>, pos: nat) -> (Seq<(Seq<char>, nat, nat, Seq<char>)>, nat)
    decreases els.len(),
{
    if els.len() == 0 {
        (Seq::empty(), pos)
    } else {
        let a = json_content_tokens(els.drop_last(), pos);
        let b = json_content_element(els.last(), a.1);
        (a.0 + b.0, b.1)
    }
}

proof fn lemma_json_content_tokens_grows(els: Seq<JsonValue>, pos: nat, k: int)
    requires
        0 <= k <= els.len(),
    ensures
        pos <= json_content_tokens(els.take(k), pos).1 <= json_content_tokens(els, pos).1,
    decreases els.len() - k,
{
    if k < els.len() {
        lemma_json_content_tokens_grows(els, pos, k + 1);
        assert(els.take(k + 1).drop_last() =~= els.take(k));
        lemma_json_content_element_grows(els.take(k + 1).last(), json_content_tokens(els.take(k), pos).1);
        lemma_json_content_tokens_start(els.take(k), pos);
    } else {
        assert(els.take(k) =~= els);
        lemma_json_content_tokens_start(els, pos);
    }
}

proof fn lemma_json_content_tokens_start(els: Seq<JsonValue>, pos: nat)
    ensures
        pos <= json_content_tokens(els, pos).1,
    decreases els.len(),
{
    if els.len() > 0 {
        lemma_json_content_tokens_start(els.drop_last(), pos);
        lemma_json_content_element_grows(els.last(), json_content_tokens(els.drop_last(), pos).1);
    }
}

/// The tokens of a line of a stave: its blank lines, or its content line.
pub open spec fn json_line(line: JsonValue, pos: nat) -> (Seq<(Seq<char>, nat, nat, Seq<char>)>, nat) {
    if has_field(line, "BlankLines"@) {
        field_token(line, "BlankLines"@, "content"@, "stave_blank_lines"@, pos)
    } else {
        match array_field(line, "Content"@) {
            Some(els) => json_content_tokens(els, pos),
            None => (Seq::empty(), pos),
        }
    }
}

/// The tokens of a stave's lines, in order.
pub open spec fn json_lines_tokens(els: Seq<JsonValue>, pos: nat) -> (Seq<(Seq<char>, nat, nat, Seq<char>)>, nat)
    decreases els.len(),
{
    if els.len() == 0 {
        (Seq::empty(), pos)
    } else {
        let a = json_lines_tokens(els.drop_last(), pos);
        let b = json_line(els.last(), a.1);
        (a.0 + b.0, b.1)
    }
}

proof fn lemma_json_lines_tokens_grows(els: Seq<JsonValue>, pos: nat, k: int)
    requires
        0 <= k <= els.len(),
    ensures
        pos <= json_lines_tokens(els.take(k), pos).1 <= json_lines_tokens(els, pos).1,
    decreases els.len() - k,
{
    if k < els.len() {
        lemma_json_lines_tokens_grows(els, pos, k + 1);
        assert(els.take(k + 1).drop_last() =~= els.take(k));
        lemma_json_line_grows(els.take(k + 1).last(), json_lines_tokens(els.take(k), pos).1);
        lemma_json_lines_tokens_start(els.take(k), pos);
    } else {
        assert(els.take(k) =~= els);
        lemma_json_lines_tokens_start(els, pos);
    }
}

proof fn lemma_json_lines_tokens_start(els: Seq<JsonValue>, pos: nat)
    ensures
        pos <= json_lines_tokens(els, pos).1,
    decreases els.len(),
{
    if els.len() > 0 {
        lemma_json_lines_tokens_start(els.drop_last(), pos);
        lemma_json_line_grows(els.last(), json_lines_tokens(els.drop_last(), pos).1);
    }
}

/// The tokens of an element of a JSON document: its blank lines, or its stave.
pub open spec fn json_document_element(el: JsonValue, pos: nat) -> (Seq<(Seq<char>, nat, nat, Seq<char>)>, nat) {
    if has_field(el, "BlankLines"@) {
        field_token(el, "BlankLines"@, "content"@, "blank_lines"@, pos)
    } else if has_field(el, "Stave"@) {
        match json_get(el, "Stave"@) {
            Some(st) => match array_field(st, "lines"@) {
                Some(ls) => json_lines_tokens(ls, pos),
                None => (Seq::empty(), pos),
            },
            None => (Seq::empty(), pos),
        }
    } else {
        (Seq::empty(), pos)
    }
}

/// The tokens of a document's elements, in order.
pub open spec fn json_elements_tokens(els: Seq<JsonValue>, pos: nat) -> (Seq<(Seq<char>, nat, nat, Seq<char>)>, nat)
    decreases els.len(),
{
    if els.len() == 0 {
        (Seq::empty(), pos)
    } else {
        let a = json_elements_tokens(els.drop_last(), pos);
        let b = json_document_element(els.last(), a.1);
        (a.0 + b.0, b.1)
    }
}

proof fn lemma_json_elements_tokens_grows(els: Seq<JsonValue>, pos: nat, k: int)
    requires
        0 <= k <= els.len(),
    ensures
        pos <= json_elements_tokens(els.take(k), pos).1 <= json_elements_tokens(els, pos).1,
    decreases els.len() - k,
{
    if k < els.len() {
        lemma_json_elements_tokens_grows(els, pos, k + 1);
        assert(els.take(k + 1).drop_last() =~= els.take(k));
        lemma_json_document_element_grows(els.take(k + 1).last(), json_elements_tokens(els.take(k), pos).1);
        lemma_json_elements_tokens_start(els.take(k), pos);
    } else {
        assert(els.take(k) =~= els);
        lemma_json_elements_tokens_start(els, pos);
    }
}

proof fn lemma_json_elements_tokens_start(els: Seq<JsonValue>, pos: nat)
    ensures
        pos <= json_elements_tokens(els, pos).1,
    decreases els.len(),
{
    if els.len() > 0 {
        lemma_json_elements_tokens_start(els.drop_last(), pos);
        lemma_json_document_element_grows(els.last(), json_elements_tokens(els.drop_last(), pos).1);
    }
}

/// The tokens of a JSON document, positions counted in bytes from 0, with
/// the position after the last.
pub open spec fn json_tokens(doc: JsonValue) -> (Seq<(Seq<char>, nat, nat, Seq<char>)>, nat) {
    match array_field(doc, "elements"@) {
        Some(els) => json_elements_tokens(els, 0),
        None => (Seq::empty(), 0),
    }
}

proof fn lemma_json_content_element_grows(el: JsonValue, pos: nat)
    ensures
        pos <= json_content_element(el, pos).1,
{
}

proof fn lemma_json_line_grows(line: JsonValue, pos: nat)
    ensures
        pos <= json_line(line, pos).1,
{
    if let Some(els) = array_field(line, "Content"@) {
        lemma_json_content_tokens_start(els, pos);
    }
}

proof fn lemma_json_document_element_grows(el: JsonValue, pos: nat)
    ensures
        pos <= json_document_element(el, pos).1,
{
    if let Some(st) = json_get(el, "Stave"@) {
        if let Some(ls) = array_field(st, "lines"@) {
            lemma_json_lines_tokens_start(ls, pos);
        }
    }
}

fn push_text_token(tokens: &mut Vec<SyntaxToken>, position: &mut usize, kind: &str, content: &str)
    requires
        *old(position) + utf8_bytes(content@) <= usize::MAX,
    ensures
        token_views(final(tokens)@) == token_views(old(tokens)@) + token_at(kind@, content@, *old(position) as nat).0,
        *final(position) == token_at(kind@, content@, *old(position) as nat).1,
{
    let start = *position;
    let len = str_byte_len(content);
    push_token(tokens, position, kind, start, content, len);
    proof {
        assert(token_views(tokens@) =~= token_views(old(tokens)@) + token_at(kind@, content@, start as nat).0);
    }
}

fn push_field_token(v: &JsonValue, outer: &str, inner: &str, kind: &str, tokens: &mut Vec<SyntaxToken>, position: &mut usize)
    requires
        field_token(*v, outer@, inner@, kind@, *old(position) as nat).1 <= usize::MAX,
    ensures
        token_views(final(tokens)@) == token_views(old(tokens)@) + field_token(*v, outer@, inner@, kind@, *old(position) as nat).0,
        *final(position) == field_token(*v, outer@, inner@, kind@, *old(position) as nat).1,
{
    let ghost start = token_views(tokens@);
    match get(v, outer) {
        Some(x) => match get_str(x, inner) {
            Some(c) => {
                push_text_token(tokens, position, kind, c.as_str());
            },
            None => {
                proof { assert(start + Seq::<(Seq<char>, nat, nat, Seq<char>)>::empty() =~= start); }
            },
        },
        None => {
            proof { assert(start + Seq::<(Seq<char>, nat, nat, Seq<char>)>::empty() =~= start); }
        },
    }
}

fn skip_field(v: &JsonValue, outer: &str, inner: &str, tokens: &mut Vec<SyntaxToken>, position: &mut usize)
    requires
        field_skip(*v, outer@, inner@, *old(position) as nat).1 <= usize::MAX,
    ensures
        token_views(final(tokens)@) == token_views(old(tokens)@) + field_skip(*v, outer@, inner@, *old(position) as nat).0,
        *final(position) == field_skip(*v, outer@, inner@, *old(position) as nat).1,
{
    let ghost start = token_views(tokens@);
    proof { assert(start + Seq::<(Seq<char>, nat, nat, Seq<char>)>::empty() =~= start); }
    match get(v, outer) {
        Some(x) => match get_str(x, inner) {
            Some(c) => {
                let len = str_byte_len(c.as_str());
                *position = *position + len;
            },
            None => {},
        },
        None => {},
    }
}

fn json_content_element_tokens(el: &JsonValue, tokens: &mut Vec<SyntaxToken>, position: &mut usize)
    requires
        json_content_element(*el, *old(position) as nat).1 <= usize::MAX,
    ensures
        token_views(final(tokens)@) == token_views(old(tokens)@) + json_content_element(*el, *old(position) as nat).0,
        *final(position) == json_content_element(*el, *old(position) as nat).1,
{
    proof {
        reveal_strlit("-");
        reveal_strlit("'");
        lemma_utf8_bytes_single('-');
        lemma_utf8_bytes_single('\'');
        assert("-"@ =~= seq!['-']);
        assert("'"@ =~= seq!['\'']);
    }
    if get(el, "Note").is_some() {
        push_field_token(el, "Note", "value", "note", tokens, position);
    } else if get(el, "Whitespace").is_some() {
        skip_field(el, "Whitespace", "value", tokens, position);
    } else if get(el, "Barline").is_some() {
        push_field_token(el, "Barline", "style", "barline", tokens, position);
    } else if get(el, "Dash").is_some() {
        push_text_token(tokens, position, "dash", "-");
    } else if get(el, "Rest").is_some() {
        push_field_token(el, "Rest", "value", "rest", tokens, position);
    } else if get(el, "Breath").is_some() {
        push_text_token(tokens, position, "breath", "'");
    } else if get(el, "Newline").is_some() {
        skip_field(el, "Newline", "value", tokens, position);
    } else if get(el, "Unknown").is_some() {
        push_field_token(el, "Unknown", "value", "unknown", tokens, position);
    } else {
        proof { assert(token_views(tokens@) + Seq::<(Seq<char>, nat, nat, Seq<char>)>::empty() =~= token_views(tokens@)); }
    }
}

fn json_content_line_tokens(els: &Vec<JsonValue>, tokens: &mut Vec<SyntaxToken>, position: &mut usize)
    requires
        json_content_tokens(els@, *old(position) as nat).1 <= usize::MAX,
    ensures
        token_views(final(tokens)@) == token_views(old(tokens)@) + json_content_tokens(els@, *old(position) as nat).0,
        *final(position) == json_content_tokens(els@, *old(position) as nat).1,
{
    let ghost start = token_views(tokens@);
    let ghost p0 = *position as nat;
    let mut k: usize = 0;
    proof {
        assert(els@.take(0) =~= Seq::<JsonValue>::empty());
        assert(start + Seq::<(Seq<char>, nat, nat, Seq<char>)>::empty() =~= start);
    }
    while k < els.len()
        invariant
            k <= els@.len(),
            json_content_tokens(els@, p0).1 <= usize::MAX,
            token_views(tokens@) == start + json_content_tokens(els@.take(k as int), p0).0,
            *position == json_content_tokens(els@.take(k as int), p0).1,
        decreases els@.len() - k,
    {
        let ghost t = els@.take(k + 1);
        proof {
            assert(t.drop_last() =~= els@.take(k as int));
            assert(t.last() == els@[k as int]);
            lemma_json_content_tokens_grows(els@, p0, k + 1);
        }
        json_content_element_tokens(&els[k], tokens, position);
        proof {
            assert(token_views(tokens@) =~= start + json_content_tokens(t, p0).0);
        }
        k = k + 1;
    }
    proof {
        assert(els@.take(k as int) =~= els@);
    }
}

fn json_line_tokens(line: &JsonValue, tokens: &mut Vec<SyntaxToken>, position: &mut usize)
    requires
        json_line(*line, *old(position) as nat).1 <= usize::MAX,
    ensures
        token_views(final(tokens)@) == token_views(old(tokens)@) + json_line(*line, *old(position) as nat).0,
        *final(position) == json_line(*line, *old(position) as nat).1,
{
    if get(line, "BlankLines").is_some() {
        push_field_token(line, "BlankLines", "content", "stave_blank_lines", tokens, position);
    } else {
        match get_array(line, "Content") {
            Some(els) => {
                json_content_line_tokens(els, tokens, position);
            },
            None => {
                proof { assert(token_views(tokens@) + Seq::<(Seq<char>, nat, nat, Seq<char>)>::empty() =~= token_views(tokens@)); }
            },
        }
    }
}

fn json_stave_lines_tokens(els: &Vec<JsonValue>, tokens: &mut Vec<SyntaxToken>, position: &mut usize)
    requires
        json_lines_tokens(els@, *old(position) as nat).1 <= usize::MAX,
    ensures
        token_views(final(tokens)@) == token_views(old(tokens)@) + json_lines_tokens(els@, *old(position) as nat).0,
        *final(position) == json_lines_tokens(els@, *old(position) as nat).1,
{
    let ghost start = token_views(tokens@);
    let ghost p0 = *position as nat;
    let mut k: usize = 0;
    proof {
        assert(els@.take(0) =~= Seq::<JsonValue>::empty());
        assert(start + Seq::<(Seq<char>, nat, nat, Seq<char>)>::empty() =~= start);
    }
    while k < els.len()
        invariant
            k <= els@.len(),
            json_lines_tokens(els@, p0).1 <= usize::MAX,
            token_views(tokens@) == start + json_lines_tokens(els@.take(k as int), p0).0,
            *position == json_lines_tokens(els@.take(k as int), p0).1,
        decreases els@.len() - k,
    {
        let ghost t = els@.take(k + 1);
        proof {
            assert(t.drop_last() =~= els@.take(k as int));
            assert(t.last() == els@[k as int]);
            lemma_json_lines_tokens_grows(els@, p0, k + 1);
        }
        json_line_tokens(&els[k], tokens, position);
        proof {
            assert(token_views(tokens@) =~= start + json_lines_tokens(t, p0).0);
        }
        k = k + 1;
    }
    proof {
        assert(els@.take(k as int) =~= els@);
    }
}

fn json_document_element_tokens(el: &JsonValue, tokens: &mut Vec<SyntaxToken>, position: &mut usize)
    requires
        json_document_element(*el, *old(position) as nat).1 <= usize::MAX,
    ensures
        token_views(final(tokens)@) == token_views(old(tokens)@) + json_document_element(*el, *old(position) as nat).0,
        *final(position) == json_document_element(*el, *old(position) as nat).1,
{
    if get(el, "BlankLines").is_some() {
        push_field_token(el, "BlankLines", "content", "blank_lines", tokens, position);
    } else {
        match get(el, "Stave") {
            Some(st) => match get_array(st, "lines") {
                Some(ls) => {
                    json_stave_lines_tokens(ls, tokens, position);
                },
                None => {
                    proof { assert(token_views(tokens@) + Seq::<(Seq<char>, nat, nat, Seq<char>)>::empty() =~= token_views(tokens@)); }
                },
            },
            None => {
                proof { assert(token_views(tokens@) + Seq::<(Seq<char>, nat, nat, Seq<char>)>::empty() =~= token_views(tokens@)); }
            },
        }
    }
}

fn json_elements_tokens_of(els: &Vec<JsonValue>, tokens: &mut Vec<SyntaxToken>, position: &mut usize)
    requires
        json_elements_tokens(els@, *old(position) as nat).1 <= usize::MAX,
    ensures
        token_views(final(tokens)@) == token_views(old(tokens)@) + json_elements_tokens(els@, *old(position) as nat).0,
        *final(position) == json_elements_tokens(els@, *old(position) as nat).1,
{
    let ghost start = token_views(tokens@);
    let ghost p0 = *position as nat;
    let mut k: usize = 0;
    proof {
        assert(els@.take(0) =~= Seq::<JsonValue>::empty());
        assert(start + Seq::<(Seq<char>, nat, nat, Seq<char>)>::empty() =~= start);
    }
    while k < els.len()
        invariant
            k <= els@.len(),
            json_elements_tokens(els@, p0).1 <= usize::MAX,
            token_views(tokens@) == start + json_elements_tokens(els@.take(k as int), p0).0,
            *position == json_elements_tokens(els@.take(k as int), p0).1,
        decreases els@.len() - k,
    {
        let ghost t = els@.take(k + 1);
        proof {
            assert(t.drop_last() =~= els@.take(k as int));
            assert(t.last() == els@[k as int]);
            lemma_json_elements_tokens_grows(els@, p0, k + 1);
        }
        json_document_element_tokens(&els[k], tokens, position);
        proof {
            assert(token_views(tokens@) =~= start + json_elements_tokens(t, p0).0);
        }
        k = k + 1;
    }
    proof {
        assert(els@.take(k as int) =~= els@);
    }
}

/// The syntax tokens of a JSON document (see `json_tokens`); the document's
/// text must fit in memory (its last position fits in a `usize`).
pub fn generate_syntax_tokens_from_json(document: &JsonValue) -> (r: Vec<SyntaxToken>)
    requires
        json_tokens(*document).1 <= usize::MAX,
    ensures
        token_views(r@) == json_tokens(*document).0,
{
    let mut tokens: Vec<SyntaxToken> = Vec::new();
    let mut position: usize = 0;
    proof {
        assert(token_views(tokens@) =~= Seq::<(Seq<char>, nat, nat, Seq<char>)>::empty());
    }
    match get_array(document, "elements") {
        Some(els) => {
            json_elements_tokens_of(els, &mut tokens, &mut position);
            proof {
                assert(token_views(tokens@) =~= json_tokens(*document).0);
            }
        },
        None => {},
    }
    tokens
}


/// `<tag>` + the escaped text of field `inner` of field `outer` + `</tag>`,
/// or nothing without that text.
pub open spec fn field_xml(v: JsonValue, outer: Seq<char>, inner: Seq<char>, tag: Seq<char>) -> Seq<char> {
    match nested_str(v, outer, inner) {
        Some(c) => "<"@ + tag + ">"@ + xml_escaped(c) + "</"@ + tag + ">"@,
        None => Seq::empty(),
    }
}

/// The XML of an element of a content line.
pub open spec fn json_content_element_xml(el: JsonValue) -> Seq<char> {
    if has_field(el, "Note"@) {
        field_xml(el, "Note"@, "value"@, "note"@)
    } else if has_field(el, "Barline"@) {
        field_xml(el, "Barline"@, "style"@, "barline"@)
    } else if has_field(el, "Whitespace"@) {
        field_xml(el, "Whitespace"@, "value"@, "whitespace"@)
    } else if has_field(el, "Unknown"@) {
        field_xml(el, "Unknown"@, "value"@, "unknown"@)
    } else if has_field(el, "Dash"@) {
        "<dash>-</dash>"@
    } else if has_field(el, "Breath"@) {
        "<breath>'</breath>"@
    } else if has_field(el, "Rest"@) {
        field_xml(el, "Rest"@, "value"@, "rest"@)
    } else if has_field(el, "Newline"@) {
        field_xml(el, "Newline"@, "value"@, "newline"@)
    } else {
        Seq::empty()
    }
}

/// The XML of a content line's elements, in order.
pub open spec fn json_content_xml(els: Seq<JsonValue>) -> Seq<char>
    decreases els.len(),
{
    if els.len() == 0 { Seq::empty() } else { json_content_xml(els.drop_last()) + json_content_element_xml(els.last()) }
}

/// The XML of a line of a stave: its blank lines, or its content line in a
/// `pre` element; every line is closed with `</pre>`.
pub open spec fn json_line_xml(line: JsonValue) -> Seq<char> {
    (if has_field(line, "BlankLines"@) {
        field_xml(line, "BlankLines"@, "content"@, "stave_blank_lines"@)
    } else {
        match array_field(line, "Content"@) {
            Some(els) => "<pre class=\"CodeMirror-line\" role=\"presentation\">"@ + json_content_xml(els),
            None => Seq::empty(),
        }
    }) + "</pre>"@
}

/// The XML of a stave's lines, in order.
pub open spec fn json_lines_xml(els: Seq<JsonValue>) -> Seq<char>
    decreases els.len(),
{
    if els.len() == 0 { Seq::empty() } else { json_lines_xml(els.drop_last()) + json_line_xml(els.last()) }
}

/// The XML of an element of a JSON document: its blank lines, or its stave's lines.
pub open spec fn json_document_element_xml(el: JsonValue) -> Seq<char> {
    if has_field(el, "BlankLines"@) {
        field_xml(el, "BlankLines"@, "content"@, "blank_lines"@)
    } else if has_field(el, "Stave"@) {
        match json_get(el, "Stave"@) {
            Some(st) => match array_field(st, "lines"@) {
                Some(ls) => json_lines_xml(ls),
                None => Seq::empty(),
            },
            None => Seq::empty(),
        }
    } else {
        Seq::empty()
    }
}

/// The XML of a document's elements, in order.
pub open spec fn json_elements_xml(els: Seq<JsonValue>) -> Seq<char>
    decreases els.len(),
{
    if els.len() == 0 { Seq::empty() } else { json_elements_xml(els.drop_last()) + json_document_element_xml(els.last()) }
}

/// The XML of a JSON document.
pub open spec fn json_xml(doc: JsonValue) -> Seq<char> {
    match array_field(doc, "elements"@) {
        Some(els) => json_elements_xml(els),
        None => Seq::empty(),
    }
}

fn push_field_xml(v: &JsonValue, outer: &str, inner: &str, tag: &str, xml: &mut String)
    ensures
        final(xml)@ == old(xml)@ + field_xml(*v, outer@, inner@, tag@),
{
    let ghost start = xml@;
    match get(v, outer) {
        Some(x) => match get_str(x, inner) {
            Some(c) => {
                xml.append("<");
                xml.append(tag);
                xml.append(">");
                let e = escape_xml(c.as_str());
                xml.append(e.as_str());
                xml.append("</");
                xml.append(tag);
                xml.append(">");
                proof {
                    assert(xml@ =~= start + field_xml(*v, outer@, inner@, tag@));
                }
            },
            None => {
                proof { assert(start + Seq::<char>::empty() =~= start); }
            },
        },
        None => {
            proof { assert(start + Seq::<char>::empty() =~= start); }
        },
    }
}

fn json_content_element_xml_of(el: &JsonValue, xml: &mut String)
    ensures
        final(xml)@ == old(xml)@ + json_content_element_xml(*el),
{
    if get(el, "Note").is_some() {
        push_field_xml(el, "Note", "value", "note", xml);
    } else if get(el, "Barline").is_some() {
        push_field_xml(el, "Barline", "style", "barline", xml);
    } else if get(el, "Whitespace").is_some() {
        push_field_xml(el, "Whitespace", "value", "whitespace", xml);
    } else if get(el, "Unknown").is_some() {
        push_field_xml(el, "Unknown", "value", "unknown", xml);
    } else if get(el, "Dash").is_some() {
        xml.append("<dash>-</dash>");
    } else if get(el, "Breath").is_some() {
        xml.append("<breath>'</breath>");
    } else if get(el, "Rest").is_some() {
        push_field_xml(el, "Rest", "value", "rest", xml);
    } else if get(el, "Newline").is_some() {
        push_field_xml(el, "Newline", "value", "newline", xml);
    } else {
        proof { assert(xml@ + Seq::<char>::empty() =~= xml@); }
    }
}

fn json_content_xml_of(els: &Vec<JsonValue>, xml: &mut String)
    ensures
        final(xml)@ == old(xml)@ + json_content_xml(els@),
{
    let ghost start = xml@;
    let mut k: usize = 0;
    proof {
        assert(els@.take(0) =~= Seq::<JsonValue>::empty());
        assert(start + Seq::<char>::empty() =~= start);
    }
    while k < els.len()
        invariant
            k <= els@.len(),
            xml@ == start + json_content_xml(els@.take(k as int)),
        decreases els@.len() - k,
    {
        proof {
            let t = els@.take(k + 1);
            assert(t.drop_last() =~= els@.take(k as int));
            assert(t.last() == els@[k as int]);
        }
        json_content_element_xml_of(&els[k], xml);
        proof {
            assert(xml@ =~= start + json_content_xml(els@.take(k + 1)));
        }
        k = k + 1;
    }
    proof {
        assert(els@.take(k as int) =~= els@);
    }
}

fn json_line_xml_of(line: &JsonValue, xml: &mut String)
    ensures
        final(xml)@ == old(xml)@ + json_line_xml(*line),
{
    let ghost start = xml@;
    if get(line, "BlankLines").is_some() {
        push_field_xml(line, "BlankLines", "content", "stave_blank_lines", xml);
    } else {
        match get_array(line, "Content") {
            Some(els) => {
                xml.append("<pre class=\"CodeMirror-line\" role=\"presentation\">");
                json_content_xml_of(els, xml);
            },
            None => {},
        }
    }
    let ghost mid = xml@;
    xml.append("</pre>");
    proof {
        assert(xml@ =~= start + json_line_xml(*line));
    }
}

fn json_lines_xml_of(els: &Vec<JsonValue>, xml: &mut String)
    ensures
        final(xml)@ == old(xml)@ + json_lines_xml(els@),
{
    let ghost start = xml@;
    let mut k: usize = 0;
    proof {
        assert(els@.take(0) =~= Seq::<JsonValue>::empty());
        assert(start + Seq::<char>::empty() =~= start);
    }
    while k < els.len()
        invariant
            k <= els@.len(),
            xml@ == start + json_lines_xml(els@.take(k as int)),
        decreases els@.len() - k,
    {
        proof {
            let t = els@.take(k + 1);
            assert(t.drop_last() =~= els@.take(k as int));
            assert(t.last() == els@[k as int]);
        }
        json_line_xml_of(&els[k], xml);
        proof {
            assert(xml@ =~= start + json_lines_xml(els@.take(k + 1)));
        }
        k = k + 1;
    }
    proof {
        assert(els@.take(k as int) =~= els@);
    }
}

fn json_document_element_xml_of(el: &JsonValue, xml: &mut String)
    ensures
        final(xml)@ == old(xml)@ + json_document_element_xml(*el),
{
    if get(el, "BlankLines").is_some() {
        push_field_xml(el, "BlankLines", "content", "blank_lines", xml);
    } else {
        match get(el, "Stave") {
            Some(st) => match get_array(st, "lines") {
                Some(ls) => {
                    json_lines_xml_of(ls, xml);
                },
                None => {
                    proof { assert(xml@ + Seq::<char>::empty() =~= xml@); }
                },
            },
            None => {
                proof { assert(xml@ + Seq::<char>::empty() =~= xml@); }
            },
        }
    }
}

fn json_elements_xml_of(els: &Vec<JsonValue>, xml: &mut String)
    ensures
        final(xml)@ == old(xml)@ + json_elements_xml(els@),
{
    let ghost start = xml@;
    let mut k: usize = 0;
    proof {
        assert(els@.take(0) =~= Seq::<JsonValue>::empty());
        assert(start + Seq::<char>::empty() =~= start);
    }
    while k < els.len()
        invariant
            k <= els@.len(),
            xml@ == start + json_elements_xml(els@.take(k as int)),
        decreases els@.len() - k,
    {
        proof {
            let t = els@.take(k + 1);
            assert(t.drop_last() =~= els@.take(k as int));
            assert(t.last() == els@[k as int]);
        }
        json_document_element_xml_of(&els[k], xml);
        proof {
            assert(xml@ =~= start + json_elements_xml(els@.take(k + 1)));
        }
        k = k + 1;
    }
    proof {
        assert(els@.take(k as int) =~= els@);
    }
}

/// The XML of a JSON document (see `json_xml`).
pub fn generate_xml_representation(document: &JsonValue) -> (r: String)
    ensures
        r@ == json_xml(*document),
{
    let mut xml = String::new();
    match get_array(document, "elements") {
        Some(els) => {
            json_elements_xml_of(els, &mut xml);
            proof {
                assert(xml@ =~= json_xml(*document));
            }
        },
        None => {},
    }
    xml
}


/// Whether tokens are ordered by start.
pub open spec fn starts_ascending(s: Seq<(Seq<char>, nat, nat, Seq<char>)>) -> bool {
    forall|i: int, j: int| 0 <= i < j < s.len() ==> #[trigger] s[i].1 <= #[trigger] s[j].1
}

proof fn lemma_first_starting_after(s: Seq<(Seq<char>, nat, nat, Seq<char>)>, k: nat)
    ensures
        0 <= first_starting_after(s, k) <= s.len(),
        forall|i: int| 0 <= i < first_starting_after(s, k) ==> #[trigger] s[i].1 <= k,
        first_starting_after(s, k) < s.len() ==> s[first_starting_after(s, k)].1 > k,
    decreases s.len(),
{
    if s.len() > 0 && s[0].1 <= k {
        lemma_first_starting_after(s.skip(1), k);
        assert forall|i: int| 0 <= i < first_starting_after(s, k) implies #[trigger] s[i].1 <= k by {
            if i > 0 {
                assert(s[i] == s.skip(1)[i - 1]);
            }
        }
        if first_starting_after(s, k) < s.len() {
            assert(s[first_starting_after(s, k)] == s.skip(1)[first_starting_after(s.skip(1), k)]);
        }
    }
}

/// Sorting by start orders the tokens by start and keeps their number.
pub proof fn lemma_sorted_by_start(s: Seq<(Seq<char>, nat, nat, Seq<char>)>)
    ensures
        sorted_by_start(s).len() == s.len(),
        starts_ascending(sorted_by_start(s)),
    decreases s.len(),
{
    if s.len() > 0 {
        lemma_sorted_by_start(s.drop_last());
        let r = sorted_by_start(s.drop_last());
        let x = s.last();
        let f = first_starting_after(r, x.1);
        lemma_first_starting_after(r, x.1);
        let out = r.insert(f, x);
        assert forall|i: int, j: int| 0 <= i < j < out.len() implies #[trigger] out[i].1 <= #[trigger] out[j].1 by {
            if j < f {
                assert(out[i] == r[i] && out[j] == r[j]);
            } else if j == f {
                assert(out[j] == x);
                assert(out[i] == r[i]);
            } else if i < f {
                assert(out[i] == r[i]);
                assert(out[j] == r[j - 1]);
                assert(r[i].1 <= r[j - 1].1);
            } else if i == f {
                assert(out[i] == x);
                assert(out[j] == r[j - 1]);
                assert(r[f].1 > x.1);
                if j - 1 > f {
                    assert(r[f].1 <= r[j - 1].1);
                }
            } else {
                assert(out[i] == r[i - 1] && out[j] == r[j - 1]);
            }
        }
    }
}

/// The filled tokens are ordered by start, and are the tokens and one
/// `dummy` token per gap.
pub proof fn lemma_filled_tokens_sorted(tokens: Seq<SyntaxToken>, input_length: nat, input: Seq<char>)
    ensures
        filled_tokens(tokens, input_length, input).len() == tokens.len() + gaps(tokens, input_length).len(),
        starts_ascending(filled_tokens(tokens, input_length, input)),
{
    let g = gaps(tokens, input_length);
    lemma_sorted_by_start(token_views(tokens) + g.map_values(|x: (nat, nat)| gap_token(input, x)));
}

/// Whether a position lies in one of the runs.
pub open spec fn in_some_gap(gs: Seq<(nat, nat)>, p: int) -> bool {
    exists|k: int| 0 <= k < gs.len() && (#[trigger] gs[k]).0 <= p < gs[k].1
}

proof fn lemma_gap_scan(tokens: Seq<SyntaxToken>, n: nat)
    ensures
        forall|p: int| 0 <= p < n && !covered(tokens, p) ==>
            in_some_gap(gap_scan(tokens, n).0, p) || (gap_scan(tokens, n).1 matches Some(st) && st <= p),
        gap_scan(tokens, n).1 matches Some(st) ==> st < n,
    decreases n,
{
    if n > 0 {
        let q = (n - 1) as nat;
        lemma_gap_scan(tokens, q);
        let prev = gap_scan(tokens, q);
        let cur = gap_scan(tokens, n);
        assert forall|p: int| 0 <= p < n && !covered(tokens, p) implies
            in_some_gap(cur.0, p) || (cur.1 matches Some(st) && st <= p) by {
            if p < q {
                if in_some_gap(prev.0, p) {
                    let k = choose|k: int| 0 <= k < prev.0.len() && (#[trigger] prev.0[k]).0 <= p < prev.0[k].1;
                    if covered(tokens, q as int) && prev.1 is Some {
                        assert(cur.0[k] == prev.0[k]);
                    } else {
                        assert(cur.0 == prev.0);
                    }
                } else {
                    let st = prev.1->0;
                    if covered(tokens, q as int) {
                        assert(cur.0[prev.0.len() as int] == (st, q));
                    }
                }
            }
        }
    }
}

/// Every position below the input length is covered by a token or lies in
/// a gap that a `dummy` token fills.
pub proof fn lemma_gaps_cover(tokens: Seq<SyntaxToken>, n: nat)
    ensures
        forall|p: int| 0 <= p < n ==> covered(tokens, p) || in_some_gap(gaps(tokens, n), p),
{
    lemma_gap_scan(tokens, n);
    let sc = gap_scan(tokens, n);
    assert forall|p: int| 0 <= p < n implies covered(tokens, p) || in_some_gap(gaps(tokens, n), p) by {
        if !covered(tokens, p) {
            if in_some_gap(sc.0, p) {
                let k = choose|k: int| 0 <= k < sc.0.len() && (#[trigger] sc.0[k]).0 <= p < sc.0[k].1;
                if sc.1 is Some {
                    assert(gaps(tokens, n)[k] == sc.0[k]);
                }
            } else {
                assert(gaps(tokens, n)[sc.0.len() as int] == (sc.1->0, n));
            }
        }
    }
}

/// Whether numbers are in ascending order.
pub open spec fn is_ascending(s: Seq<usize>) -> bool {
    forall|i: int, j: int| 0 <= i < j < s.len() ==> #[trigger] s[i] <= #[trigger] s[j]
}

proof fn lemma_first_greater(s: Seq<usize>, x: usize)
    ensures
        0 <= first_greater(s, x) <= s.len(),
        forall|i: int| 0 <= i < first_greater(s, x) ==> #[trigger] s[i] <= x,
        first_greater(s, x) < s.len() ==> s[first_greater(s, x)] > x,
    decreases s.len(),
{
    if s.len() > 0 && s[0] <= x {
        lemma_first_greater(s.skip(1), x);
        assert forall|i: int| 0 <= i < first_greater(s, x) implies #[trigger] s[i] <= x by {
            if i > 0 {
                assert(s[i] == s.skip(1)[i - 1]);
            }
        }
        if first_greater(s, x) < s.len() {
            assert(s[first_greater(s, x)] == s.skip(1)[first_greater(s.skip(1), x)]);
        }
    }
}

/// `ascending` orders numbers and keeps their count.
pub proof fn lemma_ascending(s: Seq<usize>)
    ensures
        ascending(s).len() == s.len(),
        is_ascending(ascending(s)),
    decreases s.len(),
{
    if s.len() > 0 {
        lemma_ascending(s.drop_last());
        let r = ascending(s.drop_last());
        let x = s.last();
        let f = first_greater(r, x);
        lemma_first_greater(r, x);
        let out = r.insert(f, x);
        assert forall|i: int, j: int| 0 <= i < j < out.len() implies #[trigger] out[i] <= #[trigger] out[j] by {
            if j < f {
                assert(out[i] == r[i] && out[j] == r[j]);
            } else if j == f {
                assert(out[j] == x);
                assert(out[i] == r[i]);
            } else if i < f {
                assert(out[i] == r[i]);
                assert(out[j] == r[j - 1]);
                assert(r[i] <= r[j - 1]);
            } else if i == f {
                assert(out[i] == x);
                assert(out[j] == r[j - 1]);
                assert(r[f] > x);
                if j - 1 > f {
                    assert(r[f] <= r[j - 1]);
                }
            } else {
                assert(out[i] == r[i - 1] && out[j] == r[j - 1]);
            }
        }
    }
}

} // verus!

verus! {

// ---------------------------------------------------------------------------
// Syntax tokens of a parsed document

/// The state of the token walk over a document: the tokens emitted so far
/// and the current byte position in the source.
pub struct TokenWalk {
    pub tokens: Seq<(Seq<char>, nat, nat, Seq<char>)>,
    pub pos: nat,
}

/// The walk state held by a token list and a position.
pub open spec fn walk_of(tokens: Seq<SyntaxToken>, pos: usize) -> TokenWalk {
    TokenWalk { tokens: token_views(tokens), pos: pos as nat }
}

/// Emits a token of `kind` with `content` from byte `start` on, and moves
/// the position to its end; `None` when the end does not fit in `usize`.
pub open spec fn walk_emit(o: Option<TokenWalk>, kind: Seq<char>, start: nat, content: Seq<char>) -> Option<TokenWalk> {
    match o {
        Some(w) => {
            let end = start + utf8_bytes(content);
            if end <= usize::MAX {
                Some(TokenWalk { tokens: w.tokens.push((kind, start, end, content)), pos: end })
            } else {
                None
            }
        },
        None => None,
    }
}

/// Emits a token at the current position (see `walk_emit`).
pub open spec fn walk_emit_here(o: Option<TokenWalk>, kind: Seq<char>, content: Seq<char>) -> Option<TokenWalk> {
    match o {
        Some(w) => walk_emit(o, kind, w.pos, content),
        None => None,
    }
}

/// Moves the position `k` bytes on; `None` past `usize::MAX`.
pub open spec fn walk_advance(o: Option<TokenWalk>, k: nat) -> Option<TokenWalk> {
    match o {
        Some(w) => if w.pos + k <= usize::MAX { Some(TokenWalk { tokens: w.tokens, pos: w.pos + k }) } else { None },
        None => None,
    }
}

/// Emits a ready token and moves the position to its end.
pub open spec fn walk_push(o: Option<TokenWalk>, t: (Seq<char>, nat, nat, Seq<char>)) -> Option<TokenWalk> {
    match o {
        Some(w) => if t.2 <= usize::MAX { Some(TokenWalk { tokens: w.tokens.push(t), pos: t.2 }) } else { None },
        None => None,
    }
}

/// The byte offset of a source position (line from 1, column from 0).
pub open spec fn source_offset(line: usize, column: usize, input: Seq<char>) -> Option<nat> {
    if line == 0 { None } else { line_col_offset(input, (line - 1) as nat, column as nat) }
}

/// A directive: its key (when not empty), the `:` separator, a skipped
/// space, its value (when not empty) and a skipped newline.
pub open spec fn walk_directive(o: Option<TokenWalk>, d: Directive) -> Option<TokenWalk> {
    let o1 = if utf8_bytes(d.key@) > 0 { walk_emit_here(o, "directive_key"@, d.key@) } else { o };
    let o2 = walk_advance(walk_emit_here(o1, "directive_sep"@, ":"@), 1);
    let o3 = if utf8_bytes(d.value@) > 0 { walk_emit_here(o2, "directive_value"@, d.value@) } else { o2 };
    walk_advance(o3, 1)
}

/// The first `n` directives.
pub open spec fn walk_directives(o: Option<TokenWalk>, ds: Seq<Directive>, n: int) -> Option<TokenWalk>
    decreases n,
{
    if n <= 0 { o } else { walk_directive(walk_directives(o, ds, n - 1), ds[n - 1]) }
}

/// An upper line element: slurs and octave markers get a token at the byte
/// offset of their source position (when the source has it); the rest none.
pub open spec fn walk_upper_element(o: Option<TokenWalk>, e: UpperElement, input: Seq<char>) -> Option<TokenWalk> {
    match e {
        UpperElement::SlurIndicator { value, source } =>
            match source_offset(source.position.line, source.position.column, input) {
                Some(s) => walk_emit(o, "slur"@, s, value@),
                None => o,
            },
        UpperElement::UpperOctaveMarker { marker, source } =>
            match source_offset(source.position.line, source.position.column, input) {
                Some(s) => walk_emit(o, "upper-octave-marker"@, s, marker@),
                None => o,
            },
        _ => o,
    }
}

/// The first `n` elements of an upper line.
pub open spec fn walk_upper_elements(o: Option<TokenWalk>, es: Seq<UpperElement>, n: int, input: Seq<char>) -> Option<TokenWalk>
    decreases n,
{
    if n <= 0 { o } else { walk_upper_element(walk_upper_elements(o, es, n - 1, input), es[n - 1], input) }
}

/// A lower line element: beat groups and octave markers get a token at the
/// current position; the rest none.
pub open spec fn walk_lower_element(o: Option<TokenWalk>, e: LowerElement) -> Option<TokenWalk> {
    match e {
        LowerElement::BeatGroupIndicator { value, .. } => walk_emit_here(o, "beat_group"@, value@),
        LowerElement::LowerOctaveMarker { marker, .. } => walk_emit_here(o, "lower-octave-marker"@, marker@),
        _ => o,
    }
}

/// The first `n` elements of a lower line.
pub open spec fn walk_lower_elements(o: Option<TokenWalk>, es: Seq<LowerElement>, n: int) -> Option<TokenWalk>
    decreases n,
{
    if n <= 0 { o } else { walk_lower_element(walk_lower_elements(o, es, n - 1), es[n - 1]) }
}

/// After an annotation line whose source text is kept, the position moves to
/// the byte offset of the end of that text (when the source has it).
pub open spec fn walk_line_end(o: Option<TokenWalk>, source: Source, input: Seq<char>) -> Option<TokenWalk> {
    match o {
        Some(w) => match source.value {
            Some(sv) => {
                let c = source.position.column + utf8_bytes(sv@);
                if c > usize::MAX {
                    None
                } else {
                    Some(TokenWalk {
                        tokens: w.tokens,
                        pos: match source_offset(source.position.line, c as usize, input) { Some(e) => e, None => w.pos },
                    })
                }
            },
            None => o,
        },
        None => None,
    }
}

fn emit_token_at(tokens: &mut Vec<SyntaxToken>, position: &mut usize, kind: &str, start: usize, content: &str)
    requires
        walk_emit(Some(walk_of(old(tokens)@, *old(position))), kind@, start as nat, content@) is Some,
    ensures
        Some(walk_of(final(tokens)@, *final(position))) == walk_emit(Some(walk_of(old(tokens)@, *old(position))), kind@, start as nat, content@),
{
    let len = str_byte_len(content);
    push_token(tokens, position, kind, start, content, len);
}

fn emit_token_here(tokens: &mut Vec<SyntaxToken>, position: &mut usize, kind: &str, content: &str)
    requires
        walk_emit_here(Some(walk_of(old(tokens)@, *old(position))), kind@, content@) is Some,
    ensures
        Some(walk_of(final(tokens)@, *final(position))) == walk_emit_here(Some(walk_of(old(tokens)@, *old(position))), kind@, content@),
{
    let start = *position;
    emit_token_at(tokens, position, kind, start, content);
}

fn advance_position(tokens: &Vec<SyntaxToken>, position: &mut usize, k: usize)
    requires
        walk_advance(Some(walk_of(tokens@, *old(position))), k as nat) is Some,
    ensures
        Some(walk_of(tokens@, *final(position))) == walk_advance(Some(walk_of(tokens@, *old(position))), k as nat),
{
    *position = *position + k;
}

fn directive_tokens(d: &Directive, tokens: &mut Vec<SyntaxToken>, position: &mut usize)
    requires
        walk_directive(Some(walk_of(old(tokens)@, *old(position))), *d) is Some,
    ensures
        Some(walk_of(final(tokens)@, *final(position))) == walk_directive(Some(walk_of(old(tokens)@, *old(position))), *d),
{
    if str_byte_len(d.key.as_str()) > 0 {
        emit_token_here(tokens, position, "directive_key", d.key.as_str());
    }
    emit_token_here(tokens, position, "directive_sep", ":");
    advance_position(tokens, position, 1);
    if str_byte_len(d.value.as_str()) > 0 {
        emit_token_here(tokens, position, "directive_value", d.value.as_str());
    }
    advance_position(tokens, position, 1);
}

proof fn lemma_directives_some(o: Option<TokenWalk>, ds: Seq<Directive>, m: int, n: int)
    requires
        0 <= m <= n,
        walk_directives(o, ds, n) is Some,
    ensures
        walk_directives(o, ds, m) is Some,
    decreases n,
{
    if m < n {
        lemma_directives_some(o, ds, m, n - 1);
    }
}

fn upper_element_tokens(e: &UpperElement, tokens: &mut Vec<SyntaxToken>, position: &mut usize, input: &str)
    requires
        walk_upper_element(Some(walk_of(old(tokens)@, *old(position))), *e, input@) is Some,
    ensures
        Some(walk_of(final(tokens)@, *final(position))) == walk_upper_element(Some(walk_of(old(tokens)@, *old(position))), *e, input@),
{
    match e {
        UpperElement::SlurIndicator { value, source } => {
            if let Some(start) = source_position_to_absolute_offset(source.position.line, source.position.column, input) {
                emit_token_at(tokens, position, "slur", start, value.as_str());
            }
        },
        UpperElement::UpperOctaveMarker { marker, source } => {
            if let Some(start) = source_position_to_absolute_offset(source.position.line, source.position.column, input) {
                emit_token_at(tokens, position, "upper-octave-marker", start, marker.as_str());
            }
        },
        _ => {},
    }
}

proof fn lemma_upper_elements_some(o: Option<TokenWalk>, es: Seq<UpperElement>, m: int, n: int, input: Seq<char>)
    requires
        0 <= m <= n,
        walk_upper_elements(o, es, n, input) is Some,
    ensures
        walk_upper_elements(o, es, m, input) is Some,
    decreases n,
{
    if m < n {
        lemma_upper_elements_some(o, es, m, n - 1, input);
    }
}

fn lower_element_tokens(e: &LowerElement, tokens: &mut Vec<SyntaxToken>, position: &mut usize)
    requires
        walk_lower_element(Some(walk_of(old(tokens)@, *old(position))), *e) is Some,
    ensures
        Some(walk_of(final(tokens)@, *final(position))) == walk_lower_element(Some(walk_of(old(tokens)@, *old(position))), *e),
{
    match e {
        LowerElement::BeatGroupIndicator { value, .. } => {
            emit_token_here(tokens, position, "beat_group", value.as_str());
        },
        LowerElement::LowerOctaveMarker { marker, .. } => {
            emit_token_here(tokens, position, "lower-octave-marker", marker.as_str());
        },
        _ => {},
    }
}

proof fn lemma_lower_elements_some(o: Option<TokenWalk>, es: Seq<LowerElement>, m: int, n: int)
    requires
        0 <= m <= n,
        walk_lower_elements(o, es, n) is Some,
    ensures
        walk_lower_elements(o, es, m) is Some,
    decreases n,
{
    if m < n {
        lemma_lower_elements_some(o, es, m, n - 1);
    }
}

fn line_end(source: &Source, tokens: &Vec<SyntaxToken>, position: &mut usize, input: &str)
    requires
        walk_line_end(Some(walk_of(tokens@, *old(position))), *source, input@) is Some,
    ensures
        Some(walk_of(tokens@, *final(position))) == walk_line_end(Some(walk_of(tokens@, *old(position))), *source, input@),
{
    match &source.value {
        Some(sv) => {
            let c = source.position.column + str_byte_len(sv.as_str());
            let end = match source_position_to_absolute_offset(source.position.line, c, input) {
                Some(e) => e,
                None => *position,
            };
            *position = end;
        },
        None => {},
    }
}


/// An upper line: its elements, then the move to the end of its source text.
pub open spec fn walk_upper_line(o: Option<TokenWalk>, u: UpperLine, input: Seq<char>) -> Option<TokenWalk> {
    walk_line_end(walk_upper_elements(o, u.elements@, u.elements@.len() as int, input), u.source, input)
}

/// A lower line: its elements, then the move to the end of its source text.
pub open spec fn walk_lower_line(o: Option<TokenWalk>, l: LowerLine, input: Seq<char>) -> Option<TokenWalk> {
    walk_line_end(walk_lower_elements(o, l.elements@, l.elements@.len() as int), l.source, input)
}

/// A syllable: a skipped space before all but the first, then a token for
/// its text when not empty.
pub open spec fn walk_syllable(o: Option<TokenWalk>, s: Syllable, first: bool) -> Option<TokenWalk> {
    let o1 = if first { o } else { walk_advance(o, 1) };
    if utf8_bytes(s.content@) > 0 { walk_emit_here(o1, "syllable"@, s.content@) } else { o1 }
}

/// The first `n` syllables of a lyrics line.
pub open spec fn walk_syllables(o: Option<TokenWalk>, ss: Seq<Syllable>, n: int) -> Option<TokenWalk>
    decreases n,
{
    if n <= 0 { o } else { walk_syllable(walk_syllables(o, ss, n - 1), ss[n - 1], n == 1) }
}

/// A lyrics line: its syllables, then a skipped newline.
pub open spec fn walk_lyrics(o: Option<TokenWalk>, l: LyricsLine) -> Option<TokenWalk> {
    walk_advance(walk_syllables(o, l.syllables@, l.syllables@.len() as int), 1)
}

/// Whether a text ends with a newline.
pub open spec fn ends_with_newline(s: Seq<char>) -> bool {
    s.len() > 0 && s.last() == '\n'
}

/// A text line is skipped, with its newline when it does not hold one.
pub open spec fn walk_text(o: Option<TokenWalk>, t: TextLine) -> Option<TokenWalk> {
    let o1 = walk_advance(o, utf8_bytes(t.content@));
    if ends_with_newline(t.content@) { o1 } else { walk_advance(o1, 1) }
}

/// The first `n` elements of a content line, each with its token (see `element_token`).
pub open spec fn walk_content(o: Option<TokenWalk>, es: Seq<ParsedElement>, n: int, input: Seq<char>) -> Option<TokenWalk>
    decreases n,
{
    if n <= 0 {
        o
    } else {
        let p = walk_content(o, es, n - 1, input);
        match element_token(es[n - 1]@, input) {
            Some(t) => walk_push(p, t),
            None => p,
        }
    }
}

/// A line of a stave.
pub open spec fn walk_stave_line(o: Option<TokenWalk>, line: StaveLine, input: Seq<char>) -> Option<TokenWalk> {
    match line {
        StaveLine::Text(t) => walk_text(o, t),
        StaveLine::Upper(u) => walk_upper_line(o, u, input),
        StaveLine::Content(es) => walk_content(o, es@, es@.len() as int, input),
        StaveLine::Lower(l) => walk_lower_line(o, l, input),
        StaveLine::Lyrics(l) => walk_lyrics(o, l),
        StaveLine::Whitespace(_) => o,
        StaveLine::BlankLines(b) => walk_advance(o, utf8_bytes(b.content@)),
    }
}

/// The first `n` lines of a stave.
pub open spec fn walk_stave_lines(o: Option<TokenWalk>, ls: Seq<StaveLine>, n: int, input: Seq<char>) -> Option<TokenWalk>
    decreases n,
{
    if n <= 0 { o } else { walk_stave_line(walk_stave_lines(o, ls, n - 1, input), ls[n - 1], input) }
}

/// A top-level element: blank lines are skipped, staves walked line by line.
pub open spec fn walk_document_element(o: Option<TokenWalk>, e: DocumentElement, input: Seq<char>) -> Option<TokenWalk> {
    match e {
        DocumentElement::BlankLines(b) => walk_advance(o, utf8_bytes(b.content@)),
        DocumentElement::Stave(st) => walk_stave_lines(o, st.lines@, st.lines@.len() as int, input),
    }
}

/// The first `n` top-level elements.
pub open spec fn walk_document_elements(o: Option<TokenWalk>, es: Seq<DocumentElement>, n: int, input: Seq<char>) -> Option<TokenWalk>
    decreases n,
{
    if n <= 0 { o } else { walk_document_element(walk_document_elements(o, es, n - 1, input), es[n - 1], input) }
}

/// The walk over a whole document from position 0: directives, then
/// elements; `None` when a position would not fit in `usize`.
pub open spec fn syntax_walk(doc: Document, input: Seq<char>) -> Option<TokenWalk> {
    let o = walk_directives(Some(TokenWalk { tokens: Seq::empty(), pos: 0 }), doc.directives@, doc.directives@.len() as int);
    walk_document_elements(o, doc.elements@, doc.elements@.len() as int, input)
}

/// The tokens of a list that are neither whitespace nor newlines, in order.
pub open spec fn styled_tokens(s: Seq<(Seq<char>, nat, nat, Seq<char>)>) -> Seq<(Seq<char>, nat, nat, Seq<char>)>
    decreases s.len(),
{
    if s.len() == 0 {
        Seq::empty()
    } else if styled_kind(s.last().0) {
        styled_tokens(s.drop_last()).push(s.last())
    } else {
        styled_tokens(s.drop_last())
    }
}

fn upper_line_tokens(u: &UpperLine, tokens: &mut Vec<SyntaxToken>, position: &mut usize, input: &str)
    requires
        walk_upper_line(Some(walk_of(old(tokens)@, *old(position))), *u, input@) is Some,
    ensures
        Some(walk_of(final(tokens)@, *final(position))) == walk_upper_line(Some(walk_of(old(tokens)@, *old(position))), *u, input@),
{
    let ghost o0 = Some(walk_of(tokens@, *position));
    let ghost es = u.elements@;
    let mut i: usize = 0;
    while i < u.elements.len()
        invariant
            es == u.elements@,
            i <= es.len(),
            Some(walk_of(tokens@, *position)) == walk_upper_elements(o0, es, i as int, input@),
            walk_line_end(walk_upper_elements(o0, es, es.len() as int, input@), u.source, input@) is Some,
        decreases es.len() - i,
    {
        proof {
            lemma_upper_elements_some(o0, es, i + 1, es.len() as int, input@);
        }
        upper_element_tokens(&u.elements[i], tokens, position, input);
        i = i + 1;
    }
    line_end(&u.source, tokens, position, input);
}

fn lower_line_tokens(l: &LowerLine, tokens: &mut Vec<SyntaxToken>, position: &mut usize, input: &str)
    requires
        walk_lower_line(Some(walk_of(old(tokens)@, *old(position))), *l, input@) is Some,
    ensures
        Some(walk_of(final(tokens)@, *final(position))) == walk_lower_line(Some(walk_of(old(tokens)@, *old(position))), *l, input@),
{
    let ghost o0 = Some(walk_of(tokens@, *position));
    let ghost es = l.elements@;
    let mut i: usize = 0;
    while i < l.elements.len()
        invariant
            es == l.elements@,
            i <= es.len(),
            Some(walk_of(tokens@, *position)) == walk_lower_elements(o0, es, i as int),
            walk_line_end(walk_lower_elements(o0, es, es.len() as int), l.source, input@) is Some,
        decreases es.len() - i,
    {
        proof {
            lemma_lower_elements_some(o0, es, i + 1, es.len() as int);
        }
        lower_element_tokens(&l.elements[i], tokens, position);
        i = i + 1;
    }
    line_end(&l.source, tokens, position, input);
}

proof fn lemma_syllables_some(o: Option<TokenWalk>, ss: Seq<Syllable>, m: int, n: int)
    requires
        0 <= m <= n,
        walk_syllables(o, ss, n) is Some,
    ensures
        walk_syllables(o, ss, m) is Some,
    decreases n,
{
    if m < n {
        lemma_syllables_some(o, ss, m, n - 1);
    }
}

fn lyrics_tokens(l: &LyricsLine, tokens: &mut Vec<SyntaxToken>, position: &mut usize)
    requires
        walk_lyrics(Some(walk_of(old(tokens)@, *old(position))), *l) is Some,
    ensures
        Some(walk_of(final(tokens)@, *final(position))) == walk_lyrics(Some(walk_of(old(tokens)@, *old(position))), *l),
{
    let ghost o0 = Some(walk_of(tokens@, *position));
    let ghost ss = l.syllables@;
    let mut i: usize = 0;
    while i < l.syllables.len()
        invariant
            ss == l.syllables@,
            i <= ss.len(),
            Some(walk_of(tokens@, *position)) == walk_syllables(o0, ss, i as int),
            walk_advance(walk_syllables(o0, ss, ss.len() as int), 1) is Some,
        decreases ss.len() - i,
    {
        proof {
            lemma_syllables_some(o0, ss, i + 1, ss.len() as int);
        }
        if i > 0 {
            advance_position(tokens, position, 1);
        }
        let syllable = &l.syllables[i];
        if str_byte_len(syllable.content.as_str()) > 0 {
            emit_token_here(tokens, position, "syllable", syllable.content.as_str());
        }
        i = i + 1;
    }
    advance_position(tokens, position, 1);
}

fn str_ends_with_newline(s: &str) -> (b: bool)
    ensures
        b == ends_with_newline(s@),
{
    let n = s.unicode_len();
    n > 0 && s.get_char(n - 1) == '\n'
}

fn text_tokens(t: &TextLine, tokens: &Vec<SyntaxToken>, position: &mut usize)
    requires
        walk_text(Some(walk_of(tokens@, *old(position))), *t) is Some,
    ensures
        Some(walk_of(tokens@, *final(position))) == walk_text(Some(walk_of(tokens@, *old(position))), *t),
{
    advance_position(tokens, position, str_byte_len(t.content.as_str()));
    if !str_ends_with_newline(t.content.as_str()) {
        advance_position(tokens, position, 1);
    }
}

proof fn lemma_content_some(o: Option<TokenWalk>, es: Seq<ParsedElement>, m: int, n: int, input: Seq<char>)
    requires
        0 <= m <= n,
        walk_content(o, es, n, input) is Some,
    ensures
        walk_content(o, es, m, input) is Some,
    decreases n,
{
    if m < n {
        lemma_content_some(o, es, m, n - 1, input);
    }
}

fn content_tokens(es: &Vec<ParsedElement>, tokens: &mut Vec<SyntaxToken>, position: &mut usize, input: &str)
    requires
        walk_content(Some(walk_of(old(tokens)@, *old(position))), es@, es@.len() as int, input@) is Some,
    ensures
        Some(walk_of(final(tokens)@, *final(position))) == walk_content(Some(walk_of(old(tokens)@, *old(position))), es@, es@.len() as int, input@),
{
    let ghost o0 = Some(walk_of(tokens@, *position));
    let mut i: usize = 0;
    while i < es.len()
        invariant
            i <= es@.len(),
            Some(walk_of(tokens@, *position)) == walk_content(o0, es@, i as int, input@),
            walk_content(o0, es@, es@.len() as int, input@) is Some,
        decreases es@.len() - i,
    {
        proof {
            lemma_content_some(o0, es@, i + 1, es@.len() as int, input@);
        }
        process_parsed_element(&es[i], tokens, position, input);
        i = i + 1;
    }
}

fn stave_line_tokens(line: &StaveLine, tokens: &mut Vec<SyntaxToken>, position: &mut usize, input: &str)
    requires
        walk_stave_line(Some(walk_of(old(tokens)@, *old(position))), *line, input@) is Some,
    ensures
        Some(walk_of(final(tokens)@, *final(position))) == walk_stave_line(Some(walk_of(old(tokens)@, *old(position))), *line, input@),
{
    match line {
        StaveLine::Text(t) => text_tokens(t, tokens, position),
        StaveLine::Upper(u) => upper_line_tokens(u, tokens, position, input),
        StaveLine::Content(es) => content_tokens(es, tokens, position, input),
        StaveLine::Lower(l) => lower_line_tokens(l, tokens, position, input),
        StaveLine::Lyrics(l) => lyrics_tokens(l, tokens, position),
        StaveLine::Whitespace(_) => {},
        StaveLine::BlankLines(b) => advance_position(tokens, position, str_byte_len(b.content.as_str())),
    }
}

proof fn lemma_stave_lines_some(o: Option<TokenWalk>, ls: Seq<StaveLine>, m: int, n: int, input: Seq<char>)
    requires
        0 <= m <= n,
        walk_stave_lines(o, ls, n, input) is Some,
    ensures
        walk_stave_lines(o, ls, m, input) is Some,
    decreases n,
{
    if m < n {
        if walk_stave_lines(o, ls, n - 1, input) is None {
            lemma_stave_line_none(ls[n - 1], input);
        }
        lemma_stave_lines_some(o, ls, m, n - 1, input);
    }
}

fn stave_tokens(st: &Stave, tokens: &mut Vec<SyntaxToken>, position: &mut usize, input: &str)
    requires
        walk_stave_lines(Some(walk_of(old(tokens)@, *old(position))), st.lines@, st.lines@.len() as int, input@) is Some,
    ensures
        Some(walk_of(final(tokens)@, *final(position)))
            == walk_stave_lines(Some(walk_of(old(tokens)@, *old(position))), st.lines@, st.lines@.len() as int, input@),
{
    let ghost o0 = Some(walk_of(tokens@, *position));
    let ghost ls = st.lines@;
    let mut i: usize = 0;
    while i < st.lines.len()
        invariant
            ls == st.lines@,
            i <= ls.len(),
            Some(walk_of(tokens@, *position)) == walk_stave_lines(o0, ls, i as int, input@),
            walk_stave_lines(o0, ls, ls.len() as int, input@) is Some,
        decreases ls.len() - i,
    {
        proof {
            lemma_stave_lines_some(o0, ls, i + 1, ls.len() as int, input@);
        }
        stave_line_tokens(&st.lines[i], tokens, position, input);
        i = i + 1;
    }
}

proof fn lemma_document_elements_some(o: Option<TokenWalk>, es: Seq<DocumentElement>, m: int, n: int, input: Seq<char>)
    requires
        0 <= m <= n,
        walk_document_elements(o, es, n, input) is Some,
    ensures
        walk_document_elements(o, es, m, input) is Some,
    decreases n,
{
    if m < n {
        if walk_document_elements(o, es, n - 1, input) is None {
            lemma_document_element_none(es[n - 1], input);
        }
        lemma_document_elements_some(o, es, m, n - 1, input);
    }
}

proof fn lemma_document_elements_none(es: Seq<DocumentElement>, n: int, input: Seq<char>)
    requires
        0 <= n,
    ensures
        walk_document_elements(None, es, n, input) is None,
    decreases n,
{
    if n > 0 {
        lemma_document_elements_none(es, n - 1, input);
        lemma_document_element_none(es[n - 1], input);
    }
}

proof fn lemma_stave_lines_none(ls: Seq<StaveLine>, n: int, input: Seq<char>)
    requires
        0 <= n,
    ensures
        walk_stave_lines(None, ls, n, input) is None,
    decreases n,
{
    if n > 0 {
        lemma_stave_lines_none(ls, n - 1, input);
        lemma_stave_line_none(ls[n - 1], input);
    }
}

proof fn lemma_document_element_none(e: DocumentElement, input: Seq<char>)
    ensures
        walk_document_element(None, e, input) is None,
{
    match e {
        DocumentElement::Stave(st) => lemma_stave_lines_none(st.lines@, st.lines@.len() as int, input),
        _ => {},
    }
}

proof fn lemma_stave_line_none(line: StaveLine, input: Seq<char>)
    ensures
        walk_stave_line(None, line, input) is None,
{
    match line {
        StaveLine::Upper(u) => lemma_upper_elements_none(u.elements@, u.elements@.len() as int, input),
        StaveLine::Lower(l) => lemma_lower_elements_none(l.elements@, l.elements@.len() as int),
        StaveLine::Lyrics(l) => lemma_syllables_none(l.syllables@, l.syllables@.len() as int),
        StaveLine::Content(es) => lemma_content_none(es@, es@.len() as int, input),
        _ => {},
    }
}

proof fn lemma_upper_elements_none(es: Seq<UpperElement>, n: int, input: Seq<char>)
    requires
        0 <= n,
    ensures
        walk_upper_elements(None, es, n, input) is None,
    decreases n,
{
    if n > 0 {
        lemma_upper_elements_none(es, n - 1, input);
    }
}

proof fn lemma_lower_elements_none(es: Seq<LowerElement>, n: int)
    requires
        0 <= n,
    ensures
        walk_lower_elements(None, es, n) is None,
    decreases n,
{
    if n > 0 {
        lemma_lower_elements_none(es, n - 1);
    }
}

proof fn lemma_syllables_none(ss: Seq<Syllable>, n: int)
    requires
        0 <= n,
    ensures
        walk_syllables(None, ss, n) is None,
    decreases n,
{
    if n > 0 {
        lemma_syllables_none(ss, n - 1);
    }
}

proof fn lemma_content_none(es: Seq<ParsedElement>, n: int, input: Seq<char>)
    requires
        0 <= n,
    ensures
        walk_content(None, es, n, input) is None,
    decreases n,
{
    if n > 0 {
        lemma_content_none(es, n - 1, input);
    }
}

proof fn lemma_directives_none(ds: Seq<Directive>, n: int)
    requires
        0 <= n,
    ensures
        walk_directives(None, ds, n) is None,
    decreases n,
{
    if n > 0 {
        lemma_directives_none(ds, n - 1);
    }
}

fn copy_token(t: &SyntaxToken) -> (r: SyntaxToken)
    ensures
        token_view(r) == token_view(*t),
{
    SyntaxToken { token_type: t.token_type.clone(), start: t.start, end: t.end, content: t.content.clone() }
}

fn keep_styled(tokens: &Vec<SyntaxToken>) -> (r: Vec<SyntaxToken>)
    ensures
        token_views(r@) == styled_tokens(token_views(tokens@)),
{
    let ghost all = token_views(tokens@);
    let mut out: Vec<SyntaxToken> = Vec::new();
    let mut i: usize = 0;
    proof {
        assert(all.take(0) =~= Seq::<(Seq<char>, nat, nat, Seq<char>)>::empty());
    }
    while i < tokens.len()
        invariant
            all == token_views(tokens@),
            i <= tokens@.len(),
            token_views(out@) == styled_tokens(all.take(i as int)),
        decreases tokens@.len() - i,
    {
        let t = &tokens[i];
        proof {
            assert(all.take(i + 1).drop_last() =~= all.take(i as int));
            assert(all.take(i + 1).last() == token_view(*t));
        }
        let styled = !str_eq(t.token_type.as_str(), "whitespace") && !str_eq(t.token_type.as_str(), "newline");
        if styled {
            let ghost before = out@;
            out.push(copy_token(t));
            proof {
                assert(token_views(out@) =~= token_views(before).push(token_view(*t)));
            }
        }
        i = i + 1;
    }
    proof {
        assert(all.take(i as int) =~= all);
    }
    out
}

/// The syntax tokens of a document for the editor (see `syntax_walk`):
/// directive keys, separators and values; slurs and octave markers above
/// the content line at their source offsets; each content element's token;
/// beat groups and octave markers below it, and lyrics syllables, at the
/// running position. Whitespace and newline tokens are left out.
pub fn generate_syntax_tokens(document: &Document, original_input: &str) -> (r: Vec<SyntaxToken>)
    requires
        syntax_walk(*document, original_input@) is Some,
    ensures
        token_views(r@) == styled_tokens(syntax_walk(*document, original_input@).unwrap().tokens),
{
    let mut tokens: Vec<SyntaxToken> = Vec::new();
    let mut position: usize = 0;
    let ghost start = Some(walk_of(tokens@, position));
    proof {
        assert(token_views(tokens@) =~= Seq::<(Seq<char>, nat, nat, Seq<char>)>::empty());
        assert(start == Some(TokenWalk { tokens: Seq::empty(), pos: 0 }));
    }
    let ghost ds = document.directives@;
    let ghost es = document.elements@;
    let ghost after = walk_directives(start, ds, ds.len() as int);
    proof {
        if after is None {
            lemma_document_elements_none(es, es.len() as int, original_input@);
        }
    }
    let mut i: usize = 0;
    while i < document.directives.len()
        invariant
            ds == document.directives@,
            i <= ds.len(),
            Some(walk_of(tokens@, position)) == walk_directives(start, ds, i as int),
            after == walk_directives(start, ds, ds.len() as int),
            after is Some,
        decreases ds.len() - i,
    {
        proof {
            lemma_directives_some(start, ds, i + 1, ds.len() as int);
        }
        directive_tokens(&document.directives[i], &mut tokens, &mut position);
        i = i + 1;
    }
    let mut k: usize = 0;
    while k < document.elements.len()
        invariant
            es == document.elements@,
            k <= es.len(),
            Some(walk_of(tokens@, position)) == walk_document_elements(after, es, k as int, original_input@),
            walk_document_elements(after, es, es.len() as int, original_input@) is Some,
            walk_document_elements(after, es, es.len() as int, original_input@) == syntax_walk(*document, original_input@),
        decreases es.len() - k,
    {
        proof {
            lemma_document_elements_some(after, es, k + 1, es.len() as int, original_input@);
        }
        match &document.elements[k] {
            DocumentElement::BlankLines(b) => advance_position(&tokens, &mut position, str_byte_len(b.content.as_str())),
            DocumentElement::Stave(st) => stave_tokens(st, &mut tokens, &mut position, original_input),
        }
        k = k + 1;
    }
    keep_styled(&tokens)
}


/// The texts of a list, joined without separator.
pub open spec fn joined(ps: Seq<String>) -> Seq<char>
    decreases ps.len(),
{
    if ps.len() == 0 { Seq::empty() } else { joined(ps.drop_last()) + ps.last()@ }
}

/// `n` spaces.
pub open spec fn spaces(n: nat) -> Seq<char> {
    Seq::new(n, |_i: int| ' ')
}

/// The token of an upper line element on its own: kind, start (its source
/// column), length in bytes and content.
pub open spec fn upper_element_syntax(e: UpperElement) -> (Seq<char>, nat, nat, Seq<char>) {
    match e {
        UpperElement::UpperOctaveMarker { marker, source } =>
            (if marker@ == ":"@ { "upper-octave-marker-2"@ } else { "upper-octave-marker"@ },
             source.position.column as nat, utf8_bytes(marker@), marker@),
        UpperElement::SlurIndicator { value, source } =>
            ("slur-indicator"@, source.position.column as nat, utf8_bytes(value@), value@),
        UpperElement::UpperHashes { value, source } =>
            ("multi_stave_marker"@, source.position.column as nat, utf8_bytes(value@), value@),
        UpperElement::Ornament { pitches, source } =>
            ("ornament"@, source.position.column as nat, utf8_bytes(joined(pitches@)), joined(pitches@)),
        UpperElement::Chord { chord, source } =>
            ("chord"@, source.position.column as nat, utf8_bytes("["@ + chord@ + "]"@), "["@ + chord@ + "]"@),
        UpperElement::Mordent { source } => ("mordent"@, source.position.column as nat, 1, "~"@),
        UpperElement::Space { count, source } => ("whitespace"@, source.position.column as nat, count as nat, spaces(count as nat)),
        UpperElement::Unknown { value, source } =>
            ("unknown"@, source.position.column as nat, utf8_bytes(value@), value@),
        UpperElement::Newline { value, source } =>
            ("newline"@, source.position.column as nat, utf8_bytes(value@), value@),
    }
}

/// The token of a lower line element on its own: kind, start, length in
/// bytes and content. Beat groups start at the byte offset of their source
/// position (0 when the source has none), the others at their source
/// column; the end of input has none.
pub open spec fn lower_element_syntax(e: LowerElement, input: Seq<char>) -> Option<(Seq<char>, nat, nat, Seq<char>)> {
    match e {
        LowerElement::LowerOctaveMarker { marker, source } =>
            Some((if marker@ == ":"@ { "lower-octave-marker-2"@ } else { "lower-octave-marker"@ },
             source.position.column as nat, utf8_bytes(marker@), marker@)),
        LowerElement::BeatGroupIndicator { value, source } =>
            Some(("beat_group"@,
                match source_offset(source.position.line, source.position.column, input) { Some(o) => o, None => 0 },
                utf8_bytes(value@), value@)),
        LowerElement::Syllable { content, source } =>
            Some(("syllable"@, source.position.column as nat, utf8_bytes(content@), content@)),
        LowerElement::Space { count, source } => Some(("whitespace"@, source.position.column as nat, count as nat, spaces(count as nat))),
        LowerElement::Unknown { value, source } =>
            Some(("unknown"@, source.position.column as nat, utf8_bytes(value@), value@)),
        LowerElement::Newline { value, source } =>
            Some(("newline"@, source.position.column as nat, utf8_bytes(value@), value@)),
        LowerElement::EndOfInput { .. } => None,
    }
}

fn join_all(ps: &Vec<String>) -> (r: String)
    ensures
        r@ == joined(ps@),
{
    let mut r = String::new();
    let mut i: usize = 0;
    proof {
        assert(ps@.take(0) =~= Seq::<String>::empty());
    }
    while i < ps.len()
        invariant
            i <= ps@.len(),
            r@ == joined(ps@.take(i as int)),
        decreases ps@.len() - i,
    {
        proof {
            assert(ps@.take(i + 1).drop_last() =~= ps@.take(i as int));
        }
        r.append(ps[i].as_str());
        i = i + 1;
    }
    proof {
        assert(ps@.take(i as int) =~= ps@);
    }
    r
}

fn spaces_of(n: usize) -> (r: String)
    ensures
        r@ == spaces(n as nat),
{
    let mut r = String::new();
    let mut i: usize = 0;
    while i < n
        invariant
            i <= n,
            r@ == spaces(i as nat),
        decreases n - i,
    {
        push_char(&mut r, ' ');
        i = i + 1;
        assert(r@ =~= spaces(i as nat));
    }
    r
}

fn push_syntax_token(tokens: &mut Vec<SyntaxToken>, position: &mut usize, kind: &str, start: usize, len: usize, content: String)
    requires
        start + len <= usize::MAX,
        *old(position) + len <= usize::MAX,
    ensures
        token_views(final(tokens)@) == token_views(old(tokens)@).push((kind@, start as nat, (start + len) as nat, content@)),
        *final(position) == *old(position) + len,
{
    let ghost before = tokens@;
    let ghost cv = content@;
    tokens.push(SyntaxToken { token_type: kind.to_owned(), start, end: start + len, content });
    *position = *position + len;
    assert(token_views(tokens@) =~= token_views(before).push((kind@, start as nat, (start + len) as nat, cv)));
}

/// Appends the token of an upper line element (see `upper_element_syntax`)
/// and moves `position` on by its length.
pub fn process_upper_element(element: &UpperElement, tokens: &mut Vec<SyntaxToken>, position: &mut usize, original_input: &str)
    requires
        upper_element_syntax(*element).1 + upper_element_syntax(*element).2 <= usize::MAX,
        *old(position) + upper_element_syntax(*element).2 <= usize::MAX,
    ensures
        ({
            let t = upper_element_syntax(*element);
            &&& token_views(final(tokens)@) == token_views(old(tokens)@).push((t.0, t.1, t.1 + t.2, t.3))
            &&& *final(position) == *old(position) + t.2
        }),
{
    match element {
        UpperElement::UpperOctaveMarker { marker, source } => {
            let kind = if str_eq(marker.as_str(), ":") { "upper-octave-marker-2" } else { "upper-octave-marker" };
            push_syntax_token(tokens, position, kind, source.position.column, str_byte_len(marker.as_str()), marker.clone());
        },
        UpperElement::SlurIndicator { value, source } => {
            push_syntax_token(tokens, position, "slur-indicator", source.position.column, str_byte_len(value.as_str()), value.clone());
        },
        UpperElement::UpperHashes { value, source } => {
            push_syntax_token(tokens, position, "multi_stave_marker", source.position.column, str_byte_len(value.as_str()), value.clone());
        },
        UpperElement::Ornament { pitches, source } => {
            let ornament = join_all(pitches);
            let len = str_byte_len(ornament.as_str());
            push_syntax_token(tokens, position, "ornament", source.position.column, len, ornament);
        },
        UpperElement::Chord { chord, source } => {
            let mut text = "[".to_owned();
            text.append(chord.as_str());
            text.append("]");
            let len = str_byte_len(text.as_str());
            push_syntax_token(tokens, position, "chord", source.position.column, len, text);
        },
        UpperElement::Mordent { source } => {
            push_syntax_token(tokens, position, "mordent", source.position.column, 1, "~".to_owned());
        },
        UpperElement::Space { count, source } => {
            push_syntax_token(tokens, position, "whitespace", source.position.column, *count, spaces_of(*count));
        },
        UpperElement::Unknown { value, source } => {
            push_syntax_token(tokens, position, "unknown", source.position.column, str_byte_len(value.as_str()), value.clone());
        },
        UpperElement::Newline { value, source } => {
            push_syntax_token(tokens, position, "newline", source.position.column, str_byte_len(value.as_str()), value.clone());
        },
    }
}

/// Appends the token of a lower line element (see `lower_element_syntax`)
/// and moves `position` on by its length; the end of input changes nothing.
pub fn process_lower_element(element: &LowerElement, tokens: &mut Vec<SyntaxToken>, position: &mut usize, original_input: &str)
    requires
        lower_element_syntax(*element, original_input@) matches Some(t) ==> t.1 + t.2 <= usize::MAX && *old(position) + t.2 <= usize::MAX,
    ensures
        match lower_element_syntax(*element, original_input@) {
            Some(t) => token_views(final(tokens)@) == token_views(old(tokens)@).push((t.0, t.1, t.1 + t.2, t.3))
                && *final(position) == *old(position) + t.2,
            None => final(tokens)@ == old(tokens)@ && *final(position) == *old(position),
        },
{
    match element {
        LowerElement::LowerOctaveMarker { marker, source } => {
            let kind = if str_eq(marker.as_str(), ":") { "lower-octave-marker-2" } else { "lower-octave-marker" };
            push_syntax_token(tokens, position, kind, source.position.column, str_byte_len(marker.as_str()), marker.clone());
        },
        LowerElement::BeatGroupIndicator { value, source } => {
            let start = match source_position_to_absolute_offset(source.position.line, source.position.column, original_input) {
                Some(o) => o,
                None => 0,
            };
            push_syntax_token(tokens, position, "beat_group", start, str_byte_len(value.as_str()), value.clone());
        },
        LowerElement::Syllable { content, source } => {
            push_syntax_token(tokens, position, "syllable", source.position.column, str_byte_len(content.as_str()), content.clone());
        },
        LowerElement::Space { count, source } => {
            push_syntax_token(tokens, position, "whitespace", source.position.column, *count, spaces_of(*count));
        },
        LowerElement::Unknown { value, source } => {
            push_syntax_token(tokens, position, "unknown", source.position.column, str_byte_len(value.as_str()), value.clone());
        },
        LowerElement::Newline { value, source } => {
            push_syntax_token(tokens, position, "newline", source.position.column, str_byte_len(value.as_str()), value.clone());
        },
        LowerElement::EndOfInput { .. } => {},
    }
}


/// The text of a document's source, empty when not kept.
pub open spec fn source_text(doc: Document) -> Seq<char> {
    match doc.source.value {
        Some(v) => v@,
        None => Seq::empty(),
    }
}

/// The span (first and last column) of an annotation of `len` bytes at `column`.
pub open spec fn column_span(column: usize, len: nat) -> (usize, usize) {
    (column, (column + len - 1) as usize)
}

/// Whether such a span has a last column in `usize`: at least one byte
/// whose end fits.
pub open spec fn span_fits(column: usize, len: nat) -> bool {
    1 <= column + len <= usize::MAX
}

/// The spans of the beat group indicators of a lower line.
pub open spec fn lower_line_spans(es: Seq<LowerElement>) -> Seq<(usize, usize)>
    decreases es.len(),
{
    if es.len() == 0 {
        Seq::empty()
    } else {
        lower_line_spans(es.drop_last()) + match es.last() {
            LowerElement::BeatGroupIndicator { value, source } => seq![column_span(source.position.column, utf8_bytes(value@))],
            _ => Seq::empty(),
        }
    }
}

/// The spans of the slur indicators of an upper line.
pub open spec fn upper_line_spans(es: Seq<UpperElement>) -> Seq<(usize, usize)>
    decreases es.len(),
{
    if es.len() == 0 {
        Seq::empty()
    } else {
        upper_line_spans(es.drop_last()) + match es.last() {
            UpperElement::SlurIndicator { value, source } => seq![column_span(source.position.column, utf8_bytes(value@))],
            _ => Seq::empty(),
        }
    }
}

/// The beat group spans of the lower lines of a stave (`lower`) or the slur
/// spans of its upper lines (not `lower`), line by line.
pub open spec fn stave_spans(ls: Seq<StaveLine>, lower: bool) -> Seq<(usize, usize)>
    decreases ls.len(),
{
    if ls.len() == 0 {
        Seq::empty()
    } else {
        stave_spans(ls.drop_last(), lower) + match ls.last() {
            StaveLine::Lower(l) => if lower { lower_line_spans(l.elements@) } else { Seq::empty() },
            StaveLine::Upper(u) => if lower { Seq::empty() } else { upper_line_spans(u.elements@) },
            _ => Seq::empty(),
        }
    }
}

/// The beat group spans (`lower`) or slur spans (not `lower`) of all staves.
pub open spec fn document_spans(es: Seq<DocumentElement>, lower: bool) -> Seq<(usize, usize)>
    decreases es.len(),
{
    if es.len() == 0 {
        Seq::empty()
    } else {
        document_spans(es.drop_last(), lower) + match es.last() {
            DocumentElement::Stave(st) => stave_spans(st.lines@, lower),
            _ => Seq::empty(),
        }
    }
}

/// Whether every beat group indicator of a lower line has a span that fits.
pub open spec fn lower_line_fits(es: Seq<LowerElement>) -> bool {
    forall|i: int| 0 <= i < es.len() ==> match #[trigger] es[i] {
        LowerElement::BeatGroupIndicator { value, source } => span_fits(source.position.column, utf8_bytes(value@)),
        _ => true,
    }
}

/// Whether every slur indicator of an upper line has a span that fits.
pub open spec fn upper_line_fits(es: Seq<UpperElement>) -> bool {
    forall|i: int| 0 <= i < es.len() ==> match #[trigger] es[i] {
        UpperElement::SlurIndicator { value, source } => span_fits(source.position.column, utf8_bytes(value@)),
        _ => true,
    }
}

/// Whether the annotation spans of every line of a stave fit.
pub open spec fn stave_fits(ls: Seq<StaveLine>) -> bool {
    forall|j: int| 0 <= j < ls.len() ==> match #[trigger] ls[j] {
        StaveLine::Lower(l) => lower_line_fits(l.elements@),
        StaveLine::Upper(u) => upper_line_fits(u.elements@),
        _ => true,
    }
}

/// Whether the annotation spans of every stave of a document fit.
pub open spec fn document_fits(es: Seq<DocumentElement>) -> bool {
    forall|k: int| 0 <= k < es.len() ==> match #[trigger] es[k] {
        DocumentElement::Stave(st) => stave_fits(st.lines@),
        _ => true,
    }
}

fn lower_spans_into(es: &Vec<LowerElement>, out: &mut Vec<(usize, usize)>)
    requires
        lower_line_fits(es@),
    ensures
        final(out)@ == old(out)@ + lower_line_spans(es@),
{
    let ghost start = out@;
    let mut i: usize = 0;
    proof {
        assert(es@.take(0) =~= Seq::<LowerElement>::empty());
        assert(start + lower_line_spans(es@.take(0)) =~= start);
    }
    while i < es.len()
        invariant
            i <= es@.len(),
            lower_line_fits(es@),
            out@ == start + lower_line_spans(es@.take(i as int)),
        decreases es@.len() - i,
    {
        proof {
            assert(es@.take(i + 1).drop_last() =~= es@.take(i as int));
            assert(es@.take(i + 1).last() == es@[i as int]);
        }
        match &es[i] {
            LowerElement::BeatGroupIndicator { value, source } => {
                let len = str_byte_len(value.as_str());
                out.push((source.position.column, source.position.column + len - 1));
                assert(out@ =~= start + lower_line_spans(es@.take(i + 1)));
            },
            _ => {
                assert(out@ =~= start + lower_line_spans(es@.take(i + 1)));
            },
        }
        i = i + 1;
    }
    proof {
        assert(es@.take(i as int) =~= es@);
    }
}

fn upper_spans_into(es: &Vec<UpperElement>, out: &mut Vec<(usize, usize)>)
    requires
        upper_line_fits(es@),
    ensures
        final(out)@ == old(out)@ + upper_line_spans(es@),
{
    let ghost start = out@;
    let mut i: usize = 0;
    proof {
        assert(es@.take(0) =~= Seq::<UpperElement>::empty());
        assert(start + upper_line_spans(es@.take(0)) =~= start);
    }
    while i < es.len()
        invariant
            i <= es@.len(),
            upper_line_fits(es@),
            out@ == start + upper_line_spans(es@.take(i as int)),
        decreases es@.len() - i,
    {
        proof {
            assert(es@.take(i + 1).drop_last() =~= es@.take(i as int));
            assert(es@.take(i + 1).last() == es@[i as int]);
        }
        match &es[i] {
            UpperElement::SlurIndicator { value, source } => {
                let len = str_byte_len(value.as_str());
                out.push((source.position.column, source.position.column + len - 1));
                assert(out@ =~= start + upper_line_spans(es@.take(i + 1)));
            },
            _ => {
                assert(out@ =~= start + upper_line_spans(es@.take(i + 1)));
            },
        }
        i = i + 1;
    }
    proof {
        assert(es@.take(i as int) =~= es@);
    }
}

fn stave_spans_into(ls: &Vec<StaveLine>, lower: bool, out: &mut Vec<(usize, usize)>)
    requires
        stave_fits(ls@),
    ensures
        final(out)@ == old(out)@ + stave_spans(ls@, lower),
{
    let ghost start = out@;
    let mut j: usize = 0;
    proof {
        assert(ls@.take(0) =~= Seq::<StaveLine>::empty());
        assert(start + stave_spans(ls@.take(0), lower) =~= start);
    }
    while j < ls.len()
        invariant
            j <= ls@.len(),
            stave_fits(ls@),
            out@ == start + stave_spans(ls@.take(j as int), lower),
        decreases ls@.len() - j,
    {
        proof {
            assert(ls@.take(j + 1).drop_last() =~= ls@.take(j as int));
            assert(ls@.take(j + 1).last() == ls@[j as int]);
        }
        let ghost before = out@;
        match &ls[j] {
            StaveLine::Lower(l) => {
                if lower {
                    lower_spans_into(&l.elements, out);
                }
            },
            StaveLine::Upper(u) => {
                if !lower {
                    upper_spans_into(&u.elements, out);
                }
            },
            _ => {},
        }
        assert(out@ =~= start + stave_spans(ls@.take(j + 1), lower));
        j = j + 1;
    }
    proof {
        assert(ls@.take(j as int) =~= ls@);
    }
}

fn document_spans_of(doc: &Document, lower: bool) -> (r: Vec<(usize, usize)>)
    requires
        document_fits(doc.elements@),
    ensures
        r@ == document_spans(doc.elements@, lower),
{
    let ghost es = doc.elements@;
    let mut out: Vec<(usize, usize)> = Vec::new();
    let mut k: usize = 0;
    proof {
        assert(es.take(0) =~= Seq::<DocumentElement>::empty());
    }
    while k < doc.elements.len()
        invariant
            es == doc.elements@,
            k <= es.len(),
            document_fits(es),
            out@ == document_spans(es.take(k as int), lower),
        decreases es.len() - k,
    {
        proof {
            assert(es.take(k + 1).drop_last() =~= es.take(k as int));
            assert(es.take(k + 1).last() == es[k as int]);
        }
        match &doc.elements[k] {
            DocumentElement::Stave(st) => {
                stave_spans_into(&st.lines, lower, &mut out);
            },
            _ => {},
        }
        assert(out@ =~= document_spans(es.take(k + 1), lower));
        k = k + 1;
    }
    proof {
        assert(es.take(k as int) =~= es);
    }
    out
}

fn source_text_of(doc: &Document) -> (r: &str)
    ensures
        r@ == source_text(*doc),
{
    match &doc.source.value {
        Some(v) => v.as_str(),
        None => {
            proof {
                reveal_strlit("");
                assert(""@ =~= Seq::<char>::empty());
            }
            ""
        },
    }
}

/// Marks explicit beat groups: for each beat group indicator below a content
/// line of the document (its span running from its column over its
/// underscores), the elements within the span, by ascending byte offset on
/// the first line of the document's source, get beat group classes when
/// there are two or more.
pub fn process_explicit_beat_groups(styles: &mut Vec<CharacterStyle>, content_elements: &[ParsedElement], document: &Document)
    requires
        document_fits(document.elements@),
    ensures
        style_positions(final(styles)@) == style_positions(old(styles)@),
        style_classes(final(styles)@) == apply_spans(style_classes(old(styles)@), style_positions(old(styles)@),
            elements_view(content_elements@), source_text(*document), document_spans(document.elements@, true), "beat-group"@,
            document_spans(document.elements@, true).len() as int),
{
    let spans = document_spans_of(document, true);
    process_spans(styles, content_elements, spans.as_slice(), source_text_of(document), "beat-group");
}

/// Marks slurs: for each slur indicator above a content line of the
/// document (its span running from its column over its underscores), the
/// elements within the span, by ascending byte offset on the first line of
/// the document's source, get slur classes when there are two or more.
pub fn process_slurs(styles: &mut Vec<CharacterStyle>, content_elements: &[ParsedElement], document: &Document)
    requires
        document_fits(document.elements@),
    ensures
        style_positions(final(styles)@) == style_positions(old(styles)@),
        style_classes(final(styles)@) == apply_spans(style_classes(old(styles)@), style_positions(old(styles)@),
            elements_view(content_elements@), source_text(*document), document_spans(document.elements@, false), "slur"@,
            document_spans(document.elements@, false).len() as int),
{
    let spans = document_spans_of(document, false);
    process_spans(styles, content_elements, spans.as_slice(), source_text_of(document), "slur");
}

/// Marks implicit beat groups: runs of two or more consecutive notes
/// (outside explicit groups), rests and dashes with the same
/// quarter-or-shorter duration get beat group classes at their byte offsets
/// in the document's source.
pub fn process_implicit_beat_groups(styles: &mut Vec<CharacterStyle>, content_elements: &[ParsedElement], document: &Document)
    ensures
        style_positions(final(styles)@) == style_positions(old(styles)@),
        ({
            let groups = implicit_groups(musical_entries(elements_view(content_elements@), source_text(*document)));
            style_classes(final(styles)@) == apply_beat_groups(style_classes(old(styles)@), style_positions(old(styles)@), groups, groups.len() as int)
        }),
{
    mark_implicit_beat_groups(styles, content_elements, source_text_of(document));
}

/// The classes after one content line of the document was marked: explicit
/// beat groups, then implicit beat groups, then slurs.
pub open spec fn mark_content_line(classes: Seq<Seq<Seq<char>>>, ps: Seq<usize>, els: Seq<ParsedElementView>, doc: Document) -> Seq<Seq<Seq<char>>> {
    let input = source_text(doc);
    let beat_spans = document_spans(doc.elements@, true);
    let slur_spans = document_spans(doc.elements@, false);
    let c1 = apply_spans(classes, ps, els, input, beat_spans, "beat-group"@, beat_spans.len() as int);
    let groups = implicit_groups(musical_entries(els, input));
    let c2 = apply_beat_groups(c1, ps, groups, groups.len() as int);
    apply_spans(c2, ps, els, input, slur_spans, "slur"@, slur_spans.len() as int)
}

/// The classes after the content lines among the first `n` lines of a stave were marked.
pub open spec fn mark_stave_lines(classes: Seq<Seq<Seq<char>>>, ps: Seq<usize>, ls: Seq<StaveLine>, n: int, doc: Document) -> Seq<Seq<Seq<char>>>
    decreases n,
{
    if n <= 0 {
        classes
    } else {
        let prev = mark_stave_lines(classes, ps, ls, n - 1, doc);
        match ls[n - 1] {
            StaveLine::Content(es) => mark_content_line(prev, ps, elements_view(es@), doc),
            _ => prev,
        }
    }
}

/// The classes after the content lines of the first `n` staves were marked.
pub open spec fn mark_document(classes: Seq<Seq<Seq<char>>>, ps: Seq<usize>, es: Seq<DocumentElement>, n: int, doc: Document) -> Seq<Seq<Seq<char>>>
    decreases n,
{
    if n <= 0 {
        classes
    } else {
        let prev = mark_document(classes, ps, es, n - 1, doc);
        match es[n - 1] {
            DocumentElement::Stave(st) => mark_stave_lines(prev, ps, st.lines@, st.lines@.len() as int, doc),
            _ => prev,
        }
    }
}

fn mark_stave(styles: &mut Vec<CharacterStyle>, st: &Stave, document: &Document)
    requires
        document_fits(document.elements@),
    ensures
        style_positions(final(styles)@) == style_positions(old(styles)@),
        style_classes(final(styles)@) == mark_stave_lines(style_classes(old(styles)@), style_positions(old(styles)@),
            st.lines@, st.lines@.len() as int, *document),
{
    let ghost ps = style_positions(styles@);
    let ghost c0 = style_classes(styles@);
    let mut j: usize = 0;
    while j < st.lines.len()
        invariant
            j <= st.lines@.len(),
            document_fits(document.elements@),
            style_positions(styles@) == ps,
            style_classes(styles@) == mark_stave_lines(c0, ps, st.lines@, j as int, *document),
        decreases st.lines@.len() - j,
    {
        match &st.lines[j] {
            StaveLine::Content(content_elements) => {
                process_explicit_beat_groups(styles, content_elements.as_slice(), document);
                process_implicit_beat_groups(styles, content_elements.as_slice(), document);
                process_slurs(styles, content_elements.as_slice(), document);
            },
            _ => {},
        }
        j = j + 1;
    }
}

/// Character styles (see `generate_character_styles`) with beat group and
/// slur classes added for every content line of the document (see
/// `mark_content_line`).
pub fn generate_character_styles_with_beat_groups(tokens: &[SyntaxToken], document: &Document) -> (r: Vec<CharacterStyle>)
    requires
        document_fits(document.elements@),
    ensures
        r@.len() == max_end(tokens@),
        forall|p: int| 0 <= p < r@.len() ==> #[trigger] r@[p].pos == p,
        style_classes(r@) == mark_document(Seq::new(max_end(tokens@), |p: int| char_classes(tokens@, p)),
            Seq::new(max_end(tokens@), |p: int| p as usize), document.elements@, document.elements@.len() as int, *document),
        classes_extended(Seq::new(max_end(tokens@), |p: int| char_classes(tokens@, p)), style_classes(r@)),
{
    proof {
        lemma_beat_group_styles_extend_base(tokens@, *document);
    }
    let mut styles = generate_character_styles(tokens);
    let ghost ps = style_positions(styles@);
    let ghost c0 = style_classes(styles@);
    proof {
        assert(ps =~= Seq::new(max_end(tokens@), |p: int| p as usize));
    }
    let mut k: usize = 0;
    while k < document.elements.len()
        invariant
            k <= document.elements@.len(),
            document_fits(document.elements@),
            styles@.len() == ps.len(),
            style_positions(styles@) == ps,
            ps == Seq::new(max_end(tokens@), |p: int| p as usize),
            style_classes(styles@) == mark_document(c0, ps, document.elements@, k as int, *document),
        decreases document.elements@.len() - k,
    {
        match &document.elements[k] {
            DocumentElement::Stave(st) => {
                mark_stave(&mut styles, st, document);
            },
            _ => {},
        }
        k = k + 1;
    }
    proof {
        assert forall|p: int| 0 <= p < styles@.len() implies #[trigger] styles@[p].pos == p by {
            assert(style_positions(styles@)[p] == styles@[p].pos);
        }
    }
    styles
}

} // verus!

verus! {

/// Whether every class list of `b` starts with the class list of `a` at the
/// same position (classes are only appended).
pub open spec fn classes_extended(a: Seq<Seq<Seq<char>>>, b: Seq<Seq<Seq<char>>>) -> bool {
    a.len() == b.len() && forall|i: int| 0 <= i < a.len() ==> (#[trigger] a[i]).is_prefix_of(b[i])
}

proof fn lemma_classes_extended_refl(a: Seq<Seq<Seq<char>>>)
    ensures
        classes_extended(a, a),
{
    assert forall|i: int| 0 <= i < a.len() implies (#[trigger] a[i]).is_prefix_of(a[i]) by {
        assert(a[i] =~= a[i].subrange(0, a[i].len() as int));
    }
}

proof fn lemma_classes_extended_trans(a: Seq<Seq<Seq<char>>>, b: Seq<Seq<Seq<char>>>, c: Seq<Seq<Seq<char>>>)
    requires
        classes_extended(a, b),
        classes_extended(b, c),
    ensures
        classes_extended(a, c),
{
    assert forall|i: int| 0 <= i < a.len() implies (#[trigger] a[i]).is_prefix_of(c[i]) by {
        assert(a[i].is_prefix_of(b[i]));
        assert(b[i].is_prefix_of(c[i]));
        assert(a[i] =~= c[i].subrange(0, a[i].len() as int)) by {
            assert(a[i] =~= b[i].subrange(0, a[i].len() as int));
            assert(b[i] =~= c[i].subrange(0, b[i].len() as int));
        }
    }
}

proof fn lemma_grouped_classes_extend(classes: Seq<Seq<Seq<char>>>, ps: Seq<usize>, positions: Seq<usize>, count: nat, name: Seq<char>, k: int)
    requires
        classes.len() == ps.len(),
    ensures
        classes_extended(classes, grouped_classes(classes, ps, positions, count, name, k)),
    decreases k,
{
    if k <= 0 {
        lemma_classes_extended_refl(classes);
    } else {
        lemma_grouped_classes_extend(classes, ps, positions, count, name, k - 1);
        let prev = grouped_classes(classes, ps, positions, count, name, k - 1);
        let next = grouped_classes(classes, ps, positions, count, name, k);
        lemma_first_style_at_bound(ps, positions[k - 1]);
        match first_style_at(ps, positions[k - 1]) {
            Some(j) => {
                let x = group_classes(name, (k - 1) as nat, positions.len(), count);
                assert(classes_extended(prev, next)) by {
                    assert forall|i: int| 0 <= i < prev.len() implies (#[trigger] prev[i]).is_prefix_of(next[i]) by {
                        if i == j {
                            assert(prev[i] =~= (prev[i] + x).subrange(0, prev[i].len() as int));
                        } else {
                            assert(prev[i] =~= next[i].subrange(0, prev[i].len() as int));
                        }
                    }
                }
                lemma_classes_extended_trans(classes, prev, next);
            },
            None => {},
        }
    }
}

proof fn lemma_apply_beat_groups_extend(classes: Seq<Seq<Seq<char>>>, ps: Seq<usize>, groups: Seq<Seq<usize>>, k: int)
    requires
        classes.len() == ps.len(),
    ensures
        classes_extended(classes, apply_beat_groups(classes, ps, groups, k)),
    decreases k,
{
    if k <= 0 {
        lemma_classes_extended_refl(classes);
    } else {
        lemma_apply_beat_groups_extend(classes, ps, groups, k - 1);
        let prev = apply_beat_groups(classes, ps, groups, k - 1);
        let g = groups[k - 1];
        lemma_grouped_classes_extend(prev, ps, g, g.len(), "beat-group"@, g.len() as int);
        lemma_classes_extended_trans(classes, prev, apply_beat_groups(classes, ps, groups, k));
    }
}

proof fn lemma_apply_spans_extend(classes: Seq<Seq<Seq<char>>>, ps: Seq<usize>, els: Seq<ParsedElementView>, input: Seq<char>,
    spans: Seq<(usize, usize)>, name: Seq<char>, k: int)
    requires
        classes.len() == ps.len(),
    ensures
        classes_extended(classes, apply_spans(classes, ps, els, input, spans, name, k)),
    decreases k,
{
    if k <= 0 {
        lemma_classes_extended_refl(classes);
    } else {
        lemma_apply_spans_extend(classes, ps, els, input, spans, name, k - 1);
        let prev = apply_spans(classes, ps, els, input, spans, name, k - 1);
        let g = ascending(span_offsets(els, input, spans[k - 1]));
        if g.len() >= 2 {
            lemma_grouped_classes_extend(prev, ps, g, g.len(), name, g.len() as int);
            lemma_classes_extended_trans(classes, prev, apply_spans(classes, ps, els, input, spans, name, k));
        }
    }
}

proof fn lemma_mark_content_line_extend(classes: Seq<Seq<Seq<char>>>, ps: Seq<usize>, els: Seq<ParsedElementView>, doc: Document)
    requires
        classes.len() == ps.len(),
    ensures
        classes_extended(classes, mark_content_line(classes, ps, els, doc)),
{
    let input = source_text(doc);
    let beat_spans = document_spans(doc.elements@, true);
    let slur_spans = document_spans(doc.elements@, false);
    let c1 = apply_spans(classes, ps, els, input, beat_spans, "beat-group"@, beat_spans.len() as int);
    lemma_apply_spans_extend(classes, ps, els, input, beat_spans, "beat-group"@, beat_spans.len() as int);
    let groups = implicit_groups(musical_entries(els, input));
    let c2 = apply_beat_groups(c1, ps, groups, groups.len() as int);
    lemma_apply_beat_groups_extend(c1, ps, groups, groups.len() as int);
    lemma_apply_spans_extend(c2, ps, els, input, slur_spans, "slur"@, slur_spans.len() as int);
    lemma_classes_extended_trans(classes, c1, c2);
    lemma_classes_extended_trans(classes, c2, mark_content_line(classes, ps, els, doc));
}

proof fn lemma_mark_stave_lines_extend(classes: Seq<Seq<Seq<char>>>, ps: Seq<usize>, ls: Seq<StaveLine>, n: int, doc: Document)
    requires
        classes.len() == ps.len(),
    ensures
        classes_extended(classes, mark_stave_lines(classes, ps, ls, n, doc)),
    decreases n,
{
    if n <= 0 {
        lemma_classes_extended_refl(classes);
    } else {
        lemma_mark_stave_lines_extend(classes, ps, ls, n - 1, doc);
        let prev = mark_stave_lines(classes, ps, ls, n - 1, doc);
        match ls[n - 1] {
            StaveLine::Content(es) => {
                lemma_mark_content_line_extend(prev, ps, elements_view(es@), doc);
                lemma_classes_extended_trans(classes, prev, mark_stave_lines(classes, ps, ls, n, doc));
            },
            _ => {},
        }
    }
}

proof fn lemma_mark_document_extend(classes: Seq<Seq<Seq<char>>>, ps: Seq<usize>, es: Seq<DocumentElement>, n: int, doc: Document)
    requires
        classes.len() == ps.len(),
    ensures
        classes_extended(classes, mark_document(classes, ps, es, n, doc)),
    decreases n,
{
    if n <= 0 {
        lemma_classes_extended_refl(classes);
    } else {
        lemma_mark_document_extend(classes, ps, es, n - 1, doc);
        let prev = mark_document(classes, ps, es, n - 1, doc);
        match es[n - 1] {
            DocumentElement::Stave(st) => {
                lemma_mark_stave_lines_extend(prev, ps, st.lines@, st.lines@.len() as int, doc);
                lemma_classes_extended_trans(classes, prev, mark_document(classes, ps, es, n, doc));
            },
            _ => {},
        }
    }
}

/// Marking beat groups and slurs only appends classes: at every position the
/// classes of the plain character styles stay the first classes of the
/// marked styles, and no style is added or removed.
pub proof fn lemma_beat_group_styles_extend_base(tokens: Seq<SyntaxToken>, document: Document)
    ensures
        classes_extended(
            Seq::new(max_end(tokens), |p: int| char_classes(tokens, p)),
            mark_document(Seq::new(max_end(tokens), |p: int| char_classes(tokens, p)),
                Seq::new(max_end(tokens), |p: int| p as usize), document.elements@, document.elements@.len() as int, document)),
{
    lemma_mark_document_extend(Seq::new(max_end(tokens), |p: int| char_classes(tokens, p)),
        Seq::new(max_end(tokens), |p: int| p as usize), document.elements@, document.elements@.len() as int, document);
}

} // verus!
