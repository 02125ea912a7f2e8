//! Styles for the CodeMirror editor: each rendered span becomes a style
//! with CSS classes and custom properties, positioned in characters.
use vstd::prelude::*;
use crate::text::{str_eq, push_char, utf8_len, utf8_len_of};

verus! {

/// A rendered span of the source: its kind, byte range, text and data
/// attributes (name, value) with distinct names.
#[derive(Clone, Debug)]
pub struct Span {
    pub span_type: String,
    pub start: usize,
    pub end: usize,
    pub content: String,
    pub data_attributes: Vec<(String, String)>,
}

/// The style of a span: character position and length, CSS classes and
/// custom properties (name, value).
#[derive(Clone, Debug)]
pub struct SpanStyle {
    pub pos: usize,
    pub length: usize,
    pub classes: Vec<String>,
    pub styles: Vec<(String, String)>,
    pub title: Option<String>,
}

/// What `char::is_uppercase` reports for a character (Unicode `Uppercase`).
pub uninterp spec fn unicode_is_uppercase(c: char) -> bool;

/// The first character of what `char::to_lowercase` yields for a character.
pub uninterp spec fn unicode_lowercase_first(c: char) -> char;

/// Calls `char::is_uppercase`; the result is a function of the character
/// alone (the Unicode property, which this library does not restate).
#[verifier::external_body]
fn char_is_uppercase(c: char) -> (r: bool)
    ensures
        r == unicode_is_uppercase(c),
{
    c.is_uppercase()
}

/// Calls `char::to_lowercase` and takes the first character it yields (it
/// always yields at least one); the mapping itself is not restated here.
#[verifier::external_body]
fn char_lowercase_first(c: char) -> (r: char)
    ensures
        r == unicode_lowercase_first(c),
{
    c.to_lowercase().next().unwrap()
}

/// Kebab case of a name: a `-` before every upper-case character but the
/// first, and every character lowered.
pub open spec fn kebab(s: Seq<char>) -> Seq<char>
    decreases s.len(),
{
    if s.len() == 0 {
        Seq::empty()
    } else {
        let i = s.len() - 1;
        let c = s[i];
        kebab(s.drop_last()) + (if i > 0 && unicode_is_uppercase(c) { seq!['-'] } else { Seq::empty() })
            + seq![unicode_lowercase_first(c)]
    }
}

/// Converts a PascalCase name to kebab case (see `kebab`).
pub fn to_kebab_case(s: &str) -> (r: String)
    ensures
        r@ == kebab(s@),
{
    let n = s.unicode_len();
    let mut result = String::new();
    let mut i: usize = 0;
    proof {
        assert(s@.take(0) =~= Seq::<char>::empty());
    }
    while i < n
        invariant
            n == s@.len(),
            i <= n,
            result@ == kebab(s@.take(i as int)),
        decreases n - i,
    {
        let c = s.get_char(i);
        let ghost before = result@;
        if i > 0 && char_is_uppercase(c) {
            push_char(&mut result, '-');
        }
        push_char(&mut result, char_lowercase_first(c));
        proof {
            let t = s@.take(i + 1);
            assert(t.drop_last() =~= s@.take(i as int));
            assert(t.last() == c);
            assert(result@ =~= kebab(t));
        }
        i = i + 1;
    }
    proof {
        assert(s@.take(n as int) =~= s@);
    }
    result
}


/// Byte offset of character `k` of a text.
pub open spec fn byte_offset(s: Seq<char>, k: int) -> nat
    decreases k,
{
    if k <= 0 { 0 } else { byte_offset(s, k - 1) + utf8_len(s[k - 1]) }
}

/// Number of leading characters (from `k` on) that start before byte `b`.
pub open spec fn chars_before_byte(s: Seq<char>, b: nat, k: int) -> nat
    decreases s.len() - k,
{
    if k < 0 || k >= s.len() || byte_offset(s, k) >= b { if k < 0 { 0 } else { k as nat } }
    else { chars_before_byte(s, b, k + 1) }
}


/// Character position of a byte position: the number of characters that
/// start before it.
pub fn byte_pos_to_char_pos(text: &str, byte_pos: usize) -> (r: usize)
    ensures
        r == chars_before_byte(text@, byte_pos as nat, 0),
{
    let n = text.unicode_len();
    let mut i: usize = 0;
    let mut offset: u128 = 0;
    while i < n
        invariant
            n == text@.len(),
            i <= n,
            offset == byte_offset(text@, i as int),
            offset <= 4 * i,
            chars_before_byte(text@, byte_pos as nat, 0) == chars_before_byte(text@, byte_pos as nat, i as int),
        decreases n - i,
    {
        if offset >= byte_pos as u128 {
            return i;
        }
        let c = text.get_char(i);
        offset = offset + utf8_len_of(c) as u128;
        i = i + 1;
    }
    i
}

/// The value of the first attribute with a name.
pub open spec fn attribute(attrs: Seq<(String, String)>, name: Seq<char>) -> Option<Seq<char>>
    decreases attrs.len(),
{
    if attrs.len() == 0 { None }
    else if attrs[0].0@ == name { Some(attrs[0].1@) }
    else { attribute(attrs.skip(1), name) }
}

fn find_attribute(attrs: &Vec<(String, String)>, name: &str) -> (r: Option<String>)
    ensures
        match r { Some(v) => attribute(attrs@, name@) == Some(v@), None => attribute(attrs@, name@) is None },
{
    let mut i: usize = 0;
    proof {
        assert(attrs@.skip(0) =~= attrs@);
    }
    while i < attrs.len()
        invariant
            i <= attrs@.len(),
            attribute(attrs@, name@) == attribute(attrs@.skip(i as int), name@),
        decreases attrs@.len() - i,
    {
        proof {
            assert(attrs@.skip(i as int)[0] == attrs@[i as int]);
            assert(attrs@.skip(i as int).skip(1) =~= attrs@.skip(i + 1));
        }
        if str_eq(attrs[i].0.as_str(), name) {
            return Some(attrs[i].1.clone());
        }
        i = i + 1;
    }
    None
}

/// The CSS classes of a span: `cm-<kind>`, then `consumed` when marked so,
/// `beat-start` for a beat loop, and `octave-<n>` / `octave-neg-<n>` for octaves.
pub open spec fn span_classes(span: Span) -> Seq<Seq<char>> {
    let a = span.data_attributes@;
    seq!["cm-"@ + span.span_type@]
        + (if attribute(a, "consumed"@) == Some("true"@) { seq!["consumed"@] } else { Seq::empty() })
        + (if attribute(a, "beat-loop-length"@) is Some { seq!["beat-start"@] } else { Seq::empty() })
        + (match attribute(a, "octave"@) { Some(o) => seq!["octave-"@ + o], None => Seq::empty() })
        + (match attribute(a, "octave-negative"@) { Some(o) => seq!["octave-neg-"@ + o], None => Seq::empty() })
}

/// The custom properties of a span: the beat loop length and octaves it carries.
pub open spec fn span_properties(span: Span) -> Seq<(Seq<char>, Seq<char>)> {
    let a = span.data_attributes@;
    (match attribute(a, "beat-loop-length"@) { Some(v) => seq![("--beat-loop-length"@, v)], None => Seq::empty() })
        + (match attribute(a, "octave"@) { Some(v) => seq![("--octave"@, v)], None => Seq::empty() })
        + (match attribute(a, "octave-negative"@) { Some(v) => seq![("--octave-negative"@, v)], None => Seq::empty() })
}

/// Texts of a list of strings.
pub open spec fn texts(v: Seq<String>) -> Seq<Seq<char>> {
    v.map_values(|s: String| s@)
}

/// Texts of a list of string pairs.
pub open spec fn text_pairs(v: Seq<(String, String)>) -> Seq<(Seq<char>, Seq<char>)> {
    v.map_values(|p: (String, String)| (p.0@, p.1@))
}

/// Whether a style is the one of a span in a source text.
pub open spec fn style_of(style: SpanStyle, span: Span, input: Seq<char>) -> bool {
    &&& style.pos == chars_before_byte(input, span.start as nat, 0)
    &&& style.length == span.content@.len()
    &&& texts(style.classes@) == span_classes(span)
    &&& text_pairs(style.styles@) == span_properties(span)
    &&& style.title is None
}

fn push_text(v: &mut Vec<String>, s: String)
    ensures
        texts(final(v)@) == texts(old(v)@).push(s@),
{
    let ghost before = v@;
    let ghost sv = s@;
    v.push(s);
    assert(texts(v@) =~= texts(before).push(sv));
}

fn push_pair(v: &mut Vec<(String, String)>, a: String, b: String)
    ensures
        text_pairs(final(v)@) == text_pairs(old(v)@).push((a@, b@)),
{
    let ghost before = v@;
    let ghost p = (a@, b@);
    v.push((a, b));
    assert(text_pairs(v@) =~= text_pairs(before).push(p));
}

/// The style of one span (see `style_of`).
fn span_style(span: &Span, original_input: &str) -> (r: SpanStyle)
    ensures
        style_of(r, *span, original_input@),
{
    let mut classes: Vec<String> = Vec::new();
    let mut first = "cm-".to_owned();
    first.append(span.span_type.as_str());
    push_text(&mut classes, first);
    let mut styles: Vec<(String, String)> = Vec::new();
    proof {
        assert(text_pairs(styles@) =~= Seq::<(Seq<char>, Seq<char>)>::empty());
        assert(texts(Seq::<String>::empty()) =~= Seq::<Seq<char>>::empty());
    }
    let consumed = find_attribute(&span.data_attributes, "consumed");
    let is_consumed = match &consumed { Some(v) => str_eq(v.as_str(), "true"), None => false };
    if is_consumed {
        push_text(&mut classes, "consumed".to_owned());
    }
    let beat_loop = find_attribute(&span.data_attributes, "beat-loop-length");
    if let Some(len) = beat_loop {
        push_pair(&mut styles, "--beat-loop-length".to_owned(), len);
        push_text(&mut classes, "beat-start".to_owned());
    }
    let octave = find_attribute(&span.data_attributes, "octave");
    if let Some(o) = octave {
        let mut c = "octave-".to_owned();
        c.append(o.as_str());
        push_pair(&mut styles, "--octave".to_owned(), o);
        push_text(&mut classes, c);
    }
    let octave_negative = find_attribute(&span.data_attributes, "octave-negative");
    if let Some(o) = octave_negative {
        let mut c = "octave-neg-".to_owned();
        c.append(o.as_str());
        push_pair(&mut styles, "--octave-negative".to_owned(), o);
        push_text(&mut classes, c);
    }
    let pos = byte_pos_to_char_pos(original_input, span.start);
    let length = span.content.as_str().unicode_len();
    proof {
        assert(texts(classes@) =~= span_classes(*span));
        assert(text_pairs(styles@) =~= span_properties(*span));
    }
    SpanStyle { pos, length, classes, styles, title: None }
}

/// The style of every span, in order (see `style_of`).
pub fn render_codemirror_styles(spans: &[Span], original_input: &str) -> (r: Vec<SpanStyle>)
    ensures
        r@.len() == spans@.len(),
        forall|i: int| 0 <= i < spans@.len() ==> #[trigger] style_of(r@[i], spans@[i], original_input@),
{
    let mut r: Vec<SpanStyle> = Vec::new();
    let mut i: usize = 0;
    while i < spans.len()
        invariant
            i <= spans@.len(),
            r@.len() == i,
            forall|j: int| 0 <= j < i ==> #[trigger] style_of(r@[j], spans@[j], original_input@),
        decreases spans@.len() - i,
    {
        r.push(span_style(&spans[i], original_input));
        i = i + 1;
    }
    r
}

} // verus!
