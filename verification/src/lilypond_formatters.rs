//! LilyPond output formatters.
use vstd::prelude::*;
use crate::text::{trim_str, trim_spec, push_char, utf8_bytes, str_byte_len};
use crate::pitch::Degree;
use crate::lilypond_renderer::lily_base;

verus! {

/// The words of a text between single spaces (empty words between
/// consecutive spaces), as `str::split(' ')` gives them.
pub open spec fn space_split(s: Seq<char>) -> Seq<Seq<char>>
    decreases s.len(),
{
    if s.len() == 0 {
        seq![Seq::empty()]
    } else {
        let prev = space_split(s.drop_last());
        if s.last() == ' ' {
            prev.push(Seq::empty())
        } else {
            prev.update(prev.len() - 1, prev.last().push(s.last()))
        }
    }
}

/// One word added to the wrapped text and current line: the line is ended
/// first when it is not empty and the word (with a space) would take it past
/// `w` bytes; then the word joins the line after a space (none on an empty line).
pub open spec fn wrap_step(state: (Seq<char>, Seq<char>), word: Seq<char>, w: nat) -> (Seq<char>, Seq<char>) {
    let broke = utf8_bytes(state.1) + utf8_bytes(word) + 1 > w && state.1.len() > 0;
    let res = if broke { state.0 + state.1 + seq!['\n'] } else { state.0 };
    let cur = if broke { Seq::empty() } else { state.1 };
    (res, (if cur.len() > 0 { cur.push(' ') } else { cur }) + word)
}

/// The wrapped text and current line after the words.
pub open spec fn wrap_scan(words: Seq<Seq<char>>, w: nat) -> (Seq<char>, Seq<char>)
    decreases words.len(),
{
    if words.len() == 0 { (Seq::empty(), Seq::empty()) } else { wrap_step(wrap_scan(words.drop_last(), w), words.last(), w) }
}

/// A text wrapped at `w` bytes, breaking at spaces (see `wrap_step`).
pub open spec fn wrapped(text: Seq<char>, w: nat) -> Seq<char> {
    let sc = wrap_scan(space_split(text), w);
    if sc.1.len() > 0 { sc.0 + sc.1 } else { sc.0 }
}

fn wrap_word(result: &mut String, current_line: &mut String, word: &str, w: usize)
    ensures
        (final(result)@, final(current_line)@) == wrap_step((old(result)@, old(current_line)@), word@, w as nat),
{
    let cur_len = str_byte_len(current_line.as_str()) as u128;
    let word_len = str_byte_len(word) as u128;
    if cur_len + word_len + 1 > w as u128 && current_line.unicode_len() > 0 {
        result.append(current_line.as_str());
        push_char(result, '\n');
        *current_line = String::new();
    }
    if current_line.unicode_len() > 0 {
        push_char(current_line, ' ');
    }
    current_line.append(word);
}

/// Minimal LilyPond formatter: a single line with the notes.
pub struct MinimalFormatter {
    pub wrap_width: usize,
}

impl MinimalFormatter {
    /// A formatter wrapping at 70 columns.
    pub fn new() -> (f: Self)
        ensures
            f.wrap_width == 70,
    {
        MinimalFormatter { wrap_width: 70 }
    }

    /// A formatter wrapping at the given column.
    pub fn with_wrap_width(wrap_width: usize) -> (f: Self)
        ensures
            f.wrap_width == wrap_width,
    {
        MinimalFormatter { wrap_width }
    }

    /// `\version "2.24.0" { <notes> }` with the notes trimmed of white space.
    pub fn format(&self, notes_content: &str) -> (s: String)
        ensures
            s@ == "\\version \"2.24.0\" { "@ + trim_spec(notes_content@) + " }"@,
    {
        let mut s = "\\version \"2.24.0\" { ".to_owned();
        s.append(trim_str(notes_content).as_str());
        s.append(" }");
        s
    }

    /// Wraps text at the formatter's width, breaking at spaces (see `wrapped`).
    pub fn word_wrap(&self, text: &str) -> (r: String)
        ensures
            r@ == wrapped(text@, self.wrap_width as nat),
    {
        let n = text.unicode_len();
        let w = self.wrap_width;
        let mut result = String::new();
        let mut current_line = String::new();
        let mut word = String::new();
        let mut i: usize = 0;
        proof {
            assert(text@.take(0) =~= Seq::<char>::empty());
            assert(space_split(Seq::<char>::empty()) =~= seq![Seq::<char>::empty()]);
            assert(space_split(text@.take(0)).drop_last() =~= Seq::<Seq<char>>::empty());
        }
        while i < n
            invariant
                n == text@.len(),
                w == self.wrap_width,
                i <= n,
                space_split(text@.take(i as int)).len() >= 1,
                word@ == space_split(text@.take(i as int)).last(),
                (result@, current_line@) == wrap_scan(space_split(text@.take(i as int)).drop_last(), w as nat),
            decreases n - i,
        {
            let c = text.get_char(i);
            let ghost before = space_split(text@.take(i as int));
            proof {
                assert(text@.take(i + 1).drop_last() =~= text@.take(i as int));
                assert(text@.take(i + 1).last() == c);
            }
            if c == ' ' {
                wrap_word(&mut result, &mut current_line, word.as_str(), w);
                word = String::new();
                proof {
                    let after = space_split(text@.take(i + 1));
                    assert(after == before.push(Seq::<char>::empty()));
                    assert(after.drop_last() =~= before);
                    assert(before =~= before.drop_last().push(before.last()));
                }
            } else {
                push_char(&mut word, c);
                proof {
                    let after = space_split(text@.take(i + 1));
                    assert(after == before.update(before.len() - 1, before.last().push(c)));
                    assert(after.drop_last() =~= before.drop_last());
                }
            }
            i = i + 1;
        }
        proof {
            assert(text@.take(n as int) =~= text@);
            let ws = space_split(text@);
            assert(ws =~= ws.drop_last().push(ws.last()));
        }
        wrap_word(&mut result, &mut current_line, word.as_str(), w);
        if current_line.unicode_len() > 0 {
            result.append(current_line.as_str());
        }
        result
    }
}

impl Default for MinimalFormatter {
    fn default() -> (f: Self)
        ensures
            f.wrap_width == 70,
    {
        Self::new()
    }
}

/// LilyPond formatter tuned for fast SVG rendering on the web.
pub struct WebFastFormatter;

impl WebFastFormatter {
    /// The formatter.
    pub fn new() -> (f: Self) {
        WebFastFormatter
    }
}

/// LilyPond formatter producing complete scores with lyrics.
pub struct FullFormatter;

impl FullFormatter {
    /// The formatter.
    pub fn new() -> (f: Self) {
        FullFormatter
    }
}

} // verus!

verus! {

/// LilyPond octave marks: `'` per octave up, `,` per octave down.
pub open spec fn octave_markers(octave: i8) -> Seq<char> {
    if octave > 0 {
        Seq::new(octave as nat, |i: int| '\'')
    } else if octave < 0 {
        Seq::new((-octave) as nat, |i: int| ',')
    } else {
        Seq::empty()
    }
}

/// LilyPond octave marks of an octave (see `octave_markers`).
pub fn octave_to_lilypond_markers(octave: i8) -> (r: String)
    requires
        octave > i8::MIN,
    ensures
        r@ == octave_markers(octave),
{
    let mut r = String::new();
    if octave == 0 {
        return r;
    }
    let (count, mark): (u8, char) = if octave > 0 { (octave as u8, '\'') } else { ((-octave) as u8, ',') };
    let mut k: u8 = 0;
    while k < count
        invariant
            k <= count,
            r@ == Seq::new(k as nat, |i: int| mark),
        decreases count - k,
    {
        push_char(&mut r, mark);
        proof {
            assert(r@ =~= Seq::new((k + 1) as nat, |i: int| mark));
        }
        k = k + 1;
    }
    proof {
        assert(r@ =~= octave_markers(octave));
    }
    r
}

/// The LilyPond name of a scale degree read in C (see `lily_base`).
pub fn degree_to_lilypond_simple(degree: Degree) -> (r: String)
    ensures
        r@ == lily_base(degree),
{
    crate::lilypond_renderer::degree_to_lilypond_simple(degree).to_owned()
}

/// The LilyPond pitch of a scale degree with its octave marks.
pub fn degree_to_lilypond_with_octave(degree: Degree, octave: i8) -> (r: String)
    requires
        octave > i8::MIN,
    ensures
        r@ == lily_base(degree) + octave_markers(octave),
{
    let mut base = degree_to_lilypond_simple(degree);
    let markers = octave_to_lilypond_markers(octave);
    base.append(markers.as_str());
    base
}

} // verus!
