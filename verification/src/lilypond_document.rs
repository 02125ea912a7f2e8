//! Durations and pitch names for LilyPond output of a whole document.
use vstd::prelude::*;
use crate::pitch::Degree;
use crate::rhythm_fsm_v2_clean::{reduce, reduce_fraction};
use crate::text::str_eq;
use crate::models::copy_string;
use crate::rhythm_analyzer::{BeatElement, ContentElement, ContentLine};
use crate::lilypond_renderer::{AnalyzedDocument, AnalyzedElement, AnalyzedStaveLine, lily_base, octave_marks};

verus! {

/// Whether `n/d` (with `d > 0`) is the rational `a/b`.
pub open spec fn is_value(n: nat, d: nat, a: nat, b: nat) -> bool {
    d > 0 && n * b == d * a
}

/// The LilyPond duration of `n/d`: the standard values and dotted quarter
/// and eighth by table (triplet eighths, sixteenths and thirty-seconds are
/// written as their plain values), else by the reduced denominator (64 or
/// more gives `64`, down to `1`); no value (a zero denominator) gives `4`.
pub open spec fn document_duration(n: nat, d: nat) -> Seq<char> {
    if d == 0 { "4"@ }
    else if is_value(n, d, 1, 1) { "1"@ }
    else if is_value(n, d, 1, 2) { "2"@ }
    else if is_value(n, d, 1, 4) { "4"@ }
    else if is_value(n, d, 1, 8) { "8"@ }
    else if is_value(n, d, 1, 16) { "16"@ }
    else if is_value(n, d, 1, 32) { "32"@ }
    else if is_value(n, d, 1, 64) { "64"@ }
    else if is_value(n, d, 3, 8) { "4."@ }
    else if is_value(n, d, 3, 16) { "8."@ }
    else if is_value(n, d, 1, 12) { "8"@ }
    else if is_value(n, d, 1, 24) { "16"@ }
    else if is_value(n, d, 1, 48) { "32"@ }
    else {
        let den = reduce(n, d).1;
        if den >= 64 { "64"@ } else if den >= 32 { "32"@ } else if den >= 16 { "16"@ } else if den >= 8 { "8"@ }
        else if den >= 4 { "4"@ } else if den >= 2 { "2"@ } else { "1"@ }
    }
}

fn is_value_exec(n: usize, d: usize, a: usize, b: usize) -> (r: bool)
    requires
        a <= 3,
        b <= 64,
    ensures
        r == is_value(n as nat, d as nat, a as nat, b as nat),
{
    let nn = n as u128;
    let dd = d as u128;
    let aa = a as u128;
    let bb = b as u128;
    assert(nn * bb <= 18446744073709551615u128 * 64) by (nonlinear_arith)
        requires nn <= 18446744073709551615u128, bb <= 64;
    assert(dd * aa <= 18446744073709551615u128 * 3) by (nonlinear_arith)
        requires dd <= 18446744073709551615u128, aa <= 3;
    d > 0 && nn * bb == dd * aa
}

/// The LilyPond duration of `numerator/denominator` (see `document_duration`).
pub fn fraction_to_lilypond_duration(numerator: usize, denominator: usize) -> (r: String)
    ensures
        r@ == document_duration(numerator as nat, denominator as nat),
{
    let n = numerator;
    let d = denominator;
    if d == 0 { "4".to_owned() }
    else if is_value_exec(n, d, 1, 1) { "1".to_owned() }
    else if is_value_exec(n, d, 1, 2) { "2".to_owned() }
    else if is_value_exec(n, d, 1, 4) { "4".to_owned() }
    else if is_value_exec(n, d, 1, 8) { "8".to_owned() }
    else if is_value_exec(n, d, 1, 16) { "16".to_owned() }
    else if is_value_exec(n, d, 1, 32) { "32".to_owned() }
    else if is_value_exec(n, d, 1, 64) { "64".to_owned() }
    else if is_value_exec(n, d, 3, 8) { "4.".to_owned() }
    else if is_value_exec(n, d, 3, 16) { "8.".to_owned() }
    else if is_value_exec(n, d, 1, 12) { "8".to_owned() }
    else if is_value_exec(n, d, 1, 24) { "16".to_owned() }
    else if is_value_exec(n, d, 1, 48) { "32".to_owned() }
    else {
        let (_, den) = reduce_fraction(n, d);
        if den >= 64 { "64".to_owned() } else if den >= 32 { "32".to_owned() } else if den >= 16 { "16".to_owned() }
        else if den >= 8 { "8".to_owned() } else if den >= 4 { "4".to_owned() } else if den >= 2 { "2".to_owned() }
        else { "1".to_owned() }
    }
}

/// The LilyPond note of a scale degree's letter in the octave above middle
/// C, accidentals dropped.
pub open spec fn letter_note(d: Degree) -> Seq<char> {
    match d {
        Degree::N1 | Degree::N1s | Degree::N1ss | Degree::N1b | Degree::N1bb => "c'"@,
        Degree::N2 | Degree::N2s | Degree::N2ss | Degree::N2b | Degree::N2bb => "d'"@,
        Degree::N3 | Degree::N3s | Degree::N3ss | Degree::N3b | Degree::N3bb => "e'"@,
        Degree::N4 | Degree::N4s | Degree::N4ss | Degree::N4b | Degree::N4bb => "f'"@,
        Degree::N5 | Degree::N5s | Degree::N5ss | Degree::N5b | Degree::N5bb => "g'"@,
        Degree::N6 | Degree::N6s | Degree::N6ss | Degree::N6b | Degree::N6bb => "a'"@,
        Degree::N7 | Degree::N7s | Degree::N7ss | Degree::N7b | Degree::N7bb => "b'"@,
    }
}

/// The LilyPond note of a scale degree's letter (see `letter_note`).
pub fn degree_to_lilypond(degree: Degree) -> (r: &'static str)
    ensures
        r@ == letter_note(degree),
{
    match degree {
        Degree::N1 | Degree::N1s | Degree::N1ss | Degree::N1b | Degree::N1bb => "c'",
        Degree::N2 | Degree::N2s | Degree::N2ss | Degree::N2b | Degree::N2bb => "d'",
        Degree::N3 | Degree::N3s | Degree::N3ss | Degree::N3b | Degree::N3bb => "e'",
        Degree::N4 | Degree::N4s | Degree::N4ss | Degree::N4b | Degree::N4bb => "f'",
        Degree::N5 | Degree::N5s | Degree::N5ss | Degree::N5b | Degree::N5bb => "g'",
        Degree::N6 | Degree::N6s | Degree::N6ss | Degree::N6b | Degree::N6bb => "a'",
        Degree::N7 | Degree::N7s | Degree::N7ss | Degree::N7b | Degree::N7bb => "b'",
    }
}

// ---------------------------------------------------------------------------
// A whole document written as LilyPond text.

/// The value of the first directive with a key.
pub open spec fn directive_value(ds: Seq<(String, String)>, key: Seq<char>) -> Option<Seq<char>>
    decreases ds.len(),
{
    if ds.len() == 0 {
        None
    } else if ds[0].0@ == key {
        Some(ds[0].1@)
    } else {
        directive_value(ds.skip(1), key)
    }
}

/// The title of a document, or its `title` directive.
pub open spec fn document_title(d: AnalyzedDocument) -> Option<Seq<char>> {
    match d.title { Some(t) => Some(t@), None => directive_value(d.directives@, "title"@) }
}

/// The author of a document, or its `author` directive.
pub open spec fn document_author(d: AnalyzedDocument) -> Option<Seq<char>> {
    match d.author { Some(a) => Some(a@), None => directive_value(d.directives@, "author"@) }
}

/// The `\header` block of a document with a title or author (the author as
/// composer); nothing when it has neither.
pub open spec fn header_text(d: AnalyzedDocument) -> Seq<char> {
    match (document_title(d), document_author(d)) {
        (None, None) => Seq::empty(),
        (t, a) => "\\header {\n"@
            + (match t { Some(x) => "  title = \""@ + x + "\"\n"@, None => Seq::empty() })
            + (match a { Some(x) => "  composer = \""@ + x + "\"\n"@, None => Seq::empty() })
            + "}\n\n"@,
    }
}

/// The LilyPond duration of an optional fraction (see `document_duration`),
/// a quarter when absent.
pub open spec fn optional_duration(n: Option<u32>, d: Option<u32>) -> Seq<char> {
    match (n, d) {
        (Some(a), Some(b)) => document_duration(a as nat, b as nat),
        _ => "4"@,
    }
}

/// The text of one beat element: a note as its pitch, octave marks and
/// duration; a dash or rest as a quarter rest; a breath mark; each followed
/// by a space.
pub open spec fn element_text(e: BeatElement) -> Seq<char> {
    match e {
        BeatElement::Note(n) => lily_base(n.pitch_code) + octave_marks(n.octave) + optional_duration(n.numerator, n.denominator) + " "@,
        BeatElement::Dash(_) => "r4 "@,
        BeatElement::Rest(_) => "r4 "@,
        BeatElement::BreathMark(_) => "\\breathe "@,
    }
}

/// The text of the first `k` elements of a beat.
pub open spec fn elements_text(es: Seq<BeatElement>, k: int) -> Seq<char>
    decreases k,
{
    if k <= 0 { Seq::empty() } else { elements_text(es, k - 1) + element_text(es[k - 1]) }
}

/// The text of a content element: a beat's elements, a bar line as `| `.
pub open spec fn content_text(e: ContentElement) -> Seq<char> {
    match e {
        ContentElement::Beat(b) => elements_text(b.elements@, b.elements@.len() as int),
        ContentElement::Barline(_) => "| "@,
        _ => Seq::empty(),
    }
}

/// The text of the first `k` content elements.
pub open spec fn contents_text(es: Seq<ContentElement>, k: int) -> Seq<char>
    decreases k,
{
    if k <= 0 { Seq::empty() } else { contents_text(es, k - 1) + content_text(es[k - 1]) }
}

/// The text of the content lines among the first `k` lines of a stave.
pub open spec fn stave_lines_text(ls: Seq<AnalyzedStaveLine>, k: int) -> Seq<char>
    decreases k,
{
    if k <= 0 {
        Seq::empty()
    } else {
        stave_lines_text(ls, k - 1) + match ls[k - 1] {
            AnalyzedStaveLine::ContentLine(c) => contents_text(c.elements@, c.elements@.len() as int),
            _ => Seq::empty(),
        }
    }
}

/// The text of the staves among the first `k` elements of a document.
pub open spec fn document_body(es: Seq<AnalyzedElement>, k: int) -> Seq<char>
    decreases k,
{
    if k <= 0 {
        Seq::empty()
    } else {
        document_body(es, k - 1) + match es[k - 1] {
            AnalyzedElement::Stave(s) => stave_lines_text(s.lines@, s.lines@.len() as int),
            _ => Seq::empty(),
        }
    }
}

/// The LilyPond text of a document: version and language, the header, and
/// one staff in C major, 4/4, holding every content line's notes in order.
pub open spec fn lilypond_document_text(d: AnalyzedDocument) -> Seq<char> {
    "\\version \"2.24.0\"\n\\language \"english\"\n\n"@ + header_text(d)
        + "\\score {\n  \\new Staff {\n    \\fixed c' {\n      \\key c \\major\n      \\time 4/4\n      "@
        + document_body(d.elements@, d.elements@.len() as int)
        + "\n    }\n  }\n}"@
}

fn find_directive(ds: &Vec<(String, String)>, key: &str) -> (r: Option<String>)
    ensures
        match r { Some(v) => directive_value(ds@, key@) == Some(v@), None => directive_value(ds@, key@) is None },
{
    let mut i: usize = 0;
    assert(ds@.skip(0) =~= ds@);
    while i < ds.len()
        invariant
            i <= ds@.len(),
            directive_value(ds@, key@) == directive_value(ds@.skip(i as int), key@),
        decreases ds@.len() - i,
    {
        proof {
            assert(ds@.skip(i as int).skip(1) =~= ds@.skip(i + 1));
            assert(ds@.skip(i as int)[0] == ds@[i as int]);
        }
        if str_eq(ds[i].0.as_str(), key) {
            return Some(copy_string(&ds[i].1));
        }
        i = i + 1;
    }
    None
}

fn optional_duration_of(n: Option<u32>, d: Option<u32>) -> (r: String)
    ensures
        r@ == optional_duration(n, d),
{
    match (n, d) {
        (Some(a), Some(b)) => fraction_to_lilypond_duration(a as usize, b as usize),
        _ => "4".to_owned(),
    }
}

fn add_content_text(out: &mut String, c: &ContentLine)
    ensures
        final(out)@ == old(out)@ + contents_text(c.elements@, c.elements@.len() as int),
{
    let ghost start = out@;
    let mut k: usize = 0;
    while k < c.elements.len()
        invariant
            k <= c.elements@.len(),
            out@ == start + contents_text(c.elements@, k as int),
        decreases c.elements@.len() - k,
    {
        let ghost before = out@;
        match &c.elements[k] {
            ContentElement::Beat(b) => {
                let mut j: usize = 0;
                while j < b.elements.len()
                    invariant
                        j <= b.elements@.len(),
                        out@ == before + elements_text(b.elements@, j as int),
                    decreases b.elements@.len() - j,
                {
                    let ghost at = out@;
                    match &b.elements[j] {
                        BeatElement::Note(n) => {
                            let pitch = match crate::lilypond_renderer::degree_to_lilypond(n.pitch_code, n.octave, None) {
                                Ok(p) => p,
                                Err(_) => "c'".to_owned(),
                            };
                            out.append(pitch.as_str());
                            out.append(optional_duration_of(n.numerator, n.denominator).as_str());
                            out.append(" ");
                        },
                        BeatElement::Dash(_) => { out.append("r4 "); },
                        BeatElement::Rest(_) => { out.append("r4 "); },
                        BeatElement::BreathMark(_) => { out.append("\\breathe "); },
                    }
                    proof {
                        assert(out@ =~= at + element_text(b.elements@[j as int]));
                    }
                    j = j + 1;
                }
            },
            ContentElement::Barline(_) => { out.append("| "); },
            _ => {},
        }
        proof {
            assert(out@ =~= start + contents_text(c.elements@, k + 1));
        }
        k = k + 1;
    }
}

/// Writes a document as LilyPond text (see `lilypond_document_text`).
pub fn render_lilypond_from_document(document: &AnalyzedDocument) -> (r: String)
    ensures
        r@ == lilypond_document_text(*document),
{
    let mut output = "\\version \"2.24.0\"\n\\language \"english\"\n\n".to_owned();
    let title = match &document.title { Some(t) => Some(copy_string(t)), None => find_directive(&document.directives, "title") };
    let author = match &document.author { Some(a) => Some(copy_string(a)), None => find_directive(&document.directives, "author") };
    let ghost start = output@;
    if title.is_some() || author.is_some() {
        output.append("\\header {\n");
        match &title {
            Some(t) => {
                output.append("  title = \"");
                output.append(t.as_str());
                output.append("\"\n");
            },
            None => {},
        }
        match &author {
            Some(a) => {
                output.append("  composer = \"");
                output.append(a.as_str());
                output.append("\"\n");
            },
            None => {},
        }
        output.append("}\n\n");
    }
    proof {
        assert(output@ =~= start + header_text(*document));
    }
    output.append("\\score {\n  \\new Staff {\n    \\fixed c' {\n      \\key c \\major\n      \\time 4/4\n      ");
    let ghost at_body = output@;
    let mut k: usize = 0;
    while k < document.elements.len()
        invariant
            k <= document.elements@.len(),
            output@ == at_body + document_body(document.elements@, k as int),
        decreases document.elements@.len() - k,
    {
        let ghost before = output@;
        match &document.elements[k] {
            AnalyzedElement::Stave(st) => {
                let mut j: usize = 0;
                while j < st.lines.len()
                    invariant
                        j <= st.lines@.len(),
                        output@ == before + stave_lines_text(st.lines@, j as int),
                    decreases st.lines@.len() - j,
                {
                    let ghost at = output@;
                    match &st.lines[j] {
                        AnalyzedStaveLine::ContentLine(c) => { add_content_text(&mut output, c); },
                        _ => {},
                    }
                    proof {
                        assert(output@ =~= before + stave_lines_text(st.lines@, j + 1));
                    }
                    j = j + 1;
                }
            },
            _ => {},
        }
        proof {
            assert(output@ =~= at_body + document_body(document.elements@, k + 1));
        }
        k = k + 1;
    }
    output.append("\n    }\n  }\n}");
    output
}

} // verus!
