//! Helpers for writing LilyPond notes: finding the last note, splitting off
//! pitches and durations, beaming, pitch names and durations.
use vstd::prelude::*;
use crate::pitch::Degree;
use crate::rhythm::converters::{vexflow_lookup, vexflow_lookup_wide, duration_views};
use crate::text::{starts_with, str_starts_with, trim_spec, trim_str, is_ascii_digit, push_char};
use crate::text::{str_eq, nat_digits, u64_to_string};
use crate::rhythm_analyzer::{Beat, BeatElement, ContentElement, ContentLine};
use crate::lilypond_duration::{join_spaces, join_with_spaces, string_views};
use crate::lilypond_templates::{LilyPondTemplate, TemplateContext, source_comment_spec};

verus! {

/// Whether an entry of a LilyPond note list is a note (or tuplet): not a bar
/// line command, breath mark or `|` check.
pub open spec fn is_note_entry(n: Seq<char>) -> bool {
    !starts_with(n, "\\bar"@) && !starts_with(n, "\\breathe"@) && !starts_with(trim_spec(n), "|"@)
}

/// Index of the last note entry.
pub open spec fn last_note_index(ns: Seq<Seq<char>>) -> Option<int>
    decreases ns.len(),
{
    if ns.len() == 0 {
        None
    } else if is_note_entry(ns.last()) {
        Some(ns.len() - 1)
    } else {
        last_note_index(ns.drop_last())
    }
}

/// The texts of a list of strings.
pub open spec fn texts_of(v: Seq<String>) -> Seq<Seq<char>> {
    v.map_values(|s: String| s@)
}

/// Index of the last note entry (see `is_note_entry`).
pub fn find_last_note_index(lilypond_notes: &[String]) -> (r: Option<usize>)
    ensures
        match r {
            Some(i) => last_note_index(texts_of(lilypond_notes@)) == Some(i as int),
            None => last_note_index(texts_of(lilypond_notes@)) is None,
        },
{
    let ghost tv = texts_of(lilypond_notes@);
    let mut i = lilypond_notes.len();
    proof {
        assert(tv.take(i as int) =~= tv);
    }
    while i > 0
        invariant
            tv == texts_of(lilypond_notes@),
            i <= lilypond_notes@.len(),
            last_note_index(tv) == last_note_index(tv.take(i as int)),
        decreases i,
    {
        let note = lilypond_notes[i - 1].as_str();
        let trimmed = trim_str(note);
        let ghost t = tv.take(i as int);
        proof {
            assert(t.last() == note@);
            assert(t.drop_last() =~= tv.take(i - 1));
        }
        if !str_starts_with(note, "\\bar") && !str_starts_with(note, "\\breathe") && !str_starts_with(trimmed.as_str(), "|") {
            return Some(i - 1);
        }
        i = i - 1;
    }
    None
}

/// Whether a character ends the pitch of a LilyPond note: a digit, a tie or
/// a slur bracket.
pub open spec fn ends_pitch(c: char) -> bool {
    is_ascii_digit(c) || c == '~' || c == '(' || c == ')'
}

/// The characters of a note before its first digit, tie or slur bracket.
pub open spec fn pitch_prefix(s: Seq<char>) -> Seq<char>
    decreases s.len(),
{
    if s.len() == 0 || ends_pitch(s[0]) { Seq::empty() } else { seq![s[0]] + pitch_prefix(s.skip(1)) }
}

/// The pitch of a LilyPond note (see `pitch_prefix`): `c'8~` gives `c'`.
pub fn extract_pitch_from_lilypond_note(note: &str) -> (r: String)
    ensures
        r@ == pitch_prefix(note@),
{
    let n = note.unicode_len();
    let mut pitch = String::new();
    let mut i: usize = 0;
    proof {
        assert(note@.skip(0) =~= note@);
    }
    while i < n
        invariant
            n == note@.len(),
            i <= n,
            pitch@ + pitch_prefix(note@.skip(i as int)) == pitch_prefix(note@),
        decreases n - i,
    {
        let ch = note.get_char(i);
        proof {
            assert(note@.skip(i as int)[0] == ch);
            assert(note@.skip(i as int).skip(1) =~= note@.skip(i + 1));
        }
        if ('0' <= ch && ch <= '9') || ch == '~' || ch == '(' || ch == ')' {
            proof {
                assert(pitch@ + Seq::<char>::empty() =~= pitch@);
            }
            return pitch;
        }
        let ghost before = pitch@;
        push_char(&mut pitch, ch);
        proof {
            assert(before + (seq![ch] + pitch_prefix(note@.skip(i + 1))) =~= pitch@ + pitch_prefix(note@.skip(i + 1)));
        }
        i = i + 1;
    }
    proof {
        assert(note@.skip(i as int) =~= Seq::<char>::empty());
        assert(pitch@ + Seq::<char>::empty() =~= pitch@);
    }
    pitch
}

/// The characters before the first digit.
pub open spec fn before_digits(s: Seq<char>) -> Seq<char>
    decreases s.len(),
{
    if s.len() == 0 || is_ascii_digit(s[0]) { Seq::empty() } else { seq![s[0]] + before_digits(s.skip(1)) }
}

/// A text without its leading digits.
pub open spec fn skip_digits(s: Seq<char>) -> Seq<char>
    decreases s.len(),
{
    if s.len() > 0 && is_ascii_digit(s[0]) { skip_digits(s.skip(1)) } else { s }
}

/// The characters after the first run of digits (none without digits).
pub open spec fn after_duration(s: Seq<char>) -> Seq<char> {
    skip_digits(s.skip(before_digits(s).len() as int))
}

/// The written duration of the notes of a tuplet whose space is `den`
/// subdivisions.
pub open spec fn tuplet_target(den: usize) -> Seq<char> {
    if den == 1 { "4"@ } else if den == 2 { "8"@ } else if den == 4 { "16"@ } else if den == 8 { "32"@ }
    else if den == 16 { "64"@ } else if den == 32 { "128"@ } else if den == 64 { "256"@ } else { "16"@ }
}

/// A note with its first run of duration digits replaced by the tuplet's
/// written duration (the duration added after the pitch when it has none).
pub open spec fn retimed_note(s: Seq<char>, den: usize) -> Seq<char> {
    before_digits(s) + tuplet_target(den) + after_duration(s)
}

proof fn lemma_before_digits_len(s: Seq<char>)
    ensures
        before_digits(s).len() <= s.len(),
    decreases s.len(),
{
    if s.len() > 0 && !is_ascii_digit(s[0]) {
        lemma_before_digits_len(s.skip(1));
    }
}

fn retime_note(note: &str, den: usize) -> (r: String)
    ensures
        r@ == retimed_note(note@, den),
{
    let n = note.unicode_len();
    let mut pitch = String::new();
    let mut i: usize = 0;
    proof {
        assert(note@.skip(0) =~= note@);
    }
    while i < n && !('0' <= note.get_char(i) && note.get_char(i) <= '9')
        invariant
            n == note@.len(),
            i <= n,
            pitch@ == note@.take(i as int),
            before_digits(note@) == pitch@ + before_digits(note@.skip(i as int)),
        decreases n - i,
    {
        let ch = note.get_char(i);
        proof {
            assert(note@.skip(i as int)[0] == ch);
            assert(note@.skip(i as int).skip(1) =~= note@.skip(i + 1));
            assert(pitch@ + (seq![ch] + before_digits(note@.skip(i + 1))) =~= pitch@.push(ch) + before_digits(note@.skip(i + 1)));
        }
        push_char(&mut pitch, ch);
        proof {
            assert(pitch@ =~= note@.take(i + 1));
        }
        i = i + 1;
    }
    proof {
        if i < n {
            assert(note@.skip(i as int)[0] == note@[i as int]);
        }
        assert(before_digits(note@.skip(i as int)) =~= Seq::<char>::empty());
        assert(pitch@ + Seq::<char>::empty() =~= pitch@);
        assert(before_digits(note@).len() == i);
    }
    let mut j = i;
    proof {
        assert(note@.skip(i as int).skip(0) =~= note@.skip(i as int));
    }
    while j < n && '0' <= note.get_char(j) && note.get_char(j) <= '9'
        invariant
            n == note@.len(),
            i <= j <= n,
            skip_digits(note@.skip(i as int)) == skip_digits(note@.skip(j as int)),
        decreases n - j,
    {
        proof {
            assert(note@.skip(j as int)[0] == note@[j as int]);
            assert(note@.skip(j as int).skip(1) =~= note@.skip(j + 1));
        }
        j = j + 1;
    }
    proof {
        if j < n {
            assert(note@.skip(j as int)[0] == note@[j as int]);
        }
    }
    let mut r = pitch;
    let target = if den == 1 { "4" } else if den == 2 { "8" } else if den == 4 { "16" } else if den == 8 { "32" }
        else if den == 16 { "64" } else if den == 32 { "128" } else if den == 64 { "256" } else { "16" };
    r.append(target);
    let mut k = j;
    let ghost mid = r@;
    while k < n
        invariant
            n == note@.len(),
            j <= k <= n,
            r@ == mid + note@.subrange(j as int, k as int),
        decreases n - k,
    {
        push_char(&mut r, note.get_char(k));
        proof {
            assert(r@ =~= mid + note@.subrange(j as int, k + 1));
        }
        k = k + 1;
    }
    proof {
        assert(note@.subrange(j as int, n as int) =~= note@.skip(j as int));
        assert(r@ =~= retimed_note(note@, den));
    }
    r
}

/// Each note retimed to the tuplet's written duration (see `retimed_note`);
/// `tuplet_num` does not matter.
pub fn adjust_tuplet_note_durations(notes: &[String], tuplet_num: usize, tuplet_den: usize) -> (r: Vec<String>)
    ensures
        texts_of(r@) == texts_of(notes@).map_values(|s: Seq<char>| retimed_note(s, tuplet_den)),
{
    let mut r: Vec<String> = Vec::new();
    let mut i: usize = 0;
    while i < notes.len()
        invariant
            i <= notes@.len(),
            texts_of(r@) == texts_of(notes@.take(i as int)).map_values(|s: Seq<char>| retimed_note(s, tuplet_den)),
        decreases notes@.len() - i,
    {
        let ghost before = r@;
        let x = retime_note(notes[i].as_str(), tuplet_den);
        let ghost xv = x@;
        r.push(x);
        proof {
            assert(texts_of(r@) =~= texts_of(before).push(xv));
            assert(texts_of(notes@.take(i + 1)) =~= texts_of(notes@.take(i as int)).push(notes@[i as int]@));
            assert(texts_of(r@) =~= texts_of(notes@.take(i + 1)).map_values(|s: Seq<char>| retimed_note(s, tuplet_den)));
        }
        i = i + 1;
    }
    proof {
        assert(notes@.take(i as int) =~= notes@);
    }
    r
}

/// Beams the notes of a beat by hand: with more than one note, `[` goes after
/// the first and `]` after the last.
pub fn add_manual_beaming(notes: &mut Vec<String>) -> (r: Result<(), String>)
    ensures
        r is Ok,
        final(notes)@.len() == old(notes)@.len(),
        old(notes)@.len() > 1 ==> texts_of(final(notes)@) == texts_of(old(notes)@)
            .update(0, old(notes)@[0]@.push('['))
            .update(old(notes)@.len() - 1, old(notes)@[old(notes)@.len() - 1]@.push(']')),
        old(notes)@.len() <= 1 ==> final(notes)@ == old(notes)@,
{
    if notes.len() > 1 {
        let ghost before = notes@;
        let mut first = notes.remove(0);
        push_char(&mut first, '[');
        notes.insert(0, first);
        let last_idx = notes.len() - 1;
        let mut last = notes.remove(last_idx);
        push_char(&mut last, ']');
        notes.insert(last_idx, last);
        proof {
            assert(texts_of(notes@) =~= texts_of(before)
                .update(0, before[0]@.push('['))
                .update(before.len() - 1, before[before.len() - 1]@.push(']')));
        }
    }
    Ok(())
}

/// The LilyPond name of a scale degree read in C (`s` sharpens, `f` flattens).
pub open spec fn lily_base(d: Degree) -> Seq<char> {
    match d {
        Degree::N1bb => "cff"@,
        Degree::N1b => "cf"@,
        Degree::N1 => "c"@,
        Degree::N1s => "cs"@,
        Degree::N1ss => "css"@,
        Degree::N2bb => "dff"@,
        Degree::N2b => "df"@,
        Degree::N2 => "d"@,
        Degree::N2s => "ds"@,
        Degree::N2ss => "dss"@,
        Degree::N3bb => "eff"@,
        Degree::N3b => "ef"@,
        Degree::N3 => "e"@,
        Degree::N3s => "es"@,
        Degree::N3ss => "ess"@,
        Degree::N4bb => "fff"@,
        Degree::N4b => "ff"@,
        Degree::N4 => "f"@,
        Degree::N4s => "fs"@,
        Degree::N4ss => "fss"@,
        Degree::N5bb => "gff"@,
        Degree::N5b => "gf"@,
        Degree::N5 => "g"@,
        Degree::N5s => "gs"@,
        Degree::N5ss => "gss"@,
        Degree::N6bb => "aff"@,
        Degree::N6b => "af"@,
        Degree::N6 => "a"@,
        Degree::N6s => "as"@,
        Degree::N6ss => "ass"@,
        Degree::N7bb => "bff"@,
        Degree::N7b => "bf"@,
        Degree::N7 => "b"@,
        Degree::N7s => "bs"@,
        Degree::N7ss => "bss"@,
    }
}

/// LilyPond octave marks of an octave from -2 to 2; other octaves get none.
pub open spec fn octave_marks(octave: i8) -> Seq<char> {
    if octave == -2 { ",,"@ } else if octave == -1 { ","@ } else if octave == 1 { "'"@ } else if octave == 2 { "''"@ } else { ""@ }
}

/// The LilyPond name of a scale degree read in C (see `lily_base`).
pub fn degree_to_lilypond_simple(degree: Degree) -> (r: &'static str)
    ensures
        r@ == lily_base(degree),
{
    match degree {
        Degree::N1bb => "cff",
        Degree::N1b => "cf",
        Degree::N1 => "c",
        Degree::N1s => "cs",
        Degree::N1ss => "css",
        Degree::N2bb => "dff",
        Degree::N2b => "df",
        Degree::N2 => "d",
        Degree::N2s => "ds",
        Degree::N2ss => "dss",
        Degree::N3bb => "eff",
        Degree::N3b => "ef",
        Degree::N3 => "e",
        Degree::N3s => "es",
        Degree::N3ss => "ess",
        Degree::N4bb => "fff",
        Degree::N4b => "ff",
        Degree::N4 => "f",
        Degree::N4s => "fs",
        Degree::N4ss => "fss",
        Degree::N5bb => "gff",
        Degree::N5b => "gf",
        Degree::N5 => "g",
        Degree::N5s => "gs",
        Degree::N5ss => "gss",
        Degree::N6bb => "aff",
        Degree::N6b => "af",
        Degree::N6 => "a",
        Degree::N6s => "as",
        Degree::N6ss => "ass",
        Degree::N7bb => "bff",
        Degree::N7b => "bf",
        Degree::N7 => "b",
        Degree::N7s => "bs",
        Degree::N7ss => "bss",
    }
}

/// The LilyPond pitch of a scale degree with its octave marks (see
/// `octave_marks`); the tonic does not change it.
pub fn degree_to_lilypond(degree: Degree, octave: i8, current_tonic: Option<Degree>) -> (r: Result<String, String>)
    ensures
        r matches Ok(s) && s@ == lily_base(degree) + octave_marks(octave),
{
    let base = degree_to_lilypond_simple(degree);
    let marks = if octave == -2 { ",," } else if octave == -1 { "," } else if octave == 1 { "'" } else if octave == 2 { "''" } else { "" };
    let mut s = base.to_owned();
    s.append(marks);
    Ok(s)
}

/// The LilyPond duration of a VexFlow duration name.
pub open spec fn lily_of_vexflow(name: Seq<char>) -> Seq<char> {
    if name == "w"@ { "1"@ } else if name == "h"@ { "2"@ } else if name == "q"@ { "4"@ } else if name == "8"@ { "8"@ }
    else if name == "16"@ { "16"@ } else if name == "32"@ { "32"@ } else if name == "64"@ { "64"@ } else { "4"@ }
}

/// The LilyPond duration of `n/d` by way of its VexFlow duration: the
/// name's LilyPond duration with one `.` per dot.
pub open spec fn lily_note_duration(n: int, d: int) -> Seq<char> {
    let v = vexflow_lookup(n, d);
    if v.len() > 0 { lily_of_vexflow(v[0].0) + Seq::new(v[0].1 as nat, |i: int| '.') } else { "4"@ }
}

/// The LilyPond duration of `numerator/denominator` (see `lily_note_duration`).
pub fn fraction_to_lilypond_note(numerator: u64, denominator: u64) -> (r: String)
    ensures
        r@ == lily_note_duration(numerator as int, denominator as int),
{
    lily_duration_wide(numerator, denominator as u128)
}

/// The LilyPond duration of `numerator/denominator` for a denominator up to
/// four times the largest `u64`.
fn lily_duration_wide(numerator: u64, denominator: u128) -> (r: String)
    requires
        denominator <= 4 * 18446744073709551615u128,
    ensures
        r@ == lily_note_duration(numerator as int, denominator as int),
{
    let durations = vexflow_lookup_wide(numerator, denominator);
    if durations.len() == 0 {
        return "4".to_owned();
    }
    let name = durations[0].0.as_str();
    let dots = durations[0].1;
    proof {
        assert(duration_views(durations@)[0] == (durations@[0].0@, durations@[0].1));
    }
    let lily = if str_eq(name, "w") { "1" } else if str_eq(name, "h") { "2" } else if str_eq(name, "q") { "4" }
        else if str_eq(name, "8") { "8" } else if str_eq(name, "16") { "16" } else if str_eq(name, "32") { "32" }
        else if str_eq(name, "64") { "64" } else { "4" };
    let mut r = lily.to_owned();
    let ghost base = r@;
    let mut k: u8 = 0;
    while k < dots
        invariant
            k <= dots,
            r@ == base + Seq::new(k as nat, |i: int| '.'),
        decreases dots - k,
    {
        push_char(&mut r, '.');
        proof {
            assert(r@ =~= base + Seq::new((k + 1) as nat, |i: int| '.'));
        }
        k = k + 1;
    }
    r
}

} // verus!

verus! {

// ---------------------------------------------------------------------------
// An analysed document written as LilyPond.

/// A line of an analysed stave: a content line with its beats, or an
/// annotation line (upper, lower, lyrics, text) kept as its text.
pub enum AnalyzedStaveLine {
    ContentLine(ContentLine),
    Annotation(String),
}

/// A stave of an analysed document.
pub struct AnalyzedStave {
    pub lines: Vec<AnalyzedStaveLine>,
}

/// A top-level element of an analysed document.
pub enum AnalyzedElement {
    BlankLines(String),
    Stave(AnalyzedStave),
}

/// A document after rhythm analysis: its title, author, directives (key and
/// value) and elements.
pub struct AnalyzedDocument {
    pub title: Option<String>,
    pub author: Option<String>,
    pub directives: Vec<(String, String)>,
    pub elements: Vec<AnalyzedElement>,
}

/// The LilyPond duration of an optional fraction; a quarter when absent.
pub open spec fn duration_text(n: Option<u32>, d: Option<u32>) -> Seq<char> {
    match (n, d) {
        (Some(a), Some(b)) => lily_note_duration(a as int, b as int),
        _ => "4"@,
    }
}

/// The LilyPond entries of one beat element: a note with its pitch, octave
/// marks and duration; a dash that carries a duration as a rest; a breath
/// mark; a rest.  A dash without a duration extends the note before it and
/// writes nothing.
pub open spec fn entry_lily(e: BeatElement) -> Seq<Seq<char>> {
    match e {
        BeatElement::Note(n) => seq![lily_base(n.pitch_code) + octave_marks(n.octave) + duration_text(n.numerator, n.denominator)],
        BeatElement::Dash(d) => match (d.numerator, d.denominator) {
            (Some(a), Some(b)) => seq!["r"@ + lily_note_duration(a as int, b as int)],
            _ => Seq::empty(),
        },
        BeatElement::BreathMark(_) => seq!["\\breathe"@],
        BeatElement::Rest(r) => seq!["r"@ + duration_text(r.numerator, r.denominator)],
    }
}

/// The entries of the first `k` elements of a beat.
pub open spec fn entries_lily(es: Seq<BeatElement>, k: int) -> Seq<Seq<char>>
    decreases k,
{
    if k <= 0 { Seq::empty() } else { entries_lily(es, k - 1) + entry_lily(es[k - 1]) }
}

/// The LilyPond entries of a beat: its elements' entries, wrapped in one
/// `\tuplet n/d { .. }` when the beat is a tuplet with a ratio.
pub open spec fn beat_lily(b: Beat) -> Seq<Seq<char>> {
    let notes = entries_lily(b.elements@, b.elements@.len() as int);
    match (b.is_tuplet, b.tuplet_ratio) {
        (Some(true), Some((n, d))) => seq!["\\tuplet "@ + nat_digits(n as nat) + "/"@ + nat_digits(d as nat) + " { "@
            + join_spaces(notes) + " }"@],
        _ => notes,
    }
}

/// The dashes that open a beat: dashes before its first note, other
/// elements skipped.
pub open spec fn leading_dashes(es: Seq<BeatElement>) -> nat
    decreases es.len(),
{
    if es.len() == 0 {
        0
    } else {
        match es[0] {
            BeatElement::Dash(_) => 1 + leading_dashes(es.skip(1)),
            BeatElement::Note(_) => 0,
            _ => leading_dashes(es.skip(1)),
        }
    }
}

/// A note with a tie added: before a closing slur bracket, or at the end
/// unless it already ends with a tie.
pub open spec fn tie_marked(s: Seq<char>) -> Seq<char> {
    if s.len() > 0 && s.last() == ')' {
        s.drop_last().push('~').push(')')
    } else if s.len() > 0 && s.last() == '~' {
        s
    } else {
        s.push('~')
    }
}

/// The entries after a beat: a beat tied to the previous one ties the last
/// note, and its leading dashes (as a fraction of the beat's divisions of a
/// quarter) continue that note's pitch, or become a rest when there is no
/// note before it; then the beat's own entries follow.
pub open spec fn walk_beat(notes: Seq<Seq<char>>, b: Beat) -> Seq<Seq<char>> {
    let own = beat_lily(b);
    let lead = leading_dashes(b.elements@);
    if b.tied_to_previous == Some(true) {
        match last_note_index(notes) {
            Some(i) => {
                let marked = notes.update(i, tie_marked(notes[i]));
                let cont = if lead > 0 && b.divisions is Some {
                    seq![pitch_prefix(marked[i]) + lily_note_duration(lead as int, 4 * b.divisions->0)]
                } else {
                    Seq::empty()
                };
                marked + cont + own
            },
            None => {
                let rest = if lead > 0 && b.divisions is Some {
                    seq!["r"@ + lily_note_duration(lead as int, 4 * b.divisions->0)]
                } else {
                    Seq::empty()
                };
                notes + rest + own
            },
        }
    } else {
        notes + own
    }
}

/// The entries after one content element: a beat (see `walk_beat`), a bar
/// line as `| `; whitespace and unknown tokens add nothing.
pub open spec fn walk_content(notes: Seq<Seq<char>>, e: ContentElement) -> Seq<Seq<char>> {
    match e {
        ContentElement::Beat(b) => walk_beat(notes, b),
        ContentElement::Barline(_) => notes.push("| "@),
        _ => notes,
    }
}

/// The entries after the first `k` content elements.
pub open spec fn walk_contents(notes: Seq<Seq<char>>, es: Seq<ContentElement>, k: int) -> Seq<Seq<char>>
    decreases k,
{
    if k <= 0 { notes } else { walk_content(walk_contents(notes, es, k - 1), es[k - 1]) }
}

/// The entries after the first `k` lines of a stave (content lines only).
pub open spec fn walk_lines(notes: Seq<Seq<char>>, ls: Seq<AnalyzedStaveLine>, k: int) -> Seq<Seq<char>>
    decreases k,
{
    if k <= 0 {
        notes
    } else {
        let prev = walk_lines(notes, ls, k - 1);
        match ls[k - 1] {
            AnalyzedStaveLine::ContentLine(c) => walk_contents(prev, c.elements@, c.elements@.len() as int),
            _ => prev,
        }
    }
}

/// The entries after the first `k` elements of a document (staves only).
pub open spec fn walk_elements(notes: Seq<Seq<char>>, es: Seq<AnalyzedElement>, k: int) -> Seq<Seq<char>>
    decreases k,
{
    if k <= 0 {
        notes
    } else {
        let prev = walk_elements(notes, es, k - 1);
        match es[k - 1] {
            AnalyzedElement::Stave(s) => walk_lines(prev, s.lines@, s.lines@.len() as int),
            _ => prev,
        }
    }
}

/// The LilyPond music of a document: the entries of all its content lines,
/// in order, joined by spaces.
pub open spec fn lilypond_staves(document: AnalyzedDocument) -> Seq<char> {
    join_spaces(walk_elements(Seq::empty(), document.elements@, document.elements@.len() as int))
}

fn duration_of_opt(n: Option<u32>, d: Option<u32>) -> (r: String)
    ensures
        r@ == duration_text(n, d),
{
    match (n, d) {
        (Some(a), Some(b)) => fraction_to_lilypond_note(a as u64, b as u64),
        _ => "4".to_owned(),
    }
}

fn entry_to_lilypond(e: &BeatElement, current_tonic: Option<Degree>) -> (r: Vec<String>)
    ensures
        texts_of(r@) == entry_lily(*e),
{
    let mut out: Vec<String> = Vec::new();
    match e {
        BeatElement::Note(note) => {
            let pitch = match degree_to_lilypond(note.pitch_code, note.octave, current_tonic) {
                Ok(p) => p,
                Err(_) => String::new(),
            };
            let mut s = pitch;
            s.append(duration_of_opt(note.numerator, note.denominator).as_str());
            out.push(s);
        },
        BeatElement::Dash(dash) => {
            match (dash.numerator, dash.denominator) {
                (Some(a), Some(b)) => {
                    let mut s = "r".to_owned();
                    s.append(fraction_to_lilypond_note(a as u64, b as u64).as_str());
                    out.push(s);
                },
                _ => {},
            }
        },
        BeatElement::BreathMark(_) => {
            out.push("\\breathe".to_owned());
        },
        BeatElement::Rest(rest) => {
            let mut s = "r".to_owned();
            s.append(duration_of_opt(rest.numerator, rest.denominator).as_str());
            out.push(s);
        },
    }
    proof {
        assert(texts_of(out@) =~= entry_lily(*e));
    }
    out
}

/// The LilyPond entries of a beat (see `beat_lily`); the tonic does not
/// change them.
pub fn convert_beat_to_lilypond(beat: &Beat, current_tonic: Option<Degree>) -> (r: Result<Vec<String>, String>)
    ensures
        r matches Ok(v) && texts_of(v@) == beat_lily(*beat),
{
    let mut notes: Vec<String> = Vec::new();
    let mut i: usize = 0;
    while i < beat.elements.len()
        invariant
            i <= beat.elements@.len(),
            texts_of(notes@) == entries_lily(beat.elements@, i as int),
        decreases beat.elements@.len() - i,
    {
        let mut more = entry_to_lilypond(&beat.elements[i], current_tonic);
        let ghost a = texts_of(notes@);
        let ghost b = texts_of(more@);
        notes.append(&mut more);
        proof {
            assert(texts_of(notes@) =~= a + b);
        }
        i = i + 1;
    }
    match (beat.is_tuplet, beat.tuplet_ratio) {
        (Some(true), Some((n, d))) => {
            proof {
                assert(string_views(notes@) =~= texts_of(notes@));
            }
            let content = join_with_spaces(notes.as_slice());
            let mut s = "\\tuplet ".to_owned();
            s.append(u64_to_string(n as u64).as_str());
            s.append("/");
            s.append(u64_to_string(d as u64).as_str());
            s.append(" { ");
            s.append(content.as_str());
            s.append(" }");
            let mut v: Vec<String> = Vec::new();
            v.push(s);
            proof {
                assert(texts_of(v@) =~= beat_lily(*beat));
            }
            Ok(v)
        },
        _ => Ok(notes),
    }
}

fn count_leading_dashes(es: &Vec<BeatElement>) -> (n: usize)
    ensures
        n == leading_dashes(es@),
{
    let mut n: usize = 0;
    let mut i: usize = 0;
    assert(es@.skip(0) =~= es@);
    while i < es.len()
        invariant
            i <= es@.len(),
            n <= i,
            leading_dashes(es@) == n + leading_dashes(es@.skip(i as int)),
        decreases es@.len() - i,
    {
        proof {
            assert(es@.skip(i as int).skip(1) =~= es@.skip(i + 1));
        }
        match &es[i] {
            BeatElement::Dash(_) => {
                n = n + 1;
            },
            BeatElement::Note(_) => {
                return n;
            },
            _ => {},
        }
        i = i + 1;
    }
    n
}

fn tie_note(s: &String) -> (r: String)
    ensures
        r@ == tie_marked(s@),
{
    let len = s.as_str().unicode_len();
    if len > 0 && s.as_str().get_char(len - 1) == ')' {
        let mut r = s.as_str().substring_char(0, len - 1).to_owned();
        push_char(&mut r, '~');
        push_char(&mut r, ')');
        proof {
            assert(s@.subrange(0, len - 1) =~= s@.drop_last());
        }
        r
    } else if len > 0 && s.as_str().get_char(len - 1) == '~' {
        s.as_str().to_owned()
    } else {
        let mut r = s.as_str().to_owned();
        push_char(&mut r, '~');
        r
    }
}

proof fn lemma_last_note_index_bound(ns: Seq<Seq<char>>)
    ensures
        last_note_index(ns) matches Some(i) ==> 0 <= i < ns.len(),
    decreases ns.len(),
{
    if ns.len() > 0 && !is_note_entry(ns.last()) {
        lemma_last_note_index_bound(ns.drop_last());
    }
}

fn add_beat(notes: &mut Vec<String>, beat: &Beat)
    ensures
        texts_of(final(notes)@) == walk_beat(texts_of(old(notes)@), *beat),
{
    let ghost before = texts_of(notes@);
    let mut own = match convert_beat_to_lilypond(beat, None) {
        Ok(v) => v,
        Err(_) => Vec::new(),
    };
    let lead = count_leading_dashes(&beat.elements);
    if beat.tied_to_previous == Some(true) {
        proof {
            lemma_last_note_index_bound(before);
        }
        match find_last_note_index(notes.as_slice()) {
            Some(i) => {
                let marked = tie_note(&notes[i]);
                let _ = notes.remove(i);
                notes.insert(i, marked);
                proof {
                    assert(texts_of(notes@) =~= before.update(i as int, tie_marked(before[i as int])));
                }
                if lead > 0 && beat.divisions.is_some() {
                    let d = beat.divisions.unwrap();
                    let mut cont = extract_pitch_from_lilypond_note(notes[i].as_str());
                    cont.append(lily_duration_wide(lead as u64, 4 * (d as u128)).as_str());
                    let ghost t = texts_of(notes@);
                    notes.push(cont);
                    proof {
                        assert(texts_of(notes@) =~= t.push(cont@));
                    }
                }
            },
            None => {
                if lead > 0 && beat.divisions.is_some() {
                    let d = beat.divisions.unwrap();
                    let mut r = "r".to_owned();
                    r.append(lily_duration_wide(lead as u64, 4 * (d as u128)).as_str());
                    let ghost t = texts_of(notes@);
                    notes.push(r);
                    proof {
                        assert(texts_of(notes@) =~= t.push(r@));
                    }
                }
            },
        }
    }
    let ghost t = texts_of(notes@);
    let ghost o = texts_of(own@);
    notes.append(&mut own);
    proof {
        assert(texts_of(notes@) =~= t + o);
        assert(texts_of(notes@) =~= walk_beat(before, *beat));
    }
}

fn add_content_line(notes: &mut Vec<String>, line: &ContentLine)
    ensures
        texts_of(final(notes)@) == walk_contents(texts_of(old(notes)@), line.elements@, line.elements@.len() as int),
{
    let ghost start = texts_of(notes@);
    let mut k: usize = 0;
    while k < line.elements.len()
        invariant
            k <= line.elements@.len(),
            texts_of(notes@) == walk_contents(start, line.elements@, k as int),
        decreases line.elements@.len() - k,
    {
        match &line.elements[k] {
            ContentElement::Beat(b) => {
                add_beat(notes, b);
            },
            ContentElement::Barline(_) => {
                let ghost t = texts_of(notes@);
                notes.push("| ".to_owned());
                proof {
                    assert(texts_of(notes@) =~= t.push("| "@));
                }
            },
            _ => {},
        }
        k = k + 1;
    }
}

/// The LilyPond music of a document (see `lilypond_staves`).
pub fn document_to_lilypond_staves(document: &AnalyzedDocument) -> (r: String)
    ensures
        r@ == lilypond_staves(*document),
{
    let mut notes: Vec<String> = Vec::new();
    let mut k: usize = 0;
    while k < document.elements.len()
        invariant
            k <= document.elements@.len(),
            texts_of(notes@) == walk_elements(Seq::empty(), document.elements@, k as int),
        decreases document.elements@.len() - k,
    {
        match &document.elements[k] {
            AnalyzedElement::Stave(stave) => {
                let ghost at_stave = texts_of(notes@);
                let mut j: usize = 0;
                while j < stave.lines.len()
                    invariant
                        j <= stave.lines@.len(),
                        texts_of(notes@) == walk_lines(at_stave, stave.lines@, j as int),
                    decreases stave.lines@.len() - j,
                {
                    match &stave.lines[j] {
                        AnalyzedStaveLine::ContentLine(c) => {
                            add_content_line(&mut notes, c);
                        },
                        _ => {},
                    }
                    j = j + 1;
                }
            },
            _ => {},
        }
        k = k + 1;
    }
    proof {
        assert(string_views(notes@) =~= texts_of(notes@));
    }
    join_with_spaces(notes.as_slice())
}

/// Whether the template and context are those of a document: the standard
/// template for a titled document, the minimal one otherwise; the context
/// holds the music, the title and, when a source is given, the source as a
/// comment.  No lyrics are set: every note gives the placeholder syllable
/// `_`, and lyrics are set only when some syllable is not a placeholder.
pub open spec fn lilypond_export(document: AnalyzedDocument, source: Option<Seq<char>>, t: LilyPondTemplate, c: TemplateContext) -> bool {
    &&& t == (if document.title is Some { LilyPondTemplate::Standard } else { LilyPondTemplate::Minimal })
    &&& c.version@ == "2.24.0"@
    &&& c.staves@ == lilypond_staves(document)
    &&& (match document.title { Some(title) => c.title matches Some(ct) && ct@ == title@, None => c.title is None })
    &&& (match source { Some(s) => c.source_comment matches Some(sc) && sc@ == source_comment_spec(s), None => c.source_comment is None })
    &&& c.lyrics is None
    &&& c.composer is None
    &&& c.time_signature is None
    &&& c.key_signature is None
}

/// The template and the filled context for writing a document as LilyPond
/// (see `lilypond_export`); rendering the template is left to the caller.
pub fn convert_document_to_lilypond_src(document: &AnalyzedDocument, source: Option<&str>)
    -> (r: Result<(LilyPondTemplate, TemplateContext), String>)
    ensures
        r matches Ok((t, c)) && lilypond_export(*document, match source { Some(s) => Some(s@), None => None }, t, c),
{
    let staves = document_to_lilypond_staves(document);
    let mut builder = TemplateContext::builder().staves(staves.as_str());
    match &document.title {
        Some(title) => {
            builder = builder.title(title.as_str());
        },
        None => {},
    }
    match source {
        Some(s) => {
            builder = builder.source_comment(s);
        },
        None => {},
    }
    let context = builder.build();
    let template = if document.title.is_some() { LilyPondTemplate::Standard } else { LilyPondTemplate::Minimal };
    Ok((template, context))
}

} // verus!

verus! {

/// The letter of a scale step in C major (step 0 is `c`).
pub open spec fn c_major_letter(step: int) -> char {
    if step == 0 { 'c' } else if step == 1 { 'd' } else if step == 2 { 'e' } else if step == 3 { 'f' }
    else if step == 4 { 'g' } else if step == 5 { 'a' } else { 'b' }
}

/// LilyPond accidental marks for an alteration: one `s` per sharp, one `f`
/// per flat.
pub open spec fn alteration_marks(a: int) -> Seq<char> {
    if a >= 0 { Seq::new(a as nat, |i: int| 's') } else { Seq::new((-a) as nat, |i: int| 'f') }
}

/// The LilyPond name of every scale degree is its C-major letter followed by
/// one `s` per sharp or one `f` per flat of its alteration, so the name sounds
/// the degree's pitch.
pub proof fn lemma_lily_name_spells_degree(d: Degree)
    ensures
        lily_base(d) == seq![c_major_letter(crate::pitch::degree_step(d))] + alteration_marks(crate::pitch::degree_alteration(d)),
{
    match d {
        Degree::N1bb => { reveal_strlit("cff"); },
        Degree::N1b => { reveal_strlit("cf"); },
        Degree::N1 => { reveal_strlit("c"); },
        Degree::N1s => { reveal_strlit("cs"); },
        Degree::N1ss => { reveal_strlit("css"); },
        Degree::N2bb => { reveal_strlit("dff"); },
        Degree::N2b => { reveal_strlit("df"); },
        Degree::N2 => { reveal_strlit("d"); },
        Degree::N2s => { reveal_strlit("ds"); },
        Degree::N2ss => { reveal_strlit("dss"); },
        Degree::N3bb => { reveal_strlit("eff"); },
        Degree::N3b => { reveal_strlit("ef"); },
        Degree::N3 => { reveal_strlit("e"); },
        Degree::N3s => { reveal_strlit("es"); },
        Degree::N3ss => { reveal_strlit("ess"); },
        Degree::N4bb => { reveal_strlit("fff"); },
        Degree::N4b => { reveal_strlit("ff"); },
        Degree::N4 => { reveal_strlit("f"); },
        Degree::N4s => { reveal_strlit("fs"); },
        Degree::N4ss => { reveal_strlit("fss"); },
        Degree::N5bb => { reveal_strlit("gff"); },
        Degree::N5b => { reveal_strlit("gf"); },
        Degree::N5 => { reveal_strlit("g"); },
        Degree::N5s => { reveal_strlit("gs"); },
        Degree::N5ss => { reveal_strlit("gss"); },
        Degree::N6bb => { reveal_strlit("aff"); },
        Degree::N6b => { reveal_strlit("af"); },
        Degree::N6 => { reveal_strlit("a"); },
        Degree::N6s => { reveal_strlit("as"); },
        Degree::N6ss => { reveal_strlit("ass"); },
        Degree::N7bb => { reveal_strlit("bff"); },
        Degree::N7b => { reveal_strlit("bf"); },
        Degree::N7 => { reveal_strlit("b"); },
        Degree::N7s => { reveal_strlit("bs"); },
        Degree::N7ss => { reveal_strlit("bss"); },
    }
    assert(lily_base(d) =~= seq![c_major_letter(crate::pitch::degree_step(d))] + alteration_marks(crate::pitch::degree_alteration(d)));
}

} // verus!
