//! Beaming of LilyPond notes written from rhythm: runs of short notes get
//! beam brackets.
use vstd::prelude::*;
use crate::text::{has_sub, str_contains, str_eq, is_ascii_digit, push_char};
use crate::models::copy_string;

verus! {

/// The note naming LilyPond output uses.
#[derive(Clone, Copy, Debug, PartialEq, Eq, Structural)]
pub enum LilyPondNoteNames {
    Dutch,
    English,
}

/// Whether a text is all dashes.
pub open spec fn all_dashes(s: Seq<char>) -> bool {
    forall|i: int| 0 <= i < s.len() ==> s[i] == '-'
}

/// Whether a text is all dashes (an empty text is).
pub fn is_dash(value: &str) -> (r: bool)
    ensures
        r == all_dashes(value@),
{
    let n = value.unicode_len();
    let mut i: usize = 0;
    while i < n
        invariant
            n == value@.len(),
            i <= n,
            forall|j: int| 0 <= j < i ==> value@[j] == '-',
        decreases n - i,
    {
        if value.get_char(i) != '-' {
            return false;
        }
        i = i + 1;
    }
    true
}

/// Durations beamed outside tuplets: eighths and shorter.
pub open spec fn beamable(d: Seq<char>) -> bool {
    d == "8"@ || d == "16"@ || d == "32"@ || d == "64"@
}

/// Durations beamed in tuplets: quarters and shorter.
pub open spec fn beamable_in_tuplet(d: Seq<char>) -> bool {
    d == "4"@ || beamable(d)
}

/// Whether a duration is beamed outside tuplets.
pub fn is_beamable_duration(duration: &str) -> (r: bool)
    ensures
        r == beamable(duration@),
{
    str_eq(duration, "8") || str_eq(duration, "16") || str_eq(duration, "32") || str_eq(duration, "64")
}

/// Whether a duration is beamed in tuplets.
pub fn is_beamable_duration_tuplet(duration: &str) -> (r: bool)
    ensures
        r == beamable_in_tuplet(duration@),
{
    str_eq(duration, "4") || is_beamable_duration(duration)
}

/// Index of the last digit among the first `k` characters.
pub open spec fn last_digit_before(s: Seq<char>, k: int) -> Option<int>
    decreases k,
{
    if k <= 0 { None } else if is_ascii_digit(s[k - 1]) { Some(k - 1) } else { last_digit_before(s, k - 1) }
}

/// Start of the duration ending at digit `p`: just after the last character
/// before `p` that is neither a digit nor a dot.
pub open spec fn duration_start(s: Seq<char>, p: int) -> int
    decreases p,
{
    if p <= 0 { 0 } else if !is_ascii_digit(s[p - 1]) && s[p - 1] != '.' { p } else { duration_start(s, p - 1) }
}

/// The duration written in a note: the digits and dots ending at its last
/// digit; none without digits.
pub open spec fn note_duration(s: Seq<char>) -> Seq<char> {
    match last_digit_before(s, s.len() as int) {
        Some(p) => s.subrange(duration_start(s, p), p + 1),
        None => Seq::empty(),
    }
}

/// Whether a note can join a beam: its duration is short enough, and it is
/// neither tied nor a rest.
pub open spec fn can_beam(s: Seq<char>, tuplet: bool) -> bool {
    &&& (if tuplet { beamable_in_tuplet(note_duration(s)) } else { beamable(note_duration(s)) })
    &&& !has_sub(s, seq!['~'])
    &&& !(s.len() > 0 && s[0] == 'r')
}

/// A beam group written out: with two or more notes, `[` after the first and
/// `]` after the last.
pub open spec fn flushed(g: Seq<Seq<char>>) -> Seq<Seq<char>> {
    if g.len() > 1 {
        Seq::new(g.len(), |i: int| if i == 0 { g[0].push('[') } else if i == g.len() - 1 { g[i].push(']') } else { g[i] })
    } else {
        g
    }
}

/// Scanning notes into beam groups: the notes written so far and the open group.
pub open spec fn beam_scan(notes: Seq<Seq<char>>, tuplet: bool) -> (Seq<Seq<char>>, Seq<Seq<char>>)
    decreases notes.len(),
{
    if notes.len() == 0 {
        (Seq::empty(), Seq::empty())
    } else {
        let prev = beam_scan(notes.drop_last(), tuplet);
        let n = notes.last();
        if can_beam(n, tuplet) { (prev.0, prev.1.push(n)) } else { (prev.0 + flushed(prev.1) + seq![n], Seq::empty()) }
    }
}

/// Notes with each run of beamable notes bracketed (see `flushed`); fewer
/// than two notes are left as they are.
pub open spec fn beamed(notes: Seq<Seq<char>>, tuplet: bool) -> Seq<Seq<char>> {
    if notes.len() < 2 {
        notes
    } else {
        let s = beam_scan(notes, tuplet);
        s.0 + flushed(s.1)
    }
}

/// The texts of a list of strings.
pub open spec fn note_texts(v: Seq<String>) -> Seq<Seq<char>> {
    v.map_values(|s: String| s@)
}

fn push_text(v: &mut Vec<String>, s: String)
    ensures
        note_texts(final(v)@) == note_texts(old(v)@).push(s@),
{
    let ghost before = v@;
    let ghost sv = s@;
    v.push(s);
    assert(note_texts(v@) =~= note_texts(before).push(sv));
}

/// Writes a beam group to `result` (see `flushed`) and empties it.
pub fn flush_beam_group(beam_group: &mut Vec<String>, result: &mut Vec<String>)
    ensures
        final(beam_group)@.len() == 0,
        note_texts(final(result)@) == note_texts(old(result)@) + flushed(note_texts(old(beam_group)@)),
{
    let ghost g = note_texts(beam_group@);
    let ghost start = note_texts(result@);
    let n = beam_group.len();
    if n > 1 {
        let mut i: usize = 0;
        while i < n
            invariant
                n == beam_group@.len(),
                g == note_texts(beam_group@),
                n > 1,
                i <= n,
                note_texts(result@) == start + flushed(g).take(i as int),
            decreases n - i,
        {
            let mut s = copy_string(&beam_group[i]);
            if i == 0 {
                push_char(&mut s, '[');
            } else if i == n - 1 {
                push_char(&mut s, ']');
            }
            push_text(result, s);
            proof {
                assert(flushed(g).take(i + 1) =~= flushed(g).take(i as int).push(flushed(g)[i as int]));
                assert(note_texts(result@) =~= start + flushed(g).take(i + 1));
            }
            i = i + 1;
        }
        proof {
            assert(flushed(g).take(n as int) =~= flushed(g));
        }
    } else if n == 1 {
        push_text(result, copy_string(&beam_group[0]));
        proof {
            assert(note_texts(result@) =~= start + flushed(g));
        }
    } else {
        proof {
            assert(note_texts(result@) =~= start + flushed(g));
        }
    }
    beam_group.clear();
}

/// The duration written in a note (see `note_duration`).
fn duration_of(note: &str) -> (r: String)
    ensures
        r@ == note_duration(note@),
{
    let n = note.unicode_len();
    let mut k = n;
    while k > 0 && !('0' <= note.get_char(k - 1) && note.get_char(k - 1) <= '9')
        invariant
            n == note@.len(),
            k <= n,
            last_digit_before(note@, n as int) == last_digit_before(note@, k as int),
        decreases k,
    {
        k = k - 1;
    }
    if k == 0 {
        return String::new();
    }
    let p = k - 1;
    let mut st = p;
    while st > 0 && (('0' <= note.get_char(st - 1) && note.get_char(st - 1) <= '9') || note.get_char(st - 1) == '.')
        invariant
            n == note@.len(),
            st <= p < n,
            duration_start(note@, p as int) == duration_start(note@, st as int),
        decreases st,
    {
        st = st - 1;
    }
    let mut r = String::new();
    let mut j = st;
    while j <= p
        invariant
            n == note@.len(),
            st <= j <= p + 1,
            p < n,
            r@ == note@.subrange(st as int, j as int),
        decreases p + 1 - j,
    {
        push_char(&mut r, note.get_char(j));
        proof {
            assert(r@ =~= note@.subrange(st as int, j + 1));
        }
        j = j + 1;
    }
    r
}

fn can_beam_exec(note: &str, is_tuplet_context: bool) -> (r: bool)
    ensures
        r == can_beam(note@, is_tuplet_context),
{
    proof {
        reveal_strlit("~");
        assert("~"@ =~= seq!['~']);
    }
    let duration = duration_of(note);
    let short = if is_tuplet_context { is_beamable_duration_tuplet(duration.as_str()) } else { is_beamable_duration(duration.as_str()) };
    let rest = note.unicode_len() > 0 && note.get_char(0) == 'r';
    short && !str_contains(note, "~") && !rest
}

/// Beams runs of short notes (see `beamed`); in a tuplet, quarters are short too.
pub fn add_beaming_to_notes_with_context(notes: Vec<String>, is_tuplet_context: bool) -> (r: Vec<String>)
    ensures
        note_texts(r@) == beamed(note_texts(notes@), is_tuplet_context),
{
    if notes.len() < 2 {
        return notes;
    }
    let ghost nv = note_texts(notes@);
    let mut result: Vec<String> = Vec::new();
    let mut beam_group: Vec<String> = Vec::new();
    let mut i: usize = 0;
    proof {
        assert(nv.take(0) =~= Seq::<Seq<char>>::empty());
        assert(note_texts(result@) =~= Seq::<Seq<char>>::empty());
        assert(note_texts(beam_group@) =~= Seq::<Seq<char>>::empty());
    }
    while i < notes.len()
        invariant
            nv == note_texts(notes@),
            i <= notes@.len(),
            (note_texts(result@), note_texts(beam_group@)) == beam_scan(nv.take(i as int), is_tuplet_context),
        decreases notes@.len() - i,
    {
        let ghost t = nv.take(i + 1);
        proof {
            assert(t.drop_last() =~= nv.take(i as int));
            assert(t.last() == notes@[i as int]@);
        }
        let note = copy_string(&notes[i]);
        if can_beam_exec(note.as_str(), is_tuplet_context) {
            push_text(&mut beam_group, note);
        } else {
            flush_beam_group(&mut beam_group, &mut result);
            push_text(&mut result, note);
            proof {
                assert(note_texts(beam_group@) =~= Seq::<Seq<char>>::empty());
            }
        }
        i = i + 1;
    }
    proof {
        assert(nv.take(i as int) =~= nv);
    }
    flush_beam_group(&mut beam_group, &mut result);
    result
}

/// Beams runs of eighths and shorter (see `beamed`).
pub fn add_beaming_to_notes(notes: Vec<String>) -> (r: Vec<String>)
    ensures
        note_texts(r@) == beamed(note_texts(notes@), false),
{
    add_beaming_to_notes_with_context(notes, false)
}

} // verus!
