//! A VexFlow script for a stave of analyzed beats: one `StaveNote` per note
//! and per rest-carrying dash, tuplets for tuplet beats, beams for beamable
//! beats, and a voice holding all notes.
use vstd::prelude::*;
use crate::pitch::{Degree, PitchCode, degree_step, degree_alteration};
use crate::rhythm_analyzer::{Beat, BeatElement, Note, ContentLine, ContentElement};
use crate::text::{nat_digits, int_decimal, i64_to_string, push_char};
use crate::to_staff_notation::append_digits;

verus! {

/// Builds the script line by line, numbering notes and voices.
pub struct VexFlowJSGenerator {
    pub js_code: String,
    pub note_counter: usize,
    pub voice_counter: usize,
}

/// Lines, each followed by a newline.
pub open spec fn line_text(lines: Seq<Seq<char>>) -> Seq<char>
    decreases lines.len(),
{
    if lines.len() == 0 { Seq::empty() } else { line_text(lines.drop_last()) + lines.last() + "\n"@ }
}

/// Names separated by `, `.
pub open spec fn join_names(names: Seq<Seq<char>>) -> Seq<char>
    decreases names.len(),
{
    if names.len() == 0 { Seq::empty() }
    else if names.len() == 1 { names[0] }
    else { join_names(names.drop_last()) + ", "@ + names.last() }
}

/// The upper-case letter of a scale step (0 for C .. 6 for B).
pub open spec fn upper_step_letter(step: int) -> Seq<char> {
    if step == 0 { "C"@ } else if step == 1 { "D"@ } else if step == 2 { "E"@ } else if step == 3 { "F"@ }
    else if step == 4 { "G"@ } else if step == 5 { "A"@ } else { "B"@ }
}

/// The accidental of a chromatic alteration, if any.
pub open spec fn alteration_symbol(alteration: int) -> Option<Seq<char>> {
    if alteration == -2 { Some("bb"@) } else if alteration == -1 { Some("b"@) }
    else if alteration == 1 { Some("#"@) } else if alteration == 2 { Some("##"@) } else { None }
}

/// The key of a degree at an octave: its letter, `/` and the octave plus 4.
pub open spec fn stave_key(d: Degree, octave: i8) -> Seq<char> {
    upper_step_letter(degree_step(d)) + "/"@ + int_decimal(4 + octave)
}

/// The VexFlow duration of a note value `n/d`: the standard values by
/// table (tuplet values shown as the next plain value), otherwise by the
/// size of the denominator.
pub open spec fn stave_duration(n: u32, d: u32) -> Seq<char> {
    if n == 1 && d == 1 { "w"@ } else if n == 1 && d == 2 { "h"@ } else if n == 1 && d == 4 { "q"@ }
    else if n == 1 && d == 8 { "8"@ } else if n == 1 && d == 12 { "8"@ } else if n == 1 && d == 16 { "16"@ }
    else if n == 1 && d == 20 { "16"@ } else if n == 1 && d == 24 { "16"@ } else if n == 1 && d == 28 { "16"@ }
    else if n == 1 && d == 32 { "32"@ } else if n == 1 && d == 48 { "32"@ } else if n == 1 && d == 64 { "64"@ }
    else if d >= 96 { "64"@ } else if d >= 48 { "32"@ } else if d >= 24 { "16"@ } else if d >= 12 { "8"@ } else { "q"@ }
}

/// The name of note `c`.
pub open spec fn note_name(c: nat) -> Seq<char> {
    "note_"@ + nat_digits(c)
}

/// Whether a beat can be beamed: no note (unknown denominators read as 4)
/// nor rest-carrying dash is longer than an eighth.
pub open spec fn beat_beamable(es: Seq<BeatElement>) -> bool {
    forall|i: int| 0 <= i < es.len() ==> match #[trigger] es[i] {
        BeatElement::Note(n) => (match n.denominator { Some(d) => d, None => 4u32 }) >= 8,
        BeatElement::Dash(d) => (d.denominator matches Some(x) ==> x >= 8),
        _ => true,
    }
}

/// The key and duration text of the script note for a beat element: a note
/// at its key with its duration (1/4 where unknown), a dash carrying a
/// duration as a rest on `b/4`; other elements have none.
pub open spec fn beat_entry(e: BeatElement) -> Option<(Seq<char>, Seq<char>)> {
    match e {
        BeatElement::Note(n) => Some((stave_key(n.pitch_code, n.octave),
            stave_duration(match n.numerator { Some(x) => x, None => 1u32 }, match n.denominator { Some(x) => x, None => 4u32 }))),
        BeatElement::Dash(d) => match (d.numerator, d.denominator) {
            (Some(x), Some(y)) => Some(("b/4"@, stave_duration(x, y) + "r"@)),
            _ => None,
        },
        _ => None,
    }
}

/// The script notes of the elements of a beat, in order.
pub open spec fn beat_entries(es: Seq<BeatElement>) -> Seq<(Seq<char>, Seq<char>)>
    decreases es.len(),
{
    if es.len() == 0 {
        Seq::empty()
    } else {
        beat_entries(es.drop_last()) + match beat_entry(es.last()) { Some(x) => seq![x], None => Seq::empty() }
    }
}

/// The line creating a script note.
pub open spec fn entry_line(name: Seq<char>, entry: (Seq<char>, Seq<char>)) -> Seq<char> {
    "  const "@ + name + " = new StaveNote({ keys: ['"@ + entry.0 + "'], duration: '"@ + entry.1 + "' });"@
}

/// The names of `n` notes numbered from `c`.
pub open spec fn note_names(c: nat, n: nat) -> Seq<Seq<char>> {
    Seq::new(n, |k: int| note_name(c + k as nat))
}

/// The lines creating the script notes `entries`, numbered from `c`.
pub open spec fn entry_lines(c: nat, entries: Seq<(Seq<char>, Seq<char>)>) -> Seq<Seq<char>> {
    Seq::new(entries.len(), |k: int| entry_line(note_name(c + k as nat), entries[k]))
}

/// The line creating a tuplet over `names` of `ratio` (notes, occupied).
pub open spec fn tuplet_line(name: Seq<char>, names: Seq<Seq<char>>, ratio: (usize, usize)) -> Seq<char> {
    "  const "@ + name + " = new Tuplet(["@ + join_names(names) + "], { notes_occupied: "@ + nat_digits(ratio.1 as nat)
        + ", num_notes: "@ + nat_digits(ratio.0 as nat) + ", bracketed: true });"@
}

fn append_line(code: &mut String, line: &str)
    ensures
        final(code)@ == old(code)@ + line@ + "\n"@,
{
    code.append(line);
    code.append("\n");
}

proof fn lemma_line_text_push(lines: Seq<Seq<char>>, l: Seq<char>)
    ensures
        line_text(lines.push(l)) == line_text(lines) + l + "\n"@,
{
    assert(lines.push(l).drop_last() =~= lines);
}

proof fn lemma_line_text_concat(a: Seq<Seq<char>>, b: Seq<Seq<char>>)
    ensures
        line_text(a + b) == line_text(a) + line_text(b),
    decreases b.len(),
{
    if b.len() == 0 {
        assert(a + b =~= a);
        assert(line_text(a) + line_text(b) =~= line_text(a));
    } else {
        lemma_line_text_concat(a, b.drop_last());
        assert((a + b).drop_last() =~= a + b.drop_last());
        assert((a + b).last() == b.last());
        assert(line_text(a + b) =~= line_text(a) + line_text(b));
    }
}

impl VexFlowJSGenerator {
    /// A generator with no script and both counters at 0.
    pub fn new() -> (g: Self)
        ensures
            g.js_code@ == Seq::<char>::empty(),
            g.note_counter == 0,
            g.voice_counter == 0,
    {
        VexFlowJSGenerator { js_code: String::new(), note_counter: 0, voice_counter: 0 }
    }

    /// Appends a line and a newline to the script.
    pub fn add_line(&mut self, line: &str)
        ensures
            final(self).js_code@ == old(self).js_code@ + line@ + "\n"@,
            final(self).note_counter == old(self).note_counter,
            final(self).voice_counter == old(self).voice_counter,
    {
        append_line(&mut self.js_code, line);
    }

    /// The next note name, `note_<n>`; the note counter moves on.
    pub fn next_note_name(&mut self) -> (r: String)
        requires
            old(self).note_counter < usize::MAX,
        ensures
            r@ == note_name(old(self).note_counter as nat),
            final(self).note_counter == old(self).note_counter + 1,
            final(self).voice_counter == old(self).voice_counter,
            final(self).js_code == old(self).js_code,
    {
        let mut name = "note_".to_owned();
        append_digits(&mut name, self.note_counter);
        self.note_counter = self.note_counter + 1;
        name
    }

    /// The next voice name, `voice_<n>`; the voice counter moves on.
    pub fn next_voice_name(&mut self) -> (r: String)
        requires
            old(self).voice_counter < usize::MAX,
        ensures
            r@ == "voice_"@ + nat_digits(old(self).voice_counter as nat),
            final(self).voice_counter == old(self).voice_counter + 1,
            final(self).note_counter == old(self).note_counter,
            final(self).js_code == old(self).js_code,
    {
        let mut name = "voice_".to_owned();
        append_digits(&mut name, self.voice_counter);
        self.voice_counter = self.voice_counter + 1;
        name
    }

    /// The VexFlow duration of a note value (see `stave_duration`).
    pub fn duration_to_vexflow_duration(&self, numerator: u32, denominator: u32) -> (r: String)
        ensures
            r@ == stave_duration(numerator, denominator),
    {
        let text = if numerator == 1 && denominator == 1 { "w" } else if numerator == 1 && denominator == 2 { "h" }
            else if numerator == 1 && denominator == 4 { "q" } else if numerator == 1 && denominator == 8 { "8" }
            else if numerator == 1 && denominator == 12 { "8" } else if numerator == 1 && denominator == 16 { "16" }
            else if numerator == 1 && denominator == 20 { "16" } else if numerator == 1 && denominator == 24 { "16" }
            else if numerator == 1 && denominator == 28 { "16" } else if numerator == 1 && denominator == 32 { "32" }
            else if numerator == 1 && denominator == 48 { "32" } else if numerator == 1 && denominator == 64 { "64" }
            else if denominator >= 96 { "64" } else if denominator >= 48 { "32" } else if denominator >= 24 { "16" }
            else if denominator >= 12 { "8" } else { "q" };
        text.to_owned()
    }

    /// The scale degree of a pitch code: the same degree.
    pub fn pitch_code_to_degree(&self, pitch_code: PitchCode) -> (r: Degree)
        ensures
            r == pitch_code,
    {
        pitch_code
    }

    /// The key of a degree at an octave (see `stave_key`) and its accidental,
    /// if any.
    pub fn degree_to_vexflow_key(&self, degree: Degree, octave: i8) -> (r: (String, Vec<String>))
        requires
            octave <= i8::MAX - 4,
        ensures
            r.0@ == stave_key(degree, octave),
            r.1@.map_values(|s: String| s@) == match alteration_symbol(degree_alteration(degree)) {
                Some(a) => seq![a],
                None => Seq::empty(),
            },
    {
        let (base, accidental): (&str, Option<&str>) = match degree {
            Degree::N1bb => ("C", Some("bb")), Degree::N1b => ("C", Some("b")), Degree::N1 => ("C", None),
            Degree::N1s => ("C", Some("#")), Degree::N1ss => ("C", Some("##")),
            Degree::N2bb => ("D", Some("bb")), Degree::N2b => ("D", Some("b")), Degree::N2 => ("D", None),
            Degree::N2s => ("D", Some("#")), Degree::N2ss => ("D", Some("##")),
            Degree::N3bb => ("E", Some("bb")), Degree::N3b => ("E", Some("b")), Degree::N3 => ("E", None),
            Degree::N3s => ("E", Some("#")), Degree::N3ss => ("E", Some("##")),
            Degree::N4bb => ("F", Some("bb")), Degree::N4b => ("F", Some("b")), Degree::N4 => ("F", None),
            Degree::N4s => ("F", Some("#")), Degree::N4ss => ("F", Some("##")),
            Degree::N5bb => ("G", Some("bb")), Degree::N5b => ("G", Some("b")), Degree::N5 => ("G", None),
            Degree::N5s => ("G", Some("#")), Degree::N5ss => ("G", Some("##")),
            Degree::N6bb => ("A", Some("bb")), Degree::N6b => ("A", Some("b")), Degree::N6 => ("A", None),
            Degree::N6s => ("A", Some("#")), Degree::N6ss => ("A", Some("##")),
            Degree::N7bb => ("B", Some("bb")), Degree::N7b => ("B", Some("b")), Degree::N7 => ("B", None),
            Degree::N7s => ("B", Some("#")), Degree::N7ss => ("B", Some("##")),
        };
        proof {
            reveal_strlit("/");
        }
        let vexflow_octave: i8 = 4 + octave;
        let mut key = base.to_owned();
        push_char(&mut key, '/');
        let digits = i64_to_string(vexflow_octave as i64);
        key.append(digits.as_str());
        let mut accidentals: Vec<String> = Vec::new();
        match accidental {
            Some(a) => {
                accidentals.push(a.to_owned());
            },
            None => {},
        }
        proof {
            assert(key@ =~= upper_step_letter(degree_step(degree)) + "/"@ + int_decimal(4 + octave));
            assert(accidentals@.map_values(|s: String| s@) =~= match alteration_symbol(degree_alteration(degree)) {
                Some(a) => seq![a],
                None => Seq::<Seq<char>>::empty(),
            });
        }
        (key, accidentals)
    }

    /// The key of a note (see `stave_key`) and its accidental, if any.
    pub fn note_to_vexflow_key(&self, note: &Note) -> (r: (String, Vec<String>))
        requires
            note.octave <= i8::MAX - 4,
        ensures
            r.0@ == stave_key(note.pitch_code, note.octave),
    {
        let degree = self.pitch_code_to_degree(note.pitch_code);
        self.degree_to_vexflow_key(degree, note.octave)
    }

    /// Whether a beat can be beamed (see `beat_beamable`).
    pub fn is_beat_beamable(&self, beat: &Beat) -> (r: bool)
        ensures
            r == beat_beamable(beat.elements@),
    {
        let mut i: usize = 0;
        while i < beat.elements.len()
            invariant
                i <= beat.elements@.len(),
                forall|j: int| 0 <= j < i ==> match #[trigger] beat.elements@[j] {
                    BeatElement::Note(n) => (match n.denominator { Some(d) => d, None => 4u32 }) >= 8,
                    BeatElement::Dash(d) => (d.denominator matches Some(x) ==> x >= 8),
                    _ => true,
                },
            decreases beat.elements@.len() - i,
        {
            match &beat.elements[i] {
                BeatElement::Note(note) => {
                    let denominator = match note.denominator { Some(d) => d, None => 4 };
                    if denominator < 8 {
                        return false;
                    }
                },
                BeatElement::Dash(dash) => {
                    if let Some(denom) = dash.denominator {
                        if denom < 8 {
                            return false;
                        }
                    }
                },
                _ => {},
            }
            i = i + 1;
        }
        true
    }
}


/// Whether every note of a beat has an octave whose VexFlow octave fits an `i8`.
pub open spec fn octaves_fit(es: Seq<BeatElement>) -> bool {
    forall|i: int| 0 <= i < es.len() ==> (#[trigger] es[i] matches BeatElement::Note(n) ==> n.octave <= i8::MAX - 4)
}

/// The name of the tuplet numbered `c`.
pub open spec fn tuplet_name(c: nat) -> Seq<char> {
    "tuplet_"@ + nat_digits(c)
}

/// The ratio a tuplet beat is drawn with: its own, or 3 in the time of 2.
pub open spec fn drawn_ratio(b: Beat) -> (usize, usize) {
    match b.tuplet_ratio { Some(r) => r, None => (3usize, 2usize) }
}

/// The lines a tuplet beat adds when its notes are numbered from `c`: its
/// notes, then (when it has any) the tuplet over them, numbered after them.
pub open spec fn tuplet_lines(c: nat, b: Beat) -> Seq<Seq<char>> {
    let e = beat_entries(b.elements@);
    entry_lines(c, e) + if e.len() > 0 {
        seq![tuplet_line(tuplet_name(c + e.len()), note_names(c, e.len()), drawn_ratio(b))]
    } else {
        Seq::empty()
    }
}

proof fn lemma_entries_len(es: Seq<BeatElement>)
    ensures
        beat_entries(es).len() <= es.len(),
    decreases es.len(),
{
    if es.len() > 0 {
        lemma_entries_len(es.drop_last());
    }
}

fn join_names_of(names: &Vec<String>) -> (r: String)
    ensures
        r@ == join_names(names@.map_values(|s: String| s@)),
{
    let ghost nv = names@.map_values(|s: String| s@);
    let mut r = String::new();
    let mut i: usize = 0;
    proof {
        assert(nv.take(0) =~= Seq::<Seq<char>>::empty());
    }
    while i < names.len()
        invariant
            nv == names@.map_values(|s: String| s@),
            i <= names@.len(),
            r@ == join_names(nv.take(i as int)),
        decreases names@.len() - i,
    {
        if i > 0 {
            r.append(", ");
        }
        r.append(names[i].as_str());
        proof {
            let t = nv.take(i + 1);
            assert(t.drop_last() =~= nv.take(i as int));
            if i == 0 {
                assert(r@ =~= t[0]);
            } else {
                assert(r@ =~= join_names(nv.take(i as int)) + ", "@ + t.last());
            }
        }
        i = i + 1;
    }
    proof {
        assert(nv.take(i as int) =~= nv);
    }
    r
}

fn entry_line_of(name: &str, key: &str, duration: &str) -> (r: String)
    ensures
        r@ == entry_line(name@, (key@, duration@)),
{
    let mut line = "  const ".to_owned();
    line.append(name);
    line.append(" = new StaveNote({ keys: ['");
    line.append(key);
    line.append("'], duration: '");
    line.append(duration);
    line.append("' });");
    line
}

impl VexFlowJSGenerator {
    fn emit_beat_notes(&mut self, beat: &Beat) -> (r: Vec<String>)
        requires
            old(self).note_counter + beat.elements@.len() <= usize::MAX,
            octaves_fit(beat.elements@),
        ensures
            ({
                let e = beat_entries(beat.elements@);
                let c = old(self).note_counter as nat;
                &&& final(self).js_code@ == old(self).js_code@ + line_text(entry_lines(c, e))
                &&& final(self).note_counter == c + e.len()
                &&& final(self).voice_counter == old(self).voice_counter
                &&& r@.map_values(|s: String| s@) == note_names(c, e.len())
            }),
    {
        let ghost es = beat.elements@;
        let ghost c = self.note_counter as nat;
        let ghost code0 = self.js_code@;
        let mut names: Vec<String> = Vec::new();
        let mut i: usize = 0;
        proof {
            assert(es.take(0) =~= Seq::<BeatElement>::empty());
            assert(line_text(entry_lines(c, beat_entries(es.take(0)))) =~= Seq::<char>::empty());
            assert(code0 + Seq::<char>::empty() =~= code0);
            assert(names@.map_values(|s: String| s@) =~= note_names(c, 0));
        }
        while i < beat.elements.len()
            invariant
                es == beat.elements@,
                c + es.len() <= usize::MAX,
                octaves_fit(es),
                i <= es.len(),
                self.js_code@ == code0 + line_text(entry_lines(c, beat_entries(es.take(i as int)))),
                self.note_counter == c + beat_entries(es.take(i as int)).len(),
                self.voice_counter == old(self).voice_counter,
                names@.map_values(|s: String| s@) == note_names(c, beat_entries(es.take(i as int)).len()),
            decreases es.len() - i,
        {
            let ghost e0 = beat_entries(es.take(i as int));
            proof {
                lemma_entries_len(es.take(i as int));
                assert(es.take(i + 1).drop_last() =~= es.take(i as int));
                assert(es.take(i + 1).last() == es[i as int]);
            }
            let entry: Option<(String, String)> = match &beat.elements[i] {
                BeatElement::Note(note) => {
                    proof {
                        assert(es[i as int] matches BeatElement::Note(n) ==> n.octave <= i8::MAX - 4);
                    }
                    let (key, _accidentals) = self.note_to_vexflow_key(note);
                    let numerator = match note.numerator { Some(x) => x, None => 1 };
                    let denominator = match note.denominator { Some(x) => x, None => 4 };
                    let duration = self.duration_to_vexflow_duration(numerator, denominator);
                    Some((key, duration))
                },
                BeatElement::Dash(dash) => {
                    match (dash.numerator, dash.denominator) {
                        (Some(numer), Some(denom)) => {
                            let mut duration = self.duration_to_vexflow_duration(numer, denom);
                            duration.append("r");
                            Some(("b/4".to_owned(), duration))
                        },
                        _ => None,
                    }
                },
                _ => None,
            };
            match entry {
                Some((key, duration)) => {
                    let ghost x = (key@, duration@);
                    proof {
                        assert(beat_entry(es[i as int]) == Some(x));
                        assert(beat_entries(es.take(i + 1)) =~= e0.push(x));
                    }
                    let name = self.next_note_name();
                    let line = entry_line_of(name.as_str(), key.as_str(), duration.as_str());
                    self.add_line(line.as_str());
                    let ghost before = names@;
                    names.push(name);
                    proof {
                        assert(entry_lines(c, e0.push(x)) =~= entry_lines(c, e0).push(entry_line(note_name(c + e0.len()), x)));
                        lemma_line_text_push(entry_lines(c, e0), entry_line(note_name(c + e0.len()), x));
                        assert(names@.map_values(|s: String| s@) =~= before.map_values(|s: String| s@).push(note_name(c + e0.len())));
                        assert(note_names(c, e0.len() + 1) =~= note_names(c, e0.len()).push(note_name(c + e0.len())));
                    }
                },
                None => {
                    proof {
                        assert(beat_entry(es[i as int]) is None);
                        assert(beat_entries(es.take(i + 1)) =~= e0);
                    }
                },
            }
            i = i + 1;
        }
        proof {
            assert(es.take(i as int) =~= es);
        }
        names
    }

    /// The script notes of a beat (see `beat_entries`), numbered from the
    /// note counter: their lines are added and their names returned.
    pub fn generate_beat_notes(&mut self, beat: &Beat) -> (r: Vec<String>)
        requires
            old(self).note_counter + beat.elements@.len() <= usize::MAX,
            octaves_fit(beat.elements@),
        ensures
            ({
                let e = beat_entries(beat.elements@);
                let c = old(self).note_counter as nat;
                &&& final(self).js_code@ == old(self).js_code@ + line_text(entry_lines(c, e))
                &&& final(self).note_counter == c + e.len()
                &&& final(self).voice_counter == old(self).voice_counter
                &&& r@.map_values(|s: String| s@) == note_names(c, e.len())
            }),
    {
        self.emit_beat_notes(beat)
    }

    /// A tuplet beat (see `tuplet_lines`): the lines of its notes and, when it has
    /// notes, the line of the tuplet are added; the note names and the name
    /// of the tuplet are returned.
    pub fn generate_tuplet(&mut self, beat: &Beat) -> (r: (Vec<String>, Option<String>))
        requires
            old(self).note_counter + beat.elements@.len() < usize::MAX,
            octaves_fit(beat.elements@),
        ensures
            ({
                let e = beat_entries(beat.elements@);
                let c = old(self).note_counter as nat;
                &&& final(self).js_code@ == old(self).js_code@ + line_text(tuplet_lines(c, *beat))
                &&& final(self).note_counter == c + e.len() + if e.len() > 0 { 1nat } else { 0nat }
                &&& final(self).voice_counter == old(self).voice_counter
                &&& r.0@.map_values(|s: String| s@) == note_names(c, e.len())
                &&& match r.1 {
                    Some(t) => e.len() > 0 && t@ == tuplet_name(c + e.len()),
                    None => e.len() == 0,
                }
            }),
    {
        let ghost c = self.note_counter as nat;
        let ghost code0 = self.js_code@;
        let ghost e = beat_entries(beat.elements@);
        proof {
            lemma_entries_len(beat.elements@);
        }
        let names = self.emit_beat_notes(beat);
        if names.len() > 0 {
            let mut name = "tuplet_".to_owned();
            append_digits(&mut name, self.note_counter);
            self.note_counter = self.note_counter + 1;
            let (num_notes, notes_occupied) = match beat.tuplet_ratio { Some(r) => r, None => (3, 2) };
            let mut line = "  const ".to_owned();
            line.append(name.as_str());
            line.append(" = new Tuplet([");
            let joined = join_names_of(&names);
            line.append(joined.as_str());
            line.append("], { notes_occupied: ");
            append_digits(&mut line, notes_occupied);
            line.append(", num_notes: ");
            append_digits(&mut line, num_notes);
            line.append(", bracketed: true });");
            self.add_line(line.as_str());
            proof {
                let tl = tuplet_line(tuplet_name(c + e.len()), note_names(c, e.len()), drawn_ratio(*beat));
                assert(line@ =~= tl);
                lemma_line_text_push(entry_lines(c, e), tl);
                assert(tuplet_lines(c, *beat) =~= entry_lines(c, e).push(tl));
            }
            (names, Some(name))
        } else {
            proof {
                assert(tuplet_lines(c, *beat) =~= entry_lines(c, e));
            }
            (names, None)
        }
    }
}


/// The state of the script walk over the content elements of a stave: the
/// script so far, the note counter, all note names, the tuplet names and the
/// note names of each beam.
pub struct StaveWalk {
    pub code: Seq<char>,
    pub notes: nat,
    pub all: Seq<Seq<char>>,
    pub tuplets: Seq<Seq<char>>,
    pub beams: Seq<Seq<Seq<char>>>,
}

/// One content element of the walk: a tuplet beat adds its lines, notes and
/// tuplet; another beat adds its notes, and a beam over them when it has two
/// or more and can be beamed; other elements add nothing.
pub open spec fn walk_content_element(w: StaveWalk, e: ContentElement) -> StaveWalk {
    match e {
        ContentElement::Beat(b) => {
            let n = beat_entries(b.elements@).len();
            let names = note_names(w.notes, n);
            if b.is_tuplet == Some(true) {
                StaveWalk {
                    code: w.code + line_text(tuplet_lines(w.notes, b)),
                    notes: w.notes + n + if n > 0 { 1nat } else { 0nat },
                    all: w.all + names,
                    tuplets: if n > 0 { w.tuplets.push(tuplet_name(w.notes + n)) } else { w.tuplets },
                    beams: w.beams,
                }
            } else {
                StaveWalk {
                    code: w.code + line_text(entry_lines(w.notes, beat_entries(b.elements@))),
                    notes: w.notes + n,
                    all: w.all + names,
                    tuplets: w.tuplets,
                    beams: if n >= 2 && beat_beamable(b.elements@) { w.beams.push(names) } else { w.beams },
                }
            }
        },
        _ => w,
    }
}

/// The walk over the first `k` content elements.
pub open spec fn walk_content_elements(w: StaveWalk, es: Seq<ContentElement>, k: int) -> StaveWalk
    decreases k,
{
    if k <= 0 { w } else { walk_content_element(walk_content_elements(w, es, k - 1), es[k - 1]) }
}

/// The walk over the first `j` content lines.
pub open spec fn walk_content_lines(w: StaveWalk, lines: Seq<ContentLine>, j: int) -> StaveWalk
    decreases j,
{
    if j <= 0 {
        w
    } else {
        let prev = walk_content_lines(w, lines, j - 1);
        walk_content_elements(prev, lines[j - 1].elements@, lines[j - 1].elements@.len() as int)
    }
}

/// An upper bound of the names a content element takes: the elements of
/// its beat and two more.
pub open spec fn element_weight(e: ContentElement) -> nat {
    match e {
        ContentElement::Beat(b) => b.elements@.len() + 2,
        _ => 0,
    }
}

/// Sum of the weights of content elements.
pub open spec fn elements_weight(es: Seq<ContentElement>) -> nat
    decreases es.len(),
{
    if es.len() == 0 { 0 } else { elements_weight(es.drop_last()) + element_weight(es.last()) }
}

/// Sum of the weights of the content elements of the first `j` lines.
pub open spec fn lines_weight(lines: Seq<ContentLine>, j: int) -> nat
    decreases j,
{
    if j <= 0 { 0 } else { lines_weight(lines, j - 1) + elements_weight(lines[j - 1].elements@) }
}

/// Whether every beat of every content line has octaves that fit.
pub open spec fn lines_octaves_fit(lines: Seq<ContentLine>) -> bool {
    forall|j: int| 0 <= j < lines.len() ==> stave_octaves_fit(#[trigger] lines[j].elements@)
}

/// Whether every beat of content elements has octaves that fit.
pub open spec fn stave_octaves_fit(es: Seq<ContentElement>) -> bool {
    forall|i: int| 0 <= i < es.len() ==> (#[trigger] es[i] matches ContentElement::Beat(b) ==> octaves_fit(b.elements@))
}

/// The opening lines of the script for a container.
pub open spec fn header_lines(container_id: Seq<char>) -> Seq<Seq<char>> {
    seq![
        "(function() {"@,
        "  const container = document.getElementById('"@ + container_id + "');"@,
        "  if (!container) return;"@,
        "  container.innerHTML = '';"@,
        ""@,
        "  const { Renderer, Stave, StaveNote, Voice, Formatter, Tuplet, Beam } = Vex.Flow;"@,
        ""@,
        "  const renderer = new Renderer(container, Renderer.Backends.SVG);"@,
        "  const canvasWidth = 800;"@,
        "  const canvasHeight = 200;"@,
        "  renderer.resize(canvasWidth, canvasHeight);"@,
        "  const context = renderer.getContext();"@,
        "  context.scale(0.9, 0.9);"@,
        ""@,
        "  const stave = new Stave(10, 40, 700);"@,
        "  stave.addClef('treble');"@,
        "  stave.setContext(context);"@,
        "  stave.draw();"@,
        ""@
    ]
}

/// The lines creating voice `v` with the notes `all`, and formatting and
/// drawing it.
pub open spec fn voice_lines(v: Seq<char>, all: Seq<Seq<char>>) -> Seq<Seq<char>> {
    seq![
        "  // Create voice and add notes"@,
        "  const "@ + v + " = new Voice({ num_beats: 4, beat_value: 4, resolution: Vex.Flow.RESOLUTION });"@,
        "  "@ + v + ".setStrict(false);"@,
        "  "@ + v + ".addTickables(["@ + join_names(all) + "]);"@,
        ""@,
        "  // Format and draw"@,
        "  const formatter = new Formatter().joinVoices(["@ + v + "]);"@,
        "  formatter.format(["@ + v + "], 600);"@,
        "  "@ + v + ".draw(context, stave);"@,
        ""@
    ]
}

/// The lines drawing the tuplets.
pub open spec fn tuplet_draw_lines(tuplets: Seq<Seq<char>>) -> Seq<Seq<char>> {
    seq!["  // Draw tuplets"@] + Seq::new(tuplets.len(), |k: int| "  "@ + tuplets[k] + ".setContext(context).draw();"@) + seq![""@]
}

/// The two lines creating and drawing beam `name` over `names`.
pub open spec fn beam_draw(name: Seq<char>, names: Seq<Seq<char>>) -> Seq<Seq<char>> {
    seq!["    const "@ + name + " = new Beam(["@ + join_names(names) + "]);"@, "    "@ + name + ".setContext(context).draw();"@]
}

/// The lines drawing the first `k` beams, numbered from `c`.
pub open spec fn beam_draw_lines(c: nat, beams: Seq<Seq<Seq<char>>>, k: int) -> Seq<Seq<char>>
    decreases k,
{
    if k <= 0 { Seq::empty() } else { beam_draw_lines(c, beams, k - 1) + beam_draw("beam_"@ + nat_digits(c + (k - 1) as nat), beams[k - 1]) }
}

/// The walk over all content lines, starting from the opening lines with no
/// names.
pub open spec fn stave_walk(lines: Seq<ContentLine>, container_id: Seq<char>) -> StaveWalk {
    let w0 = StaveWalk {
        code: line_text(header_lines(container_id)), notes: 0, all: Seq::empty(), tuplets: Seq::empty(), beams: Seq::empty(),
    };
    walk_content_lines(w0, lines, lines.len() as int)
}

/// The closing lines of the script after the walk `w`: where there are any,
/// the voice holding all notes, the tuplets drawn and the beams (numbered
/// after the notes and tuplets) drawn; then the close.
pub open spec fn closing_lines(w: StaveWalk) -> Seq<Seq<char>> {
    (if w.all.len() > 0 { voice_lines("voice_0"@, w.all) } else { Seq::empty() })
        + (if w.tuplets.len() > 0 { tuplet_draw_lines(w.tuplets) } else { Seq::empty() })
        + (if w.beams.len() > 0 { seq!["  // Draw beams"@] + beam_draw_lines(w.notes, w.beams, w.beams.len() as int) } else { Seq::empty() })
        + seq!["})();"@]
}

/// The script for the content lines of a stave in a container: the opening
/// lines, the notes and tuplets of every beat (see `walk_content_element`),
/// and the closing lines.
pub open spec fn stave_script(lines: Seq<ContentLine>, container_id: Seq<char>) -> Seq<char> {
    stave_walk(lines, container_id).code + line_text(closing_lines(stave_walk(lines, container_id)))
}

/// The walk state held by the generator and its name lists.
pub open spec fn exec_walk(code: Seq<char>, notes: usize, all: Seq<String>, tuplets: Seq<String>, beams: Seq<Vec<String>>) -> StaveWalk {
    StaveWalk {
        code,
        notes: notes as nat,
        all: all.map_values(|s: String| s@),
        tuplets: tuplets.map_values(|s: String| s@),
        beams: beams.map_values(|v: Vec<String>| v@.map_values(|s: String| s@)),
    }
}

fn copy_names(v: &Vec<String>) -> (r: Vec<String>)
    ensures
        r@ == v@,
{
    let mut r: Vec<String> = Vec::new();
    let mut i: usize = 0;
    while i < v.len()
        invariant
            i <= v@.len(),
            r@ == v@.take(i as int),
        decreases v@.len() - i,
    {
        r.push(v[i].clone());
        proof {
            assert(r@ =~= v@.take(i + 1));
        }
        i = i + 1;
    }
    proof {
        assert(v@.take(i as int) =~= v@);
    }
    r
}

fn append_names(all: &mut Vec<String>, names: Vec<String>)
    ensures
        final(all)@.map_values(|s: String| s@) == old(all)@.map_values(|s: String| s@) + names@.map_values(|s: String| s@),
{
    let ghost start = all@;
    let mut i: usize = 0;
    while i < names.len()
        invariant
            i <= names@.len(),
            all@ == start + names@.take(i as int),
        decreases names@.len() - i,
    {
        all.push(names[i].clone());
        proof {
            assert(all@ =~= start + names@.take(i + 1));
        }
        i = i + 1;
    }
    proof {
        assert(names@.take(i as int) =~= names@);
        assert(all@.map_values(|s: String| s@) =~= start.map_values(|s: String| s@) + names@.map_values(|s: String| s@));
    }
}

proof fn lemma_elements_weight_take(es: Seq<ContentElement>, i: int)
    requires
        0 <= i < es.len(),
    ensures
        elements_weight(es.take(i + 1)) == elements_weight(es.take(i)) + element_weight(es[i]),
{
    assert(es.take(i + 1).drop_last() =~= es.take(i));
    assert(es.take(i + 1).last() == es[i]);
}

proof fn lemma_elements_weight_mono(es: Seq<ContentElement>, i: int)
    requires
        0 <= i <= es.len(),
    ensures
        elements_weight(es.take(i)) <= elements_weight(es),
    decreases es.len() - i,
{
    if i < es.len() {
        lemma_elements_weight_take(es, i);
        lemma_elements_weight_mono(es, i + 1);
    } else {
        assert(es.take(i) =~= es);
    }
}

proof fn lemma_lines_weight_mono(lines: Seq<ContentLine>, j: int, k: int)
    requires
        0 <= j <= k,
    ensures
        lines_weight(lines, j) <= lines_weight(lines, k),
    decreases k,
{
    if j < k {
        lemma_lines_weight_mono(lines, j, k - 1);
    }
}

impl VexFlowJSGenerator {
    fn walk_element(&mut self, e: &ContentElement, all: &mut Vec<String>, tuplets: &mut Vec<String>, beams: &mut Vec<Vec<String>>)
        requires
            old(self).note_counter + old(beams)@.len() + element_weight(*e) < usize::MAX,
            e matches ContentElement::Beat(b) ==> octaves_fit(b.elements@),
        ensures
            exec_walk(final(self).js_code@, final(self).note_counter, final(all)@, final(tuplets)@, final(beams)@)
                == walk_content_element(exec_walk(old(self).js_code@, old(self).note_counter, old(all)@, old(tuplets)@, old(beams)@), *e),
            final(self).note_counter + final(beams)@.len() <= old(self).note_counter + old(beams)@.len() + element_weight(*e),
            final(self).voice_counter == old(self).voice_counter,
    {
        match e {
            ContentElement::Beat(beat) => {
                proof {
                    lemma_entries_len(beat.elements@);
                }
                let tuplet = match beat.is_tuplet { Some(true) => true, _ => false };
                if tuplet {
                    let (names, t) = self.generate_tuplet(beat);
                    match t {
                        Some(t) => {
                            let ghost before = tuplets@;
                            let ghost tv = t@;
                            tuplets.push(t);
                            proof {
                                assert(tuplets@.map_values(|s: String| s@) =~= before.map_values(|s: String| s@).push(tv));
                            }
                        },
                        None => {},
                    }
                    append_names(all, names);
                } else {
                    let names = self.generate_beat_notes(beat);
                    if names.len() >= 2 && self.is_beat_beamable(beat) {
                        let ghost before = beams@;
                        let copy = copy_names(&names);
                        let ghost cv = copy@;
                        beams.push(copy);
                        proof {
                            assert(beams@.map_values(|v: Vec<String>| v@.map_values(|s: String| s@))
                                =~= before.map_values(|v: Vec<String>| v@.map_values(|s: String| s@)).push(cv.map_values(|s: String| s@)));
                        }
                    }
                    append_names(all, names);
                }
            },
            _ => {},
        }
    }
}


impl VexFlowJSGenerator {
    fn add_tracked(&mut self, line: &str, Ghost(base): Ghost<Seq<char>>, Ghost(acc): Ghost<Seq<Seq<char>>>)
        requires
            old(self).js_code@ == base + line_text(acc),
        ensures
            final(self).js_code@ == base + line_text(acc.push(line@)),
            final(self).note_counter == old(self).note_counter,
            final(self).voice_counter == old(self).voice_counter,
    {
        self.add_line(line);
        proof {
            lemma_line_text_push(acc, line@);
        }
    }

    /// The script for the content lines of a stave drawn into the container
    /// `container_id` (see `stave_script`); the generator starts afresh and
    /// holds the script afterwards.
    pub fn generate_for_stave(&mut self, content_lines: &[ContentLine], container_id: &str) -> (r: String)
        requires
            lines_weight(content_lines@, content_lines@.len() as int) < usize::MAX,
            lines_octaves_fit(content_lines@),
        ensures
            r@ == stave_script(content_lines@, container_id@),
            final(self).js_code@ == r@,
            script_opening(container_id@).is_prefix_of(r@),
            "})();\n"@.is_suffix_of(r@),
    {
        proof {
            lemma_stave_script_frame(content_lines@, container_id@);
        }
        self.js_code = String::new();
        self.note_counter = 0;
        self.voice_counter = 0;
        let ghost empty = Seq::<char>::empty();
        proof {
            assert(self.js_code@ =~= empty + line_text(Seq::<Seq<char>>::empty()));
        }
        let mut container_line = "  const container = document.getElementById('".to_owned();
        container_line.append(container_id);
        container_line.append("');");
        let ghost h = Seq::<Seq<char>>::empty();
        self.add_tracked("(function() {", Ghost(empty), Ghost(h));
        proof { h = h.push("(function() {"@); }
        self.add_tracked(container_line.as_str(), Ghost(empty), Ghost(h));
        proof { h = h.push(container_line@); }
        self.add_tracked("  if (!container) return;", Ghost(empty), Ghost(h));
        proof { h = h.push("  if (!container) return;"@); }
        self.add_tracked("  container.innerHTML = '';", Ghost(empty), Ghost(h));
        proof { h = h.push("  container.innerHTML = '';"@); }
        self.add_tracked("", Ghost(empty), Ghost(h));
        proof { h = h.push(""@); }
        self.add_tracked("  const { Renderer, Stave, StaveNote, Voice, Formatter, Tuplet, Beam } = Vex.Flow;", Ghost(empty), Ghost(h));
        proof { h = h.push("  const { Renderer, Stave, StaveNote, Voice, Formatter, Tuplet, Beam } = Vex.Flow;"@); }
        self.add_tracked("", Ghost(empty), Ghost(h));
        proof { h = h.push(""@); }
        self.add_tracked("  const renderer = new Renderer(container, Renderer.Backends.SVG);", Ghost(empty), Ghost(h));
        proof { h = h.push("  const renderer = new Renderer(container, Renderer.Backends.SVG);"@); }
        self.add_tracked("  const canvasWidth = 800;", Ghost(empty), Ghost(h));
        proof { h = h.push("  const canvasWidth = 800;"@); }
        self.add_tracked("  const canvasHeight = 200;", Ghost(empty), Ghost(h));
        proof { h = h.push("  const canvasHeight = 200;"@); }
        self.add_tracked("  renderer.resize(canvasWidth, canvasHeight);", Ghost(empty), Ghost(h));
        proof { h = h.push("  renderer.resize(canvasWidth, canvasHeight);"@); }
        self.add_tracked("  const context = renderer.getContext();", Ghost(empty), Ghost(h));
        proof { h = h.push("  const context = renderer.getContext();"@); }
        self.add_tracked("  context.scale(0.9, 0.9);", Ghost(empty), Ghost(h));
        proof { h = h.push("  context.scale(0.9, 0.9);"@); }
        self.add_tracked("", Ghost(empty), Ghost(h));
        proof { h = h.push(""@); }
        self.add_tracked("  const stave = new Stave(10, 40, 700);", Ghost(empty), Ghost(h));
        proof { h = h.push("  const stave = new Stave(10, 40, 700);"@); }
        self.add_tracked("  stave.addClef('treble');", Ghost(empty), Ghost(h));
        proof { h = h.push("  stave.addClef('treble');"@); }
        self.add_tracked("  stave.setContext(context);", Ghost(empty), Ghost(h));
        proof { h = h.push("  stave.setContext(context);"@); }
        self.add_tracked("  stave.draw();", Ghost(empty), Ghost(h));
        proof { h = h.push("  stave.draw();"@); }
        self.add_tracked("", Ghost(empty), Ghost(h));
        proof {
            h = h.push(""@);
            assert(h =~= header_lines(container_id@));
            assert(self.js_code@ =~= line_text(header_lines(container_id@)));
        }

        let mut all_notes: Vec<String> = Vec::new();
        let mut tuplets: Vec<String> = Vec::new();
        let mut beams: Vec<Vec<String>> = Vec::new();
        let ghost lines = content_lines@;
        let ghost w0 = StaveWalk {
            code: line_text(header_lines(container_id@)), notes: 0, all: Seq::empty(), tuplets: Seq::empty(), beams: Seq::empty(),
        };
        proof {
            assert(all_notes@.map_values(|s: String| s@) =~= Seq::<Seq<char>>::empty());
            assert(tuplets@.map_values(|s: String| s@) =~= Seq::<Seq<char>>::empty());
            assert(beams@.map_values(|v: Vec<String>| v@.map_values(|s: String| s@)) =~= Seq::<Seq<Seq<char>>>::empty());
        }
        let mut j: usize = 0;
        while j < content_lines.len()
            invariant
                lines == content_lines@,
                j <= lines.len(),
                lines_weight(lines, lines.len() as int) < usize::MAX,
                lines_octaves_fit(lines),
                exec_walk(self.js_code@, self.note_counter, all_notes@, tuplets@, beams@) == walk_content_lines(w0, lines, j as int),
                self.note_counter + beams@.len() <= lines_weight(lines, j as int),
                self.voice_counter == 0,
            decreases lines.len() - j,
        {
            let es = &content_lines[j].elements;
            let ghost start = walk_content_lines(w0, lines, j as int);
            proof {
                lemma_lines_weight_mono(lines, j + 1, lines.len() as int);
                assert(stave_octaves_fit(lines[j as int].elements@));
            }
            let mut i: usize = 0;
            proof {
                assert(es@.take(0) =~= Seq::<ContentElement>::empty());
            }
            while i < es.len()
                invariant
                    es@ == lines[j as int].elements@,
                    i <= es@.len(),
                    lines_weight(lines, j as int) + elements_weight(es@) < usize::MAX,
                    stave_octaves_fit(es@),
                    exec_walk(self.js_code@, self.note_counter, all_notes@, tuplets@, beams@) == walk_content_elements(start, es@, i as int),
                    self.note_counter + beams@.len() <= lines_weight(lines, j as int) + elements_weight(es@.take(i as int)),
                    self.voice_counter == 0,
                decreases es@.len() - i,
            {
                proof {
                    lemma_elements_weight_take(es@, i as int);
                    lemma_elements_weight_mono(es@, i + 1);
                    assert(es@[i as int] matches ContentElement::Beat(b) ==> octaves_fit(b.elements@));
                }
                self.walk_element(&es[i], &mut all_notes, &mut tuplets, &mut beams);
                i = i + 1;
            }
            proof {
                assert(es@.take(i as int) =~= es@);
            }
            j = j + 1;
        }
        let ghost w = walk_content_lines(w0, lines, lines.len() as int);
        let ghost base = self.js_code@;
        let ghost nc_end = self.note_counter;
        proof {
            assert(nc_end + beams@.len() < usize::MAX);
        }
        let ghost mut acc = Seq::<Seq<char>>::empty();
        proof {
            assert(base =~= base + line_text(acc));
        }
        if all_notes.len() > 0 {
            self.add_tracked("  // Create voice and add notes", Ghost(base), Ghost(acc));
            proof { acc = acc.push("  // Create voice and add notes"@); }
            let voice_name = self.next_voice_name();
            proof {
                reveal_strlit("voice_0");
                reveal_strlit("voice_");
                assert(voice_name@ =~= "voice_0"@);
            }
            let mut l1 = "  const ".to_owned();
            l1.append(voice_name.as_str());
            l1.append(" = new Voice({ num_beats: 4, beat_value: 4, resolution: Vex.Flow.RESOLUTION });");
            self.add_tracked(l1.as_str(), Ghost(base), Ghost(acc));
            proof { acc = acc.push(l1@); }
            let mut l2 = "  ".to_owned();
            l2.append(voice_name.as_str());
            l2.append(".setStrict(false);");
            self.add_tracked(l2.as_str(), Ghost(base), Ghost(acc));
            proof { acc = acc.push(l2@); }
            let mut l3 = "  ".to_owned();
            l3.append(voice_name.as_str());
            l3.append(".addTickables([");
            let joined = join_names_of(&all_notes);
            l3.append(joined.as_str());
            l3.append("]);");
            self.add_tracked(l3.as_str(), Ghost(base), Ghost(acc));
            proof { acc = acc.push(l3@); }
            self.add_tracked("", Ghost(base), Ghost(acc));
            proof { acc = acc.push(""@); }
            self.add_tracked("  // Format and draw", Ghost(base), Ghost(acc));
            proof { acc = acc.push("  // Format and draw"@); }
            let mut l4 = "  const formatter = new Formatter().joinVoices([".to_owned();
            l4.append(voice_name.as_str());
            l4.append("]);");
            self.add_tracked(l4.as_str(), Ghost(base), Ghost(acc));
            proof { acc = acc.push(l4@); }
            let mut l5 = "  formatter.format([".to_owned();
            l5.append(voice_name.as_str());
            l5.append("], 600);");
            self.add_tracked(l5.as_str(), Ghost(base), Ghost(acc));
            proof { acc = acc.push(l5@); }
            let mut l6 = "  ".to_owned();
            l6.append(voice_name.as_str());
            l6.append(".draw(context, stave);");
            self.add_tracked(l6.as_str(), Ghost(base), Ghost(acc));
            proof { acc = acc.push(l6@); }
            self.add_tracked("", Ghost(base), Ghost(acc));
            proof {
                acc = acc.push(""@);
                assert(acc =~= voice_lines("voice_0"@, w.all));
            }
        }
        let ghost after_voice = acc;
        if tuplets.len() > 0 {
            self.add_tracked("  // Draw tuplets", Ghost(base), Ghost(acc));
            proof { acc = acc.push("  // Draw tuplets"@); }
            let mut k: usize = 0;
            while k < tuplets.len()
                invariant
                    k <= tuplets@.len(),
                    self.js_code@ == base + line_text(acc),
                    acc == after_voice + seq!["  // Draw tuplets"@]
                        + Seq::new(k as nat, |q: int| "  "@ + tuplets@[q]@ + ".setContext(context).draw();"@),
                    self.note_counter == nc_end,
                decreases tuplets@.len() - k,
            {
                let mut l = "  ".to_owned();
                l.append(tuplets[k].as_str());
                l.append(".setContext(context).draw();");
                self.add_tracked(l.as_str(), Ghost(base), Ghost(acc));
                proof {
                    acc = acc.push(l@);
                    assert(acc =~= after_voice + seq!["  // Draw tuplets"@]
                        + Seq::new((k + 1) as nat, |q: int| "  "@ + tuplets@[q]@ + ".setContext(context).draw();"@));
                }
                k = k + 1;
            }
            self.add_tracked("", Ghost(base), Ghost(acc));
            proof {
                acc = acc.push(""@);
                assert(acc =~= after_voice + tuplet_draw_lines(w.tuplets));
            }
        }
        proof {
            assert(acc =~= (if w.all.len() > 0 { voice_lines("voice_0"@, w.all) } else { Seq::empty() })
                + (if w.tuplets.len() > 0 { tuplet_draw_lines(w.tuplets) } else { Seq::empty() }));
        }
        let ghost after_tuplets = acc;
        assert(self.note_counter == nc_end);
        let ghost c = self.note_counter as nat;
        if beams.len() > 0 {
            self.add_tracked("  // Draw beams", Ghost(base), Ghost(acc));
            proof { acc = acc.push("  // Draw beams"@); }
            let mut k: usize = 0;
            while k < beams.len()
                invariant
                    k <= beams@.len(),
                    c + beams@.len() < usize::MAX,
                    self.note_counter == c + k,
                    self.js_code@ == base + line_text(acc),
                    acc == after_tuplets + seq!["  // Draw beams"@] + beam_draw_lines(c, w.beams, k as int),
                    w.beams == beams@.map_values(|v: Vec<String>| v@.map_values(|s: String| s@)),
                decreases beams@.len() - k,
            {
                let mut name = "beam_".to_owned();
                append_digits(&mut name, self.note_counter);
                self.note_counter = self.note_counter + 1;
                let mut l1 = "    const ".to_owned();
                l1.append(name.as_str());
                l1.append(" = new Beam([");
                let joined = join_names_of(&beams[k]);
                l1.append(joined.as_str());
                l1.append("]);");
                self.add_tracked(l1.as_str(), Ghost(base), Ghost(acc));
                proof { acc = acc.push(l1@); }
                let mut l2 = "    ".to_owned();
                l2.append(name.as_str());
                l2.append(".setContext(context).draw();");
                self.add_tracked(l2.as_str(), Ghost(base), Ghost(acc));
                proof {
                    acc = acc.push(l2@);
                    assert(w.beams[k as int] == beams@[k as int]@.map_values(|s: String| s@));
                    assert(acc =~= after_tuplets + seq!["  // Draw beams"@] + beam_draw_lines(c, w.beams, k + 1));
                }
                k = k + 1;
            }
        }
        self.add_tracked("})();", Ghost(base), Ghost(acc));
        proof {
            acc = acc.push("})();"@);
            assert(acc =~= closing_lines(w));
        }
        self.js_code.clone()
    }
}

} // verus!

verus! {

/// The walk over content elements only appends to the script.
proof fn lemma_walk_elements_extends(w: StaveWalk, es: Seq<ContentElement>, k: int)
    ensures
        w.code.is_prefix_of(walk_content_elements(w, es, k).code),
    decreases k,
{
    if k > 0 {
        lemma_walk_elements_extends(w, es, k - 1);
        let p = walk_content_elements(w, es, k - 1);
        let q = walk_content_elements(w, es, k);
        assert(p.code.is_prefix_of(q.code)) by {
            match es[k - 1] {
                ContentElement::Beat(b) => {
                    if b.is_tuplet == Some(true) {
                        assert(p.code =~= q.code.subrange(0, p.code.len() as int));
                    } else {
                        assert(p.code =~= q.code.subrange(0, p.code.len() as int));
                    }
                },
                _ => {},
            }
        }
        assert(w.code =~= q.code.subrange(0, w.code.len() as int)) by {
            assert(w.code =~= p.code.subrange(0, w.code.len() as int));
            assert(p.code =~= q.code.subrange(0, p.code.len() as int));
        }
    }
}

/// The walk over content lines only appends to the script.
proof fn lemma_walk_lines_extends(w: StaveWalk, lines: Seq<ContentLine>, j: int)
    ensures
        w.code.is_prefix_of(walk_content_lines(w, lines, j).code),
    decreases j,
{
    if j > 0 {
        lemma_walk_lines_extends(w, lines, j - 1);
        let p = walk_content_lines(w, lines, j - 1);
        let q = walk_content_lines(w, lines, j);
        lemma_walk_elements_extends(p, lines[j - 1].elements@, lines[j - 1].elements@.len() as int);
        assert(w.code =~= q.code.subrange(0, w.code.len() as int)) by {
            assert(w.code =~= p.code.subrange(0, w.code.len() as int));
            assert(p.code =~= q.code.subrange(0, p.code.len() as int));
        }
    }
}

/// The opening lines of a stave script: the function and the container lookup.
pub open spec fn script_opening(container_id: Seq<char>) -> Seq<char> {
    "(function() {\n"@ + "  const container = document.getElementById('"@ + container_id + "');\n"@
}

#[verifier::spinoff_prover]
proof fn lemma_header_text_opening(container_id: Seq<char>)
    ensures
        script_opening(container_id).is_prefix_of(line_text(header_lines(container_id))),
{
    let h = header_lines(container_id);
    let first = "(function() {"@;
    let second = "  const container = document.getElementById('"@ + container_id + "');"@;
    let head = seq![first, second];
    assert(h =~= head + h.subrange(2, h.len() as int));
    lemma_line_text_concat(head, h.subrange(2, h.len() as int));
    assert(head.drop_last() =~= seq![first]);
    assert(seq![first].drop_last() =~= Seq::<Seq<char>>::empty());
    assert(line_text(seq![first]) =~= first + "\n"@) by {
        assert(line_text(Seq::<Seq<char>>::empty()) =~= Seq::<char>::empty());
    }
    assert(line_text(head) == line_text(seq![first]) + second + "\n"@);
    assert("(function() {\n"@ =~= first + "\n"@) by {
        reveal_strlit("(function() {\n");
        reveal_strlit("(function() {");
        reveal_strlit("\n");
    }
    assert("');\n"@ =~= "');"@ + "\n"@) by {
        reveal_strlit("');\n");
        reveal_strlit("');");
        reveal_strlit("\n");
    }
    let opening = script_opening(container_id);
    assert(line_text(head) =~= opening);
    assert(opening =~= line_text(h).subrange(0, opening.len() as int));
}

#[verifier::spinoff_prover]
proof fn lemma_stave_script_opening(lines: Seq<ContentLine>, container_id: Seq<char>)
    ensures
        script_opening(container_id).is_prefix_of(stave_script(lines, container_id)),
{
    let h = header_lines(container_id);
    lemma_header_text_opening(container_id);
    let w0 = StaveWalk {
        code: line_text(h), notes: 0, all: Seq::empty(), tuplets: Seq::empty(), beams: Seq::empty(),
    };
    lemma_walk_lines_extends(w0, lines, lines.len() as int);
    let w = stave_walk(lines, container_id);
    let script = stave_script(lines, container_id);
    let opening = script_opening(container_id);
    assert(opening =~= script.subrange(0, opening.len() as int)) by {
        assert(opening =~= line_text(h).subrange(0, opening.len() as int));
        assert(line_text(h) =~= w.code.subrange(0, line_text(h).len() as int));
    }
}

#[verifier::spinoff_prover]
proof fn lemma_stave_script_closing(lines: Seq<ContentLine>, container_id: Seq<char>)
    ensures
        "})();\n"@.is_suffix_of(stave_script(lines, container_id)),
{
    let w = stave_walk(lines, container_id);
    let script = stave_script(lines, container_id);
    let c = closing_lines(w);
    let body = c.drop_last();
    assert(c =~= body.push("})();"@));
    lemma_line_text_push(body, "})();"@);
    let tail = "})();\n"@;
    assert(tail =~= "})();"@ + "\n"@) by {
        reveal_strlit("})();\n");
        reveal_strlit("})();");
        reveal_strlit("\n");
    }
    assert(tail =~= script.subrange(script.len() - tail.len(), script.len() as int));
}

/// The script for a stave opens a function whose first statement looks up
/// the container by its id, and closes that function on its last line.
pub proof fn lemma_stave_script_frame(lines: Seq<ContentLine>, container_id: Seq<char>)
    ensures
        script_opening(container_id).is_prefix_of(stave_script(lines, container_id)),
        "})();\n"@.is_suffix_of(stave_script(lines, container_id)),
{
    lemma_stave_script_opening(lines, container_id);
    lemma_stave_script_closing(lines, container_id);
}

} // verus!
