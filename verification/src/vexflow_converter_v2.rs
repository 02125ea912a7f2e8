//! Key transposition by semitones and VexFlow element types for staff output.
use vstd::prelude::*;
use crate::pitch::{Degree, PitchCode};
use crate::text::{str_eq, to_uppercase, unicode_uppercase, int_decimal, i64_to_string, push_char};
use crate::beaming::{beam_roles, beam_role};

verus! {

/// A VexFlow stave: elements and optional key signature.
#[derive(Debug)]
pub struct VexFlowStave {
    pub notes: Vec<VexFlowElement>,
    pub key_signature: Option<String>,
}

/// Elements of a VexFlow stave.
#[derive(Debug)]
pub enum VexFlowElement {
    Note {
        keys: Vec<String>,
        duration: String,
        dots: u8,
        accidentals: Vec<VexFlowAccidental>,
        tied: bool,
        /// The rhythm stage's duration such as `1/12`, kept for tuplet detection.
        original_duration: Option<String>,
        beam_start: bool,
        beam_end: bool,
        syl: Option<String>,
    },
    Rest { duration: String, dots: u8, original_duration: Option<String> },
    BarLine { bar_type: String },
    Breathe,
    SlurStart,
    SlurEnd,
    Tuplet { notes: Vec<VexFlowElement>, ratio: (u8, u8) },
}

/// An accidental attached to the key at `index`.
#[derive(Clone, Debug)]
pub struct VexFlowAccidental {
    pub index: usize,
    pub accidental: String,
}

/// Key signature data for transposing scale degrees into a key.
#[derive(Clone, Debug)]
pub struct KeyTransposer {
    /// Semitones from C up to the tonic.
    pub semitone_offset: i8,
    /// Notes altered by the key signature: (note index 0 = C .. 6 = B, sharp?).
    pub key_signature: Vec<(usize, bool)>,
}

/// Semitone offset of a key name (already upper case); C and unknown names give 0.
pub open spec fn key_semitone_offset(k: Seq<char>) -> i8 {
    if k == "G"@ { 7 }
    else if k == "D"@ { 2 }
    else if k == "A"@ { 9 }
    else if k == "E"@ { 4 }
    else if k == "B"@ { 11 }
    else if k == "F"@ { 5 }
    else if k == "BB"@ || k == "B♭"@ { 10 }
    else if k == "EB"@ || k == "E♭"@ { 3 }
    else if k == "AB"@ || k == "A♭"@ { 8 }
    else { 0 }
}

/// Key signature of a key name (already upper case), in the order sharps or flats are added.
pub open spec fn key_signature_notes(k: Seq<char>) -> Seq<(usize, bool)> {
    if k == "G"@ { seq![(3usize, true)] }
    else if k == "D"@ { seq![(3usize, true), (0usize, true)] }
    else if k == "A"@ { seq![(3usize, true), (0usize, true), (4usize, true)] }
    else if k == "E"@ { seq![(3usize, true), (0usize, true), (4usize, true), (1usize, true)] }
    else if k == "B"@ { seq![(3usize, true), (0usize, true), (4usize, true), (1usize, true), (5usize, true)] }
    else if k == "F"@ { seq![(6usize, false)] }
    else if k == "BB"@ || k == "B♭"@ { seq![(6usize, false), (2usize, false)] }
    else if k == "EB"@ || k == "E♭"@ { seq![(6usize, false), (2usize, false), (5usize, false)] }
    else if k == "AB"@ || k == "A♭"@ { seq![(6usize, false), (2usize, false), (5usize, false), (1usize, false)] }
    else { Seq::empty() }
}

/// The upper-cased key name, if a key is given.
pub open spec fn upper_key(key: Option<&String>) -> Option<Seq<char>> {
    match key {
        Some(k) => Some(unicode_uppercase(k@)),
        None => None,
    }
}

fn signature(entries: &[(usize, bool)]) -> (r: Vec<(usize, bool)>)
    ensures
        r@ == entries@,
{
    let mut r = Vec::new();
    let mut i: usize = 0;
    while i < entries.len()
        invariant
            i <= entries.len(),
            r@ == entries@.take(i as int),
        decreases entries.len() - i,
    {
        r.push(entries[i]);
        i = i + 1;
        assert(r@ =~= entries@.take(i as int));
    }
    assert(entries@.take(entries@.len() as int) =~= entries@);
    r
}

impl KeyTransposer {
    /// Transposer for a key name (compared in upper case); no key, C and
    /// unknown names give C major.
    pub fn new(key: Option<&String>) -> (t: Self)
        ensures
            t.wf(),
            t.semitone_offset == (match upper_key(key) { Some(k) => key_semitone_offset(k), None => 0i8 }),
            t.key_signature@ == (match upper_key(key) { Some(k) => key_signature_notes(k), None => Seq::empty() }),
    {
        match key {
            None => KeyTransposer { semitone_offset: 0, key_signature: Vec::new() },
            Some(k) => {
                let upper = to_uppercase(k.as_str());
                let u = upper.as_str();
                if str_eq(u, "G") {
                    KeyTransposer { semitone_offset: 7, key_signature: signature(&[(3, true)]) }
                } else if str_eq(u, "D") {
                    KeyTransposer { semitone_offset: 2, key_signature: signature(&[(3, true), (0, true)]) }
                } else if str_eq(u, "A") {
                    KeyTransposer { semitone_offset: 9, key_signature: signature(&[(3, true), (0, true), (4, true)]) }
                } else if str_eq(u, "E") {
                    KeyTransposer { semitone_offset: 4, key_signature: signature(&[(3, true), (0, true), (4, true), (1, true)]) }
                } else if str_eq(u, "B") {
                    KeyTransposer { semitone_offset: 11, key_signature: signature(&[(3, true), (0, true), (4, true), (1, true), (5, true)]) }
                } else if str_eq(u, "F") {
                    KeyTransposer { semitone_offset: 5, key_signature: signature(&[(6, false)]) }
                } else if str_eq(u, "BB") || str_eq(u, "B♭") {
                    KeyTransposer { semitone_offset: 10, key_signature: signature(&[(6, false), (2, false)]) }
                } else if str_eq(u, "EB") || str_eq(u, "E♭") {
                    KeyTransposer { semitone_offset: 3, key_signature: signature(&[(6, false), (2, false), (5, false)]) }
                } else if str_eq(u, "AB") || str_eq(u, "A♭") {
                    KeyTransposer { semitone_offset: 8, key_signature: signature(&[(6, false), (2, false), (5, false), (1, false)]) }
                } else {
                    KeyTransposer { semitone_offset: 0, key_signature: Vec::new() }
                }
            },
        }
    }
}


/// Semitones above C of a pitch code (from -2 for C double flat to 11).
pub open spec fn semitone_of(p: PitchCode) -> i8 {
    let step = crate::pitch::degree_step(p);
    let base: int = if step == 0 { 0 } else if step == 1 { 2 } else if step == 2 { 4 }
        else if step == 3 { 5 } else if step == 4 { 7 } else if step == 5 { 9 } else { 11 };
    let s = base + crate::pitch::degree_alteration(p);
    (if p == Degree::N7s { 0 } else if p == Degree::N7ss { 1 } else { s }) as i8
}

/// Semitones above C of a pitch code; B sharp and B double sharp wrap to 0 and 1.
pub fn pitch_code_to_semitone(pitch_code: PitchCode) -> (s: i8)
    ensures
        s == semitone_of(pitch_code),
{
    match pitch_code {
        Degree::N1bb => -2, Degree::N1b => -1, Degree::N1 => 0, Degree::N1s => 1, Degree::N1ss => 2,
        Degree::N2bb => 0, Degree::N2b => 1, Degree::N2 => 2, Degree::N2s => 3, Degree::N2ss => 4,
        Degree::N3bb => 2, Degree::N3b => 3, Degree::N3 => 4, Degree::N3s => 5, Degree::N3ss => 6,
        Degree::N4bb => 3, Degree::N4b => 4, Degree::N4 => 5, Degree::N4s => 6, Degree::N4ss => 7,
        Degree::N5bb => 5, Degree::N5b => 6, Degree::N5 => 7, Degree::N5s => 8, Degree::N5ss => 9,
        Degree::N6bb => 7, Degree::N6b => 8, Degree::N6 => 9, Degree::N6s => 10, Degree::N6ss => 11,
        Degree::N7bb => 9, Degree::N7b => 10, Degree::N7 => 11, Degree::N7s => 0, Degree::N7ss => 1,
    }
}

/// Note letter and sharp (if any) of a pitch class 0..11, spelled with sharps.
pub open spec fn pitch_class_spelling(pc: int) -> (Seq<char>, Option<Seq<char>>) {
    if pc == 0 { ("c"@, None) }
    else if pc == 1 { ("c"@, Some("#"@)) }
    else if pc == 2 { ("d"@, None) }
    else if pc == 3 { ("d"@, Some("#"@)) }
    else if pc == 4 { ("e"@, None) }
    else if pc == 5 { ("f"@, None) }
    else if pc == 6 { ("f"@, Some("#"@)) }
    else if pc == 7 { ("g"@, None) }
    else if pc == 8 { ("g"@, Some("#"@)) }
    else if pc == 9 { ("a"@, None) }
    else if pc == 10 { ("a"@, Some("#"@)) }
    else { ("b"@, None) }
}

/// Note letter and sharp of a semitone count, taken modulo 12 (negative counts wrap).
pub fn semitone_to_note_letter(semitone: i8) -> (r: (String, Option<String>))
    ensures
        r.0@ == pitch_class_spelling((semitone as int) % 12).0,
        r.1 is Some <==> pitch_class_spelling((semitone as int) % 12).1 is Some,
        r.1 matches Some(a) ==> a@ == pitch_class_spelling((semitone as int) % 12).1.unwrap(),
{
    let normalized = ((semitone % 12) + 12) % 12;
    assert(normalized as int == (semitone as int) % 12);
    if normalized == 0 { ("c".to_owned(), None) }
    else if normalized == 1 { ("c".to_owned(), Some("#".to_owned())) }
    else if normalized == 2 { ("d".to_owned(), None) }
    else if normalized == 3 { ("d".to_owned(), Some("#".to_owned())) }
    else if normalized == 4 { ("e".to_owned(), None) }
    else if normalized == 5 { ("f".to_owned(), None) }
    else if normalized == 6 { ("f".to_owned(), Some("#".to_owned())) }
    else if normalized == 7 { ("g".to_owned(), None) }
    else if normalized == 8 { ("g".to_owned(), Some("#".to_owned())) }
    else if normalized == 9 { ("a".to_owned(), None) }
    else if normalized == 10 { ("a".to_owned(), Some("#".to_owned())) }
    else { ("b".to_owned(), None) }
}

/// Staff position index (C = 0 .. B = 6) of a note name's first letter; C when unknown or empty.
pub open spec fn letter_index(note: Seq<char>) -> usize {
    if note.len() == 0 { 0 } else {
        let c = note[0];
        if c == 'c' { 0 } else if c == 'd' { 1 } else if c == 'e' { 2 } else if c == 'f' { 3 }
        else if c == 'g' { 4 } else if c == 'a' { 5 } else if c == 'b' { 6 } else { 0 }
    }
}

/// Staff position index of a note name (C = 0 .. B = 6).
pub fn note_letter_to_index(note: &str) -> (i: usize)
    ensures
        i == letter_index(note@),
{
    let c = if note.unicode_len() == 0 { 'c' } else { note.get_char(0) };
    if c == 'c' { 0 } else if c == 'd' { 1 } else if c == 'e' { 2 } else if c == 'f' { 3 }
    else if c == 'g' { 4 } else if c == 'a' { 5 } else if c == 'b' { 6 } else { 0 }
}

/// Whether a text contains a character.
pub fn contains_char(s: &str, c: char) -> (r: bool)
    ensures
        r == s@.contains(c),
{
    let n = s.unicode_len();
    let mut i: usize = 0;
    while i < n
        invariant
            n == s@.len(),
            i <= n,
            forall|j: int| 0 <= j < i ==> s@[j] != c,
        decreases n - i,
    {
        if s.get_char(i) == c {
            assert(s@[i as int] == c);
            return true;
        }
        i = i + 1;
    }
    false
}

/// The first key signature entry (among the first `k`) for a note index.
pub open spec fn signature_entry(sig: Seq<(usize, bool)>, note_index: usize, k: int) -> Option<bool>
    decreases k,
{
    if k <= 0 {
        None
    } else {
        let prev = signature_entry(sig, note_index, k - 1);
        if prev is Some { prev } else if sig[k - 1].0 == note_index { Some(sig[k - 1].1) } else { None }
    }
}

proof fn lemma_signature_entry_stable(sig: Seq<(usize, bool)>, n: usize, i: int, j: int)
    requires
        0 <= i <= j,
        signature_entry(sig, n, i) is Some,
    ensures
        signature_entry(sig, n, j) == signature_entry(sig, n, i),
    decreases j,
{
    if i < j {
        lemma_signature_entry_stable(sig, n, i, j - 1);
    }
}

impl KeyTransposer {
    /// Whether an accidental contradicts the key signature's alteration of a
    /// note: a flat on a sharpened note or a sharp on a flattened one.
    pub fn accidental_contradicts_key_signature(&self, accidental: &str, note_index: usize) -> (r: bool)
        ensures
            r == (match signature_entry(self.key_signature@, note_index, self.key_signature@.len() as int) {
                Some(is_sharp) => (is_sharp && accidental@.contains('b')) || (!is_sharp && accidental@.contains('#')),
                None => false,
            }),
    {
        let mut i: usize = 0;
        while i < self.key_signature.len()
            invariant
                i <= self.key_signature@.len(),
                signature_entry(self.key_signature@, note_index, i as int) is None,
            decreases self.key_signature@.len() - i,
        {
            let (idx, is_sharp) = self.key_signature[i];
            if idx == note_index {
                proof {
                    lemma_signature_entry_stable(self.key_signature@, note_index, i + 1, self.key_signature@.len() as int);
                }
                return (is_sharp && contains_char(accidental, 'b')) || (!is_sharp && contains_char(accidental, '#'));
            }
            i = i + 1;
        }
        false
    }
}


impl KeyTransposer {
    /// The transposer's own invariant: the offset is a pitch class.
    pub open spec fn wf(&self) -> bool {
        0 <= self.semitone_offset < 12
    }
}

/// Sharp spelling of a pitch code moved up by `offset` semitones.
pub open spec fn transposed_spelling(offset: i8, p: PitchCode) -> (Seq<char>, Option<Seq<char>>) {
    pitch_class_spelling((semitone_of(p) + offset) % 12)
}

/// Whether an accidental on a note letter is drawn under a key signature: the
/// key does not alter that note, or alters it the other way.
pub open spec fn shows_accidental(sig: Seq<(usize, bool)>, letter: Seq<char>, acc: Seq<char>) -> bool {
    match signature_entry(sig, letter_index(letter), sig.len() as int) {
        Some(is_sharp) => (is_sharp && acc.contains('b')) || (!is_sharp && acc.contains('#')),
        None => true,
    }
}

/// The VexFlow key `letter/octave` (octave 4 holds middle C) of a transposed pitch.
pub open spec fn transposed_key(offset: i8, p: PitchCode, octave: i8) -> Seq<char> {
    transposed_spelling(offset, p).0 + seq!['/'] + int_decimal(octave + 4)
}

impl KeyTransposer {
    /// Whether the key signature alters the note at `note_index`.
    fn has_signature_entry(&self, note_index: usize) -> (r: bool)
        ensures
            r == signature_entry(self.key_signature@, note_index, self.key_signature@.len() as int) is Some,
    {
        let mut i: usize = 0;
        while i < self.key_signature.len()
            invariant
                i <= self.key_signature@.len(),
                signature_entry(self.key_signature@, note_index, i as int) is None,
            decreases self.key_signature@.len() - i,
        {
            if self.key_signature[i].0 == note_index {
                proof {
                    lemma_signature_entry_stable(self.key_signature@, note_index, i + 1, self.key_signature@.len() as int);
                }
                return true;
            }
            i = i + 1;
        }
        false
    }

    /// The VexFlow key of a pitch code moved into this key, with the accidental
    /// to draw: the sharp of the spelling, unless the key signature already
    /// sharpens that note.
    pub fn transpose_pitch(&self, pitch_code: PitchCode, octave: i8) -> (r: (String, Vec<VexFlowAccidental>))
        requires
            self.wf(),
            octave + 4 <= i8::MAX,
        ensures
            r.0@ == transposed_key(self.semitone_offset, pitch_code, octave),
            r.1@.len() <= 1,
            r.1@.len() == 1 <==> (transposed_spelling(self.semitone_offset, pitch_code).1 matches Some(a)
                && shows_accidental(self.key_signature@, transposed_spelling(self.semitone_offset, pitch_code).0, a)),
            r.1@.len() == 1 ==> r.1@[0].index == 0
                && r.1@[0].accidental@ == transposed_spelling(self.semitone_offset, pitch_code).1.unwrap(),
    {
        let base_semitone = pitch_code_to_semitone(pitch_code);
        let transposed_semitone = (base_semitone + self.semitone_offset) % 12;
        let (note_letter, base_accidental) = semitone_to_note_letter(transposed_semitone);
        proof {
            let x = semitone_of(pitch_code) + self.semitone_offset;
            assert((transposed_semitone as int) % 12 == x % 12) by (nonlinear_arith)
                requires
                    -2 <= x <= 22,
                    transposed_semitone as int == if x >= 0 { x % 12 } else { x },
            {
            }
        }
        let vexflow_octave = octave + 4;
        let mut key = note_letter.clone();
        proof { assert(key@ == note_letter@); }
        push_char(&mut key, '/');
        let octave_text = i64_to_string(vexflow_octave as i64);
        key.append(octave_text.as_str());
        let mut accidentals: Vec<VexFlowAccidental> = Vec::new();
        if let Some(accidental_symbol) = base_accidental {
            let note_index = note_letter_to_index(note_letter.as_str());
            let key_has_accidental = self.has_signature_entry(note_index);
            if !key_has_accidental || self.accidental_contradicts_key_signature(accidental_symbol.as_str(), note_index) {
                accidentals.push(VexFlowAccidental { index: 0, accidental: accidental_symbol });
            }
        }
        (key, accidentals)
    }
}


/// Whether an element takes part in beaming: notes of an eighth or shorter,
/// and inside tuplets also quarter notes.
pub open spec fn is_beamable(e: VexFlowElement, in_tuplet: bool) -> bool {
    match e {
        VexFlowElement::Note { duration, .. } => {
            let d = duration@;
            d == "8"@ || d == "16"@ || d == "32"@ || (in_tuplet && d == "q"@)
        },
        _ => false,
    }
}

/// The beamability of each element.
pub open spec fn beamable_flags(s: Seq<VexFlowElement>, in_tuplet: bool) -> Seq<bool> {
    Seq::new(s.len(), |i: int| is_beamable(s[i], in_tuplet))
}

/// A note with its beam flags set; other elements are unchanged.
pub open spec fn with_beam(e: VexFlowElement, starts: bool, ends: bool) -> VexFlowElement {
    match e {
        VexFlowElement::Note { keys, duration, dots, accidentals, tied, original_duration, beam_start: _, beam_end: _, syl } =>
            VexFlowElement::Note { keys, duration, dots, accidentals, tied, original_duration, beam_start: starts, beam_end: ends, syl },
        _ => e,
    }
}

fn set_beam_flags(notes: &mut Vec<VexFlowElement>, i: usize, starts: bool, ends: bool)
    requires
        i < old(notes)@.len(),
    ensures
        final(notes)@ == old(notes)@.update(i as int, with_beam(old(notes)@[i as int], starts, ends)),
{
    match &mut notes[i] {
        VexFlowElement::Note { beam_start, beam_end, .. } => {
            *beam_start = starts;
            *beam_end = ends;
        },
        _ => {},
    }
}

fn duration_is_beamable(duration: &String, in_tuplet: bool) -> (r: bool)
    ensures
        r == (duration@ == "8"@ || duration@ == "16"@ || duration@ == "32"@ || (in_tuplet && duration@ == "q"@)),
{
    let d = duration.as_str();
    str_eq(d, "8") || str_eq(d, "16") || str_eq(d, "32") || (in_tuplet && str_eq(d, "q"))
}

/// The beamability of each element, computed.
fn beamable_vec(notes: &Vec<VexFlowElement>, in_tuplet: bool) -> (b: Vec<bool>)
    ensures
        b@ == beamable_flags(notes@, in_tuplet),
{
    let mut b: Vec<bool> = Vec::new();
    let mut i: usize = 0;
    while i < notes.len()
        invariant
            i <= notes@.len(),
            b@ == beamable_flags(notes@, in_tuplet).take(i as int),
        decreases notes@.len() - i,
    {
        let flag = match &notes[i] {
            VexFlowElement::Note { duration, .. } => duration_is_beamable(duration, in_tuplet),
            _ => false,
        };
        b.push(flag);
        i = i + 1;
        assert(b@ =~= beamable_flags(notes@, in_tuplet).take(i as int));
    }
    assert(b@ =~= beamable_flags(notes@, in_tuplet));
    b
}

/// Beams every maximal run of at least two beamable notes: the first note of
/// a run starts the beam and the last ends it. Other elements are unchanged.
pub fn apply_beaming_v2(notes: &mut Vec<VexFlowElement>, is_tuplet: bool)
    ensures
        final(notes)@.len() == old(notes)@.len(),
        forall|i: int| 0 <= i < old(notes)@.len() ==> #[trigger] final(notes)@[i] == match beam_role(beamable_flags(old(notes)@, is_tuplet), i) {
            Some(role) => with_beam(old(notes)@[i], role.0, role.1),
            None => old(notes)@[i],
        },
{
    let ghost before = notes@;
    let flags = beamable_vec(notes, is_tuplet);
    let roles = beam_roles(&flags);
    let mut i: usize = 0;
    while i < roles.len()
        invariant
            roles@.len() == before.len(),
            flags@ == beamable_flags(before, is_tuplet),
            forall|j: int| 0 <= j < before.len() ==> #[trigger] roles@[j] == beam_role(flags@, j),
            i <= roles@.len(),
            notes@.len() == before.len(),
            forall|j: int| i <= j < before.len() ==> notes@[j] == before[j],
            forall|j: int| 0 <= j < i ==> #[trigger] notes@[j] == match beam_role(flags@, j) {
                Some(role) => with_beam(before[j], role.0, role.1),
                None => before[j],
            },
        decreases roles@.len() - i,
    {
        if let Some((starts, ends)) = roles[i] {
            set_beam_flags(notes, i, starts, ends);
        }
        i = i + 1;
    }
}

/// Sets the beam flags of the notes at positions `start..=end`: a note starts
/// the beam at `start` and ends it at `end`. Other elements are unchanged.
pub fn apply_beam_markers(notes: &mut Vec<VexFlowElement>, start: usize, end: usize)
    ensures
        final(notes)@.len() == old(notes)@.len(),
        forall|i: int| 0 <= i < old(notes)@.len() ==> #[trigger] final(notes)@[i] ==
            if start <= i <= end { with_beam(old(notes)@[i], i == start, i == end) } else { old(notes)@[i] },
{
    let ghost before = notes@;
    let mut i: usize = 0;
    while i < notes.len()
        invariant
            notes@.len() == before.len(),
            i <= before.len(),
            forall|j: int| i <= j < before.len() ==> notes@[j] == before[j],
            forall|j: int| 0 <= j < i ==> #[trigger] notes@[j] ==
                if start <= j <= end { with_beam(before[j], j == start, j == end) } else { before[j] },
        decreases before.len() - i,
    {
        if i >= start && i <= end {
            set_beam_flags(notes, i, i == start, i == end);
        }
        i = i + 1;
    }
}

/// VexFlow bar line style for a bar line text; unknown texts are single bars.
pub open spec fn barline_style_name(style: Seq<char>) -> Seq<char> {
    if style == "|:"@ || style == "[:"@ { "repeat-begin"@ }
    else if style == ":|"@ || style == ":]"@ { "repeat-end"@ }
    else if style == "||"@ { "double"@ }
    else if style == "|."@ { "final"@ }
    else if style == "||:"@ { "double-repeat-begin"@ }
    else if style == ":||"@ { "double-repeat-end"@ }
    else if style == "::"@ { "double-repeat"@ }
    else { "single"@ }
}

/// VexFlow bar line style for a bar line text.
pub fn map_barline_style(style: &str) -> (r: String)
    ensures
        r@ == barline_style_name(style@),
{
    if str_eq(style, "|:") || str_eq(style, "[:") { "repeat-begin".to_owned() }
    else if str_eq(style, ":|") || str_eq(style, ":]") { "repeat-end".to_owned() }
    else if str_eq(style, "||") { "double".to_owned() }
    else if str_eq(style, "|.") { "final".to_owned() }
    else if str_eq(style, "||:") { "double-repeat-begin".to_owned() }
    else if str_eq(style, ":||") { "double-repeat-end".to_owned() }
    else if str_eq(style, "::") { "double-repeat".to_owned() }
    else { "single".to_owned() }
}

/// Display duration of a tuplet member spanning `subdivisions` of a tuplet of
/// `divisions`: the size class of the tuplet picks the base value.
pub open spec fn tuplet_member_duration(subdivisions: usize, divisions: usize) -> Seq<char> {
    let (one, two_three, four) = if divisions <= 3 { ("8"@, "q"@, "h"@) }
        else if divisions <= 7 { ("16"@, "8"@, "q"@) }
        else if divisions <= 15 { ("32"@, "16"@, "8"@) }
        else { ("64"@, "32"@, "16"@) };
    if subdivisions == 2 || subdivisions == 3 { two_three } else if subdivisions == 4 { four } else { one }
}

/// A single undotted duration.
fn undotted(name: &str) -> (r: Vec<(String, u8)>)
    ensures
        r@.len() == 1,
        r@[0].0@ == name@,
        r@[0].1 == 0,
{
    let mut r: Vec<(String, u8)> = Vec::new();
    r.push((name.to_owned(), 0));
    r
}

/// The undotted display duration of a tuplet member (see `tuplet_member_duration`).
pub fn convert_tuplet_duration_to_vexflow_v2(subdivisions: usize, divisions: usize) -> (r: Vec<(String, u8)>)
    ensures
        r@.len() == 1,
        r@[0].0@ == tuplet_member_duration(subdivisions, divisions),
        r@[0].1 == 0,
{
    let one;
    let two_three;
    let four;
    if divisions <= 3 { one = "8"; two_three = "q"; four = "h"; }
    else if divisions <= 7 { one = "16"; two_three = "8"; four = "q"; }
    else if divisions <= 15 { one = "32"; two_three = "16"; four = "8"; }
    else { one = "64"; two_three = "32"; four = "16"; }
    if subdivisions == 2 || subdivisions == 3 { undotted(two_three) }
    else if subdivisions == 4 { undotted(four) }
    else { undotted(one) }
}

/// The undotted display duration of any member of a tuplet of `total_divisions`:
/// eighths up to three, sixteenths up to six, thirty-seconds beyond.
pub fn convert_tuplet_duration_to_vexflow(_subdivisions: usize, total_divisions: usize) -> (r: Vec<(String, u8)>)
    ensures
        r@.len() == 1,
        r@[0].0@ == (if total_divisions <= 3 { "8"@ } else if total_divisions <= 6 { "16"@ } else { "32"@ }),
        r@[0].1 == 0,
{
    if total_divisions <= 3 { undotted("8") }
    else if total_divisions <= 6 { undotted("16") }
    else { undotted("32") }
}

/// Documents of the second model are rendered from the rhythm stage's output;
/// converting one directly gives a single empty stave without key.
pub fn convert_document_v2_to_vexflow<D>(_document: &D) -> (r: Result<Vec<VexFlowStave>, String>)
    ensures
        r matches Ok(staves) && staves@.len() == 1 && staves@[0].notes@.len() == 0
            && staves@[0].key_signature is None,
{
    let mut staves: Vec<VexFlowStave> = Vec::new();
    staves.push(VexFlowStave { notes: Vec::new(), key_signature: None });
    Ok(staves)
}

} // verus!
