//! Staff output from the rhythm stage's node tree: per-bar accidental
//! tracking, key transposition tables, beaming and ties.
use vstd::prelude::*;
use crate::models::copy_string;
use crate::pitch::{Degree, PitchCode, degree_step, degree_alteration};
use crate::text::{str_eq, to_uppercase, to_lowercase, unicode_uppercase, unicode_lowercase, int_decimal, i64_to_string, push_char};
use crate::beaming::{beam_roles, beam_role};
use crate::lilypond_duration::string_views;

verus! {

/// A stave of VexFlow elements with the key it is written in.
#[derive(Debug)]
pub struct VexFlowStave {
    pub notes: Vec<VexFlowElement>,
    /// Key signature such as "C", "G", "F" or "Bb".
    pub key_signature: Option<String>,
}

/// Elements of a VexFlow stave.
#[derive(Debug)]
pub enum VexFlowElement {
    Note {
        keys: Vec<String>,
        duration: String,
        dots: u8,
        accidentals: Vec<VexFlowAccidental>,
        tied: bool,
        /// The rhythm stage's duration such as `1/12`, kept for tuplet detection.
        original_duration: Option<String>,
        beam_start: bool,
        beam_end: bool,
        syl: Option<String>,
    },
    Rest { duration: String, dots: u8, original_duration: Option<String> },
    BarLine { bar_type: String },
    Breathe,
    /// Notes of a beat whose division is not a power of two.
    Tuplet { notes: Vec<VexFlowElement>, divisions: u8 },
    SlurStart,
    SlurEnd,
    /// A mordent on the note at `note_index` ("upper" or "lower").
    Mordent { note_index: usize, mordent_type: String },
}

/// An accidental attached to the key at `index`.
#[derive(Clone, Debug)]
pub struct VexFlowAccidental {
    pub index: usize,
    pub accidental: String,
}

/// The characters of an optional text.
pub open spec fn opt_str_view(o: Option<&str>) -> Option<Seq<char>> {
    match o {
        Some(s) => Some(s@),
        None => None,
    }
}

/// The characters of an optional string.
pub open spec fn opt_string_view(o: Option<String>) -> Option<Seq<char>> {
    match o {
        Some(s) => Some(s@),
        None => None,
    }
}

// ---------------------------------------------------------------------------
// Accidentals within a bar

/// Rank of each note (0 = C .. 6 = B) in the order sharps enter a key
/// signature: F, C, G, D, A, E, B.
pub open spec fn sharp_rank(i: int) -> int {
    if i == 0 { 1 } else if i == 1 { 3 } else if i == 2 { 5 } else if i == 3 { 0 }
    else if i == 4 { 2 } else if i == 5 { 4 } else { 6 }
}

/// Rank of each note (0 = C .. 6 = B) in the order flats enter a key
/// signature: B, E, A, D, G, C, F.
pub open spec fn flat_rank(i: int) -> int {
    if i == 0 { 5 } else if i == 1 { 3 } else if i == 2 { 1 } else if i == 3 { 6 }
    else if i == 4 { 4 } else if i == 5 { 2 } else { 0 }
}

/// Numbers of sharps and of flats in the key signature of an upper-case key
/// name; C and unknown names have neither.
pub open spec fn key_counts_of(k: Seq<char>) -> (int, int) {
    if k == "G"@ { (1, 0) } else if k == "D"@ { (2, 0) } else if k == "A"@ { (3, 0) }
    else if k == "E"@ { (4, 0) } else if k == "B"@ { (5, 0) } else if k == "F#"@ { (6, 0) }
    else if k == "C#"@ { (7, 0) } else if k == "F"@ { (0, 1) } else if k == "BB"@ { (0, 2) }
    else if k == "EB"@ { (0, 3) } else if k == "AB"@ { (0, 4) } else if k == "DB"@ { (0, 5) }
    else if k == "GB"@ { (0, 6) } else if k == "CB"@ { (0, 7) } else { (0, 0) }
}

/// Number of sharps of a key name (upper case).
pub open spec fn key_sharps(k: Seq<char>) -> int {
    key_counts_of(k).0
}

/// Number of flats of a key name (upper case).
pub open spec fn key_flats(k: Seq<char>) -> int {
    key_counts_of(k).1
}

/// The key signature's accidental on note `i` (0 = C .. 6 = B) for an upper-case key name.
pub open spec fn key_accidental(k: Seq<char>, i: int) -> Option<Seq<char>> {
    if sharp_rank(i) < key_sharps(k) { Some("#"@) }
    else if flat_rank(i) < key_flats(k) { Some("b"@) }
    else { None }
}

/// The accidental state of the seven notes at the start of a bar in a key
/// (the key name is compared in upper case; no key is C major).
pub open spec fn initial_table(key: Option<&String>) -> Seq<Option<Seq<char>>> {
    Seq::new(7, |i: int| match key {
        Some(k) => key_accidental(unicode_uppercase(k@), i),
        None => None,
    })
}

/// Note index (0 = C .. 6 = B) of a lower-case note letter.
pub open spec fn letter_slot(s: Seq<char>) -> Option<int> {
    if s == "c"@ { Some(0) } else if s == "d"@ { Some(1) } else if s == "e"@ { Some(2) }
    else if s == "f"@ { Some(3) } else if s == "g"@ { Some(4) } else if s == "a"@ { Some(5) }
    else if s == "b"@ { Some(6) } else { None }
}

/// One step of the accidental table: the table after writing the note
/// `letter` (lower case) with accidental `desired`, and whether and which
/// accidental is drawn. An unknown letter changes nothing and draws nothing;
/// a note whose state already matches draws nothing; otherwise the new state
/// is recorded and drawn, a natural as "n".
pub open spec fn check_note(t: Seq<Option<Seq<char>>>, letter: Seq<char>, desired: Option<Seq<char>>)
    -> (Seq<Option<Seq<char>>>, (bool, Option<Seq<char>>))
{
    match letter_slot(letter) {
        None => (t, (false, None)),
        Some(i) => if t[i] == desired {
            (t, (false, None))
        } else {
            (t.update(i, desired), (true, Some(match desired { Some(a) => a, None => "n"@ })))
        },
    }
}

/// Accidental state of the notes C D E F G A B within the current bar:
/// `None` is natural, otherwise the accidental text ("#", "b", ...).
#[derive(Debug)]
pub struct NoteAccidentalTable {
    notes: Vec<Option<String>>,
}

impl View for NoteAccidentalTable {
    type V = Seq<Option<Seq<char>>>;

    closed spec fn view(&self) -> Seq<Option<Seq<char>>> {
        self.notes@.map_values(|o: Option<String>| opt_string_view(o))
    }
}

fn sharp_rank_of(i: usize) -> (r: usize)
    requires
        i < 7,
    ensures
        r == sharp_rank(i as int),
{
    if i == 0 { 1 } else if i == 1 { 3 } else if i == 2 { 5 } else if i == 3 { 0 }
    else if i == 4 { 2 } else if i == 5 { 4 } else { 6 }
}

fn flat_rank_of(i: usize) -> (r: usize)
    requires
        i < 7,
    ensures
        r == flat_rank(i as int),
{
    if i == 0 { 5 } else if i == 1 { 3 } else if i == 2 { 1 } else if i == 3 { 6 }
    else if i == 4 { 4 } else if i == 5 { 2 } else { 0 }
}

/// Numbers of sharps and flats of an upper-case key name.
fn key_counts(k: &str) -> (r: (usize, usize))
    ensures
        r.0 == key_sharps(k@),
        r.1 == key_flats(k@),
{
    if str_eq(k, "G") { (1, 0) } else if str_eq(k, "D") { (2, 0) } else if str_eq(k, "A") { (3, 0) }
    else if str_eq(k, "E") { (4, 0) } else if str_eq(k, "B") { (5, 0) } else if str_eq(k, "F#") { (6, 0) }
    else if str_eq(k, "C#") { (7, 0) } else if str_eq(k, "F") { (0, 1) } else if str_eq(k, "BB") { (0, 2) }
    else if str_eq(k, "EB") { (0, 3) } else if str_eq(k, "AB") { (0, 4) } else if str_eq(k, "DB") { (0, 5) }
    else if str_eq(k, "GB") { (0, 6) } else if str_eq(k, "CB") { (0, 7) } else { (0, 0) }
}

fn opt_matches(current: &Option<String>, desired: Option<&str>) -> (r: bool)
    ensures
        r == (opt_string_view(*current) == opt_str_view(desired)),
{
    match (current, desired) {
        (Some(a), Some(b)) => str_eq(a.as_str(), b),
        (None, None) => true,
        _ => false,
    }
}

fn letter_slot_of(s: &str) -> (r: Option<usize>)
    ensures
        match r { Some(i) => letter_slot(s@) == Some(i as int), None => letter_slot(s@) is None },
{
    if str_eq(s, "c") { Some(0) } else if str_eq(s, "d") { Some(1) } else if str_eq(s, "e") { Some(2) }
    else if str_eq(s, "f") { Some(3) } else if str_eq(s, "g") { Some(4) } else if str_eq(s, "a") { Some(5) }
    else if str_eq(s, "b") { Some(6) } else { None }
}

impl NoteAccidentalTable {
    /// The table's invariant: one entry per note C .. B.
    pub closed spec fn wf(&self) -> bool {
        self.notes@.len() == 7
    }

    /// A well-formed table has seven entries.
    pub proof fn lemma_len(&self)
        requires
            self.wf(),
        ensures
            self@.len() == 7,
    {
    }

    /// The table at the start of a bar in `key_signature`: the notes the key
    /// alters carry its sharps or flats, the others are natural.
    pub fn new(key_signature: Option<&String>) -> (t: Self)
        ensures
            t.wf(),
            t@ == initial_table(key_signature),
    {
        let (sharps, flats) = match key_signature {
            Some(key) => {
                let upper = to_uppercase(key.as_str());
                key_counts(upper.as_str())
            },
            None => (0, 0),
        };
        let mut notes: Vec<Option<String>> = Vec::new();
        let mut i: usize = 0;
        while i < 7
            invariant
                i <= 7,
                notes@.len() == i,
                forall|j: int| 0 <= j < i ==> #[trigger] opt_string_view(notes@[j]) == initial_table(key_signature)[j],
                match key_signature {
                    Some(k) => sharps == key_sharps(unicode_uppercase(k@)) && flats == key_flats(unicode_uppercase(k@)),
                    None => sharps == 0 && flats == 0,
                },
            decreases 7 - i,
        {
            let entry = if sharp_rank_of(i) < sharps {
                Some("#".to_owned())
            } else if flat_rank_of(i) < flats {
                Some("b".to_owned())
            } else {
                None
            };
            notes.push(entry);
            i = i + 1;
        }
        let t = NoteAccidentalTable { notes };
        assert(t@ =~= initial_table(key_signature));
        t
    }

    /// Restores the key signature's state at a bar line.
    pub fn reset_for_new_bar(&mut self, key_signature: Option<&String>)
        ensures
            final(self).wf(),
            final(self)@ == initial_table(key_signature),
    {
        *self = Self::new(key_signature);
    }

    /// Writes a note and says whether an accidental must be drawn for it, and
    /// which: see `check_note` (the letter is compared in lower case).
    pub fn check_and_update_note(&mut self, note_letter: &str, desired_accidental: Option<&str>) -> (r: (bool, Option<String>))
        requires
            old(self).wf(),
        ensures
            final(self).wf(),
            (final(self)@, (r.0, opt_string_view(r.1)))
                == check_note(old(self)@, unicode_lowercase(note_letter@), opt_str_view(desired_accidental)),
    {
        let lower = to_lowercase(note_letter);
        let note_index = match letter_slot_of(lower.as_str()) {
            Some(i) => i,
            None => return (false, None),
        };
        if opt_matches(&self.notes[note_index], desired_accidental) {
            return (false, None);
        }
        let desired: Option<String> = match desired_accidental {
            Some(s) => Some(s.to_owned()),
            None => None,
        };
        let shown = match desired_accidental {
            Some(s) => s.to_owned(),
            None => "n".to_owned(),
        };
        let ghost before = self@;
        self.notes.set(note_index, desired);
        assert(self@ =~= before.update(note_index as int, opt_str_view(desired_accidental)));
        (true, Some(shown))
    }
}

/// Writing the same note twice draws nothing the second time and leaves the
/// table as the first write left it.
pub proof fn lemma_check_note_idempotent(t: Seq<Option<Seq<char>>>, letter: Seq<char>, desired: Option<Seq<char>>)
    requires
        t.len() == 7,
    ensures
        check_note(check_note(t, letter, desired).0, letter, desired)
            == (check_note(t, letter, desired).0, (false, None::<Seq<char>>)),
{
}

/// After a write the table holds the written accidental for that note and
/// leaves every other note as it was.
pub proof fn lemma_check_note_records(t: Seq<Option<Seq<char>>>, letter: Seq<char>, desired: Option<Seq<char>>)
    requires
        t.len() == 7,
        letter_slot(letter) is Some,
    ensures
        check_note(t, letter, desired).0.len() == 7,
        check_note(t, letter, desired).0[letter_slot(letter).unwrap()] == desired,
        forall|j: int| 0 <= j < 7 && j != letter_slot(letter).unwrap()
            ==> #[trigger] check_note(t, letter, desired).0[j] == t[j],
{
}

/// An accidental is drawn exactly when the note's state in the bar differs
/// from the one written; the state written is then what is drawn (a natural as "n").
pub proof fn lemma_check_note_draws_iff_changed(t: Seq<Option<Seq<char>>>, letter: Seq<char>, desired: Option<Seq<char>>)
    requires
        t.len() == 7,
        letter_slot(letter) is Some,
    ensures
        check_note(t, letter, desired).1.0 <==> t[letter_slot(letter).unwrap()] != desired,
{
}

/// At the start of a bar, a note written with the key signature's own
/// accidental needs none drawn.
pub proof fn lemma_key_signature_note_needs_no_accidental(key: Option<&String>, letter: Seq<char>)
    requires
        letter_slot(letter) is Some,
    ensures
        check_note(initial_table(key), letter, initial_table(key)[letter_slot(letter).unwrap()]).1
            == (false, None::<Seq<char>>),
{
}

// ---------------------------------------------------------------------------
// Transposition tables

/// Letter and accidental for a scale degree moved into an upper-case key, as
/// the key's table lists them; `None` where the table has no entry.
pub open spec fn transposition_entry(key: Seq<char>, p: PitchCode) -> Option<(Seq<char>, Option<Seq<char>>)> {
    if key == "D"@ {
        match p {
            Degree::N1 => Some(("d"@, None)),
            Degree::N1s => Some(("d"@, Some("#"@))),
            Degree::N1b => Some(("d"@, Some("b"@))),
            Degree::N2 => Some(("e"@, None)),
            Degree::N2s => Some(("f"@, None)),
            Degree::N2b => Some(("e"@, Some("b"@))),
            Degree::N3 => Some(("f"@, None)),
            Degree::N3s => Some(("g"@, None)),
            Degree::N3b => Some(("f"@, Some("n"@))),
            Degree::N4 => Some(("g"@, None)),
            Degree::N4s => Some(("a"@, None)),
            Degree::N4b => Some(("g"@, Some("b"@))),
            Degree::N5 => Some(("a"@, None)),
            Degree::N5s => Some(("a"@, Some("#"@))),
            Degree::N5b => Some(("a"@, Some("b"@))),
            Degree::N6 => Some(("b"@, None)),
            Degree::N6s => Some(("c"@, None)),
            Degree::N6b => Some(("b"@, Some("b"@))),
            Degree::N7 => Some(("c"@, None)),
            Degree::N7s => Some(("d"@, None)),
            Degree::N7b => Some(("c"@, Some("n"@))),
            _ => None,
        }
    } else if key == "G"@ {
        match p {
            Degree::N1 => Some(("g"@, None)),
            Degree::N1s => Some(("g"@, Some("#"@))),
            Degree::N2 => Some(("a"@, None)),
            Degree::N2b => Some(("a"@, Some("b"@))),
            Degree::N3 => Some(("b"@, None)),
            Degree::N4 => Some(("c"@, None)),
            Degree::N4s => Some(("c"@, Some("#"@))),
            Degree::N5 => Some(("d"@, None)),
            Degree::N6 => Some(("e"@, None)),
            Degree::N7 => Some(("f"@, Some("#"@))),
            Degree::N7b => Some(("f"@, None)),
            _ => None,
        }
    } else if key == "F"@ {
        match p {
            Degree::N1 => Some(("f"@, None)),
            Degree::N2 => Some(("g"@, None)),
            Degree::N3 => Some(("a"@, None)),
            Degree::N4 => Some(("b"@, Some("b"@))),
            Degree::N4s => Some(("b"@, None)),
            Degree::N5 => Some(("c"@, None)),
            Degree::N6 => Some(("d"@, None)),
            Degree::N7 => Some(("e"@, None)),
            Degree::N7b => Some(("e"@, Some("b"@))),
            _ => None,
        }
    } else if key == "BB"@ {
        match p {
            Degree::N1 => Some(("b"@, Some("b"@))),
            Degree::N2 => Some(("c"@, None)),
            Degree::N3 => Some(("d"@, None)),
            Degree::N4 => Some(("e"@, Some("b"@))),
            Degree::N4s => Some(("e"@, None)),
            Degree::N5 => Some(("f"@, None)),
            Degree::N6 => Some(("g"@, None)),
            Degree::N7 => Some(("a"@, None)),
            _ => None,
        }
    } else if key == "A"@ {
        match p {
            Degree::N1 => Some(("a"@, None)),
            Degree::N2 => Some(("b"@, None)),
            Degree::N3 => Some(("c"@, Some("#"@))),
            Degree::N4 => Some(("d"@, None)),
            Degree::N4s => Some(("d"@, Some("#"@))),
            Degree::N5 => Some(("e"@, None)),
            Degree::N6 => Some(("f"@, Some("#"@))),
            Degree::N7 => Some(("g"@, Some("#"@))),
            _ => None,
        }
    } else if key == "E"@ {
        match p {
            Degree::N1 => Some(("e"@, None)),
            Degree::N2 => Some(("f"@, Some("#"@))),
            Degree::N3 => Some(("g"@, Some("#"@))),
            Degree::N4 => Some(("a"@, None)),
            Degree::N4s => Some(("a"@, Some("#"@))),
            Degree::N5 => Some(("b"@, None)),
            Degree::N6 => Some(("c"@, Some("#"@))),
            Degree::N7 => Some(("d"@, Some("#"@))),
            _ => None,
        }
    } else if key == "B"@ {
        match p {
            Degree::N1 => Some(("b"@, None)),
            Degree::N2 => Some(("c"@, Some("#"@))),
            Degree::N3 => Some(("d"@, Some("#"@))),
            Degree::N4 => Some(("e"@, None)),
            Degree::N4s => Some(("f"@, None)),
            Degree::N5 => Some(("f"@, Some("#"@))),
            Degree::N6 => Some(("g"@, Some("#"@))),
            Degree::N7 => Some(("a"@, Some("#"@))),
            _ => None,
        }
    } else if key == "EB"@ {
        match p {
            Degree::N1 => Some(("e"@, Some("b"@))),
            Degree::N2 => Some(("f"@, None)),
            Degree::N3 => Some(("g"@, None)),
            Degree::N4 => Some(("a"@, Some("b"@))),
            Degree::N4s => Some(("a"@, None)),
            Degree::N5 => Some(("b"@, Some("b"@))),
            Degree::N6 => Some(("c"@, None)),
            Degree::N7 => Some(("d"@, None)),
            _ => None,
        }
    } else if key == "AB"@ {
        match p {
            Degree::N1 => Some(("a"@, Some("b"@))),
            Degree::N2 => Some(("b"@, Some("b"@))),
            Degree::N3 => Some(("c"@, None)),
            Degree::N4 => Some(("d"@, Some("b"@))),
            Degree::N4s => Some(("d"@, None)),
            Degree::N5 => Some(("e"@, Some("b"@))),
            Degree::N6 => Some(("f"@, None)),
            Degree::N7 => Some(("g"@, None)),
            _ => None,
        }
    } else {
        None
    }
}

/// The table entry, computed.
fn transposition_entry_of(key: &str, p: PitchCode) -> (r: Option<(String, Option<String>)>)
    ensures
        match r {
            Some(e) => transposition_entry(key@, p) == Some((e.0@, opt_string_view(e.1))),
            None => transposition_entry(key@, p) is None,
        },
{
    if str_eq(key, "D") {
        match p {
            Degree::N1 => Some(("d".to_owned(), None)),
            Degree::N1s => Some(("d".to_owned(), Some("#".to_owned()))),
            Degree::N1b => Some(("d".to_owned(), Some("b".to_owned()))),
            Degree::N2 => Some(("e".to_owned(), None)),
            Degree::N2s => Some(("f".to_owned(), None)),
            Degree::N2b => Some(("e".to_owned(), Some("b".to_owned()))),
            Degree::N3 => Some(("f".to_owned(), None)),
            Degree::N3s => Some(("g".to_owned(), None)),
            Degree::N3b => Some(("f".to_owned(), Some("n".to_owned()))),
            Degree::N4 => Some(("g".to_owned(), None)),
            Degree::N4s => Some(("a".to_owned(), None)),
            Degree::N4b => Some(("g".to_owned(), Some("b".to_owned()))),
            Degree::N5 => Some(("a".to_owned(), None)),
            Degree::N5s => Some(("a".to_owned(), Some("#".to_owned()))),
            Degree::N5b => Some(("a".to_owned(), Some("b".to_owned()))),
            Degree::N6 => Some(("b".to_owned(), None)),
            Degree::N6s => Some(("c".to_owned(), None)),
            Degree::N6b => Some(("b".to_owned(), Some("b".to_owned()))),
            Degree::N7 => Some(("c".to_owned(), None)),
            Degree::N7s => Some(("d".to_owned(), None)),
            Degree::N7b => Some(("c".to_owned(), Some("n".to_owned()))),
            _ => None,
        }
    } else if str_eq(key, "G") {
        match p {
            Degree::N1 => Some(("g".to_owned(), None)),
            Degree::N1s => Some(("g".to_owned(), Some("#".to_owned()))),
            Degree::N2 => Some(("a".to_owned(), None)),
            Degree::N2b => Some(("a".to_owned(), Some("b".to_owned()))),
            Degree::N3 => Some(("b".to_owned(), None)),
            Degree::N4 => Some(("c".to_owned(), None)),
            Degree::N4s => Some(("c".to_owned(), Some("#".to_owned()))),
            Degree::N5 => Some(("d".to_owned(), None)),
            Degree::N6 => Some(("e".to_owned(), None)),
            Degree::N7 => Some(("f".to_owned(), Some("#".to_owned()))),
            Degree::N7b => Some(("f".to_owned(), None)),
            _ => None,
        }
    } else if str_eq(key, "F") {
        match p {
            Degree::N1 => Some(("f".to_owned(), None)),
            Degree::N2 => Some(("g".to_owned(), None)),
            Degree::N3 => Some(("a".to_owned(), None)),
            Degree::N4 => Some(("b".to_owned(), Some("b".to_owned()))),
            Degree::N4s => Some(("b".to_owned(), None)),
            Degree::N5 => Some(("c".to_owned(), None)),
            Degree::N6 => Some(("d".to_owned(), None)),
            Degree::N7 => Some(("e".to_owned(), None)),
            Degree::N7b => Some(("e".to_owned(), Some("b".to_owned()))),
            _ => None,
        }
    } else if str_eq(key, "BB") {
        match p {
            Degree::N1 => Some(("b".to_owned(), Some("b".to_owned()))),
            Degree::N2 => Some(("c".to_owned(), None)),
            Degree::N3 => Some(("d".to_owned(), None)),
            Degree::N4 => Some(("e".to_owned(), Some("b".to_owned()))),
            Degree::N4s => Some(("e".to_owned(), None)),
            Degree::N5 => Some(("f".to_owned(), None)),
            Degree::N6 => Some(("g".to_owned(), None)),
            Degree::N7 => Some(("a".to_owned(), None)),
            _ => None,
        }
    } else if str_eq(key, "A") {
        match p {
            Degree::N1 => Some(("a".to_owned(), None)),
            Degree::N2 => Some(("b".to_owned(), None)),
            Degree::N3 => Some(("c".to_owned(), Some("#".to_owned()))),
            Degree::N4 => Some(("d".to_owned(), None)),
            Degree::N4s => Some(("d".to_owned(), Some("#".to_owned()))),
            Degree::N5 => Some(("e".to_owned(), None)),
            Degree::N6 => Some(("f".to_owned(), Some("#".to_owned()))),
            Degree::N7 => Some(("g".to_owned(), Some("#".to_owned()))),
            _ => None,
        }
    } else if str_eq(key, "E") {
        match p {
            Degree::N1 => Some(("e".to_owned(), None)),
            Degree::N2 => Some(("f".to_owned(), Some("#".to_owned()))),
            Degree::N3 => Some(("g".to_owned(), Some("#".to_owned()))),
            Degree::N4 => Some(("a".to_owned(), None)),
            Degree::N4s => Some(("a".to_owned(), Some("#".to_owned()))),
            Degree::N5 => Some(("b".to_owned(), None)),
            Degree::N6 => Some(("c".to_owned(), Some("#".to_owned()))),
            Degree::N7 => Some(("d".to_owned(), Some("#".to_owned()))),
            _ => None,
        }
    } else if str_eq(key, "B") {
        match p {
            Degree::N1 => Some(("b".to_owned(), None)),
            Degree::N2 => Some(("c".to_owned(), Some("#".to_owned()))),
            Degree::N3 => Some(("d".to_owned(), Some("#".to_owned()))),
            Degree::N4 => Some(("e".to_owned(), None)),
            Degree::N4s => Some(("f".to_owned(), None)),
            Degree::N5 => Some(("f".to_owned(), Some("#".to_owned()))),
            Degree::N6 => Some(("g".to_owned(), Some("#".to_owned()))),
            Degree::N7 => Some(("a".to_owned(), Some("#".to_owned()))),
            _ => None,
        }
    } else if str_eq(key, "EB") {
        match p {
            Degree::N1 => Some(("e".to_owned(), Some("b".to_owned()))),
            Degree::N2 => Some(("f".to_owned(), None)),
            Degree::N3 => Some(("g".to_owned(), None)),
            Degree::N4 => Some(("a".to_owned(), Some("b".to_owned()))),
            Degree::N4s => Some(("a".to_owned(), None)),
            Degree::N5 => Some(("b".to_owned(), Some("b".to_owned()))),
            Degree::N6 => Some(("c".to_owned(), None)),
            Degree::N7 => Some(("d".to_owned(), None)),
            _ => None,
        }
    } else if str_eq(key, "AB") {
        match p {
            Degree::N1 => Some(("a".to_owned(), Some("b".to_owned()))),
            Degree::N2 => Some(("b".to_owned(), Some("b".to_owned()))),
            Degree::N3 => Some(("c".to_owned(), None)),
            Degree::N4 => Some(("d".to_owned(), Some("b".to_owned()))),
            Degree::N4s => Some(("d".to_owned(), None)),
            Degree::N5 => Some(("e".to_owned(), Some("b".to_owned()))),
            Degree::N6 => Some(("f".to_owned(), None)),
            Degree::N7 => Some(("g".to_owned(), None)),
            _ => None,
        }
    } else {
        None
    }
}

/// Note letter of a scale step (0 = C .. 6 = B).
pub open spec fn step_letter(step: int) -> Seq<char> {
    if step == 0 { "c"@ } else if step == 1 { "d"@ } else if step == 2 { "e"@ } else if step == 3 { "f"@ }
    else if step == 4 { "g"@ } else if step == 5 { "a"@ } else { "b"@ }
}

/// English note-name suffix of a chromatic alteration: `s` per sharp, `f` per flat.
pub open spec fn english_suffix(alteration: int) -> Seq<char> {
    if alteration == -2 { "ff"@ } else if alteration == -1 { "f"@ } else if alteration == 1 { "s"@ }
    else if alteration == 2 { "ss"@ } else { ""@ }
}

/// English note name of a pitch code: degree 1 is C, degree 2 D and so on,
/// with the alteration as suffix (`cs`, `bf`, `fss`).
pub open spec fn english_name(p: PitchCode) -> Seq<char> {
    step_letter(degree_step(p)) + english_suffix(degree_alteration(p))
}

/// VexFlow accidental of an English suffix: `#`, `##`, `b`, `bb`, or none.
pub open spec fn suffix_accidental(suffix: Seq<char>) -> Option<Seq<char>> {
    if suffix == "s"@ { Some("#"@) } else if suffix == "ss"@ { Some("##"@) }
    else if suffix == "f"@ { Some("b"@) } else if suffix == "ff"@ { Some("bb"@) } else { None }
}

/// Letter and accidental of a pitch code without transposition.
pub open spec fn pitch_components(p: PitchCode) -> (Seq<char>, Option<Seq<char>>) {
    (step_letter(degree_step(p)), suffix_accidental(english_suffix(degree_alteration(p))))
}

/// Letter and accidental of a pitch code written in a key: no key or C keeps
/// the pitch as written; other keys take their table's entry, falling back to
/// the pitch as written.
pub open spec fn transposed_pitch(p: PitchCode, key: Option<&String>) -> (Seq<char>, Option<Seq<char>>) {
    match key {
        None => pitch_components(p),
        Some(k) => {
            let u = unicode_uppercase(k@);
            if u == "C"@ { pitch_components(p) } else {
                match transposition_entry(u, p) {
                    Some(e) => e,
                    None => pitch_components(p),
                }
            }
        },
    }
}

/// English note name of a pitch code.
fn english_note_name(p: PitchCode) -> (r: String)
    ensures
        r@ == english_name(p),
{
    let letter = match p {
        Degree::N1bb | Degree::N1b | Degree::N1 | Degree::N1s | Degree::N1ss => "c",
        Degree::N2bb | Degree::N2b | Degree::N2 | Degree::N2s | Degree::N2ss => "d",
        Degree::N3bb | Degree::N3b | Degree::N3 | Degree::N3s | Degree::N3ss => "e",
        Degree::N4bb | Degree::N4b | Degree::N4 | Degree::N4s | Degree::N4ss => "f",
        Degree::N5bb | Degree::N5b | Degree::N5 | Degree::N5s | Degree::N5ss => "g",
        Degree::N6bb | Degree::N6b | Degree::N6 | Degree::N6s | Degree::N6ss => "a",
        Degree::N7bb | Degree::N7b | Degree::N7 | Degree::N7s | Degree::N7ss => "b",
    };
    let suffix = match p {
        Degree::N1bb | Degree::N2bb | Degree::N3bb | Degree::N4bb | Degree::N5bb | Degree::N6bb | Degree::N7bb => "ff",
        Degree::N1b | Degree::N2b | Degree::N3b | Degree::N4b | Degree::N5b | Degree::N6b | Degree::N7b => "f",
        Degree::N1 | Degree::N2 | Degree::N3 | Degree::N4 | Degree::N5 | Degree::N6 | Degree::N7 => "",
        Degree::N1s | Degree::N2s | Degree::N3s | Degree::N4s | Degree::N5s | Degree::N6s | Degree::N7s => "s",
        Degree::N1ss | Degree::N2ss | Degree::N3ss | Degree::N4ss | Degree::N5ss | Degree::N6ss | Degree::N7ss => "ss",
    };
    let mut r = letter.to_owned();
    r.append(suffix);
    r
}

/// Splits a note name into its first character and the rest; an empty name
/// gives C with nothing after it.
pub fn parse_lilypond_note(note: &str) -> (r: (String, String))
    requires
        note@.len() > 0 ==> (note@[0] as u32) < 128,
    ensures
        note@.len() == 0 ==> r.0@ == "c"@ && r.1@.len() == 0,
        note@.len() > 0 ==> r.0@ == note@.take(1) && r.1@ == note@.skip(1),
{
    let n = note.unicode_len();
    if n == 0 {
        return ("c".to_owned(), String::new());
    }
    let first = note.substring_char(0, 1).to_owned();
    let rest = note.substring_char(1, n).to_owned();
    proof {
        assert(note@.subrange(0, 1) =~= note@.take(1));
        assert(note@.subrange(1, n as int) =~= note@.skip(1));
    }
    (first, rest)
}

fn suffix_to_accidental(suffix: &str) -> (r: Option<String>)
    ensures
        opt_string_view(r) == suffix_accidental(suffix@),
{
    if str_eq(suffix, "s") { Some("#".to_owned()) } else if str_eq(suffix, "ss") { Some("##".to_owned()) }
    else if str_eq(suffix, "f") { Some("b".to_owned()) } else if str_eq(suffix, "ff") { Some("bb".to_owned()) }
    else { None }
}

proof fn lemma_english_name_split(p: PitchCode)
    ensures
        english_name(p).len() > 0,
        (english_name(p)[0] as u32) < 128,
        english_name(p).take(1) == step_letter(degree_step(p)),
        english_name(p).skip(1) == english_suffix(degree_alteration(p)),
{
    reveal_strlit("c"); reveal_strlit("d"); reveal_strlit("e"); reveal_strlit("f");
    reveal_strlit("g"); reveal_strlit("a"); reveal_strlit("b");
    reveal_strlit("ff"); reveal_strlit("s"); reveal_strlit("ss"); reveal_strlit("");
    let l = step_letter(degree_step(p));
    let s = english_suffix(degree_alteration(p));
    assert(l.len() == 1);
    assert((l + s).take(1) =~= l);
    assert((l + s).skip(1) =~= s);
}

/// Letter and accidental of a pitch code as written (no transposition).
fn pitch_to_vexflow_components(pitch_code: PitchCode) -> (r: (String, Option<String>))
    ensures
        (r.0@, opt_string_view(r.1)) == pitch_components(pitch_code),
{
    let base_note = english_note_name(pitch_code);
    proof { lemma_english_name_split(pitch_code); }
    let (note_letter, accidental_str) = parse_lilypond_note(base_note.as_str());
    let accidental = suffix_to_accidental(accidental_str.as_str());
    (note_letter, accidental)
}

/// Letter and accidental of a pitch code written in `key` (see `transposed_pitch`).
pub fn get_transposed_vexflow_pitch(pitch_code: PitchCode, key: Option<&String>) -> (r: (String, Option<String>))
    ensures
        (r.0@, opt_string_view(r.1)) == transposed_pitch(pitch_code, key),
{
    let key_str = match key {
        None => return pitch_to_vexflow_components(pitch_code),
        Some(k) => to_uppercase(k.as_str()),
    };
    if str_eq(key_str.as_str(), "C") {
        return pitch_to_vexflow_components(pitch_code);
    }
    match transposition_entry_of(key_str.as_str(), pitch_code) {
        Some(e) => e,
        None => pitch_to_vexflow_components(pitch_code),
    }
}


// ---------------------------------------------------------------------------
// Keys, beams and ties

/// VexFlow octave number of a relative octave (0 is the octave of middle C,
/// VexFlow's 4); octaves beyond two steps fall back to 4.
pub open spec fn vexflow_octave(octave: i8) -> int {
    if octave == -2 { 2 } else if octave == -1 { 3 } else if octave == 0 { 4 }
    else if octave == 1 { 5 } else if octave == 2 { 6 } else { 4 }
}

fn vexflow_octave_of(octave: i8) -> (r: i64)
    ensures
        r == vexflow_octave(octave),
{
    if octave == -2 { 2 } else if octave == -1 { 3 } else if octave == 0 { 4 }
    else if octave == 1 { 5 } else if octave == 2 { 6 } else { 4 }
}

/// VexFlow key (`letter/octave`) and accidental of a pitch code as written;
/// a missing octave is the middle one.
pub fn pitch_to_vexflow_key(pitch_code: PitchCode, octave: Option<i8>) -> (r: Result<(String, Option<String>), String>)
    ensures
        r matches Ok(v) && v.0@ == pitch_components(pitch_code).0 + seq!['/']
            + int_decimal(vexflow_octave(match octave { Some(o) => o, None => 0i8 }))
            && opt_string_view(v.1) == pitch_components(pitch_code).1,
{
    let base_note = english_note_name(pitch_code);
    proof { lemma_english_name_split(pitch_code); }
    let (note_letter, accidental) = parse_lilypond_note(base_note.as_str());
    let o = match octave { Some(o) => o, None => 0 };
    let mut key = note_letter;
    push_char(&mut key, '/');
    let digits = i64_to_string(vexflow_octave_of(o));
    key.append(digits.as_str());
    let vexflow_accidental = suffix_to_accidental(accidental.as_str());
    Ok((key, vexflow_accidental))
}

/// Whether an element takes part in beaming: notes of an eighth or shorter,
/// and inside tuplets also quarter notes.
pub open spec fn is_beamable(e: VexFlowElement, in_tuplet: bool) -> bool {
    match e {
        VexFlowElement::Note { duration, .. } => {
            let d = duration@;
            d == "8"@ || d == "16"@ || d == "32"@ || (in_tuplet && d == "q"@)
        },
        _ => false,
    }
}

/// The beamability of each element.
pub open spec fn beamable_flags(s: Seq<VexFlowElement>, in_tuplet: bool) -> Seq<bool> {
    Seq::new(s.len(), |i: int| is_beamable(s[i], in_tuplet))
}

/// A note with its beam flags set; other elements are unchanged.
pub open spec fn with_beam(e: VexFlowElement, starts: bool, ends: bool) -> VexFlowElement {
    match e {
        VexFlowElement::Note { keys, duration, dots, accidentals, tied, original_duration, beam_start: _, beam_end: _, syl } =>
            VexFlowElement::Note { keys, duration, dots, accidentals, tied, original_duration, beam_start: starts, beam_end: ends, syl },
        _ => e,
    }
}

/// A note marked as tied to the next one; other elements are unchanged.
pub open spec fn with_tie(e: VexFlowElement) -> VexFlowElement {
    match e {
        VexFlowElement::Note { keys, duration, dots, accidentals, tied: _, original_duration, beam_start, beam_end, syl } =>
            VexFlowElement::Note { keys, duration, dots, accidentals, tied: true, original_duration, beam_start, beam_end, syl },
        _ => e,
    }
}

fn set_beam_flags(elements: &mut Vec<VexFlowElement>, i: usize, starts: bool, ends: bool)
    requires
        i < old(elements)@.len(),
    ensures
        final(elements)@ == old(elements)@.update(i as int, with_beam(old(elements)@[i as int], starts, ends)),
{
    match &mut elements[i] {
        VexFlowElement::Note { beam_start, beam_end, .. } => {
            *beam_start = starts;
            *beam_end = ends;
        },
        _ => {},
    }
}

fn set_tied(elements: &mut Vec<VexFlowElement>, i: usize)
    requires
        i < old(elements)@.len(),
    ensures
        final(elements)@ == old(elements)@.update(i as int, with_tie(old(elements)@[i as int])),
{
    match &mut elements[i] {
        VexFlowElement::Note { tied, .. } => {
            *tied = true;
        },
        _ => {},
    }
}

fn duration_is_beamable(duration: &String, in_tuplet: bool) -> (r: bool)
    ensures
        r == (duration@ == "8"@ || duration@ == "16"@ || duration@ == "32"@ || (in_tuplet && duration@ == "q"@)),
{
    let d = duration.as_str();
    str_eq(d, "8") || str_eq(d, "16") || str_eq(d, "32") || (in_tuplet && str_eq(d, "q"))
}

fn beamable_vec(elements: &Vec<VexFlowElement>, in_tuplet: bool) -> (b: Vec<bool>)
    ensures
        b@ == beamable_flags(elements@, in_tuplet),
{
    let mut b: Vec<bool> = Vec::new();
    let mut i: usize = 0;
    while i < elements.len()
        invariant
            i <= elements@.len(),
            b@ == beamable_flags(elements@, in_tuplet).take(i as int),
        decreases elements@.len() - i,
    {
        let flag = match &elements[i] {
            VexFlowElement::Note { duration, .. } => duration_is_beamable(duration, in_tuplet),
            _ => false,
        };
        b.push(flag);
        i = i + 1;
        assert(b@ =~= beamable_flags(elements@, in_tuplet).take(i as int));
    }
    assert(b@ =~= beamable_flags(elements@, in_tuplet));
    b
}

/// Beams every maximal run of at least two beamable notes of a beat: the
/// first note of a run starts the beam and the last ends it. Other elements
/// are unchanged.
pub fn apply_vexflow_beaming(elements: &mut Vec<VexFlowElement>, is_tuplet: bool)
    ensures
        final(elements)@.len() == old(elements)@.len(),
        forall|i: int| 0 <= i < old(elements)@.len() ==> #[trigger] final(elements)@[i] == match beam_role(beamable_flags(old(elements)@, is_tuplet), i) {
            Some(role) => with_beam(old(elements)@[i], role.0, role.1),
            None => old(elements)@[i],
        },
{
    let ghost before = elements@;
    let flags = beamable_vec(elements, is_tuplet);
    let roles = beam_roles(&flags);
    let mut i: usize = 0;
    while i < roles.len()
        invariant
            roles@.len() == before.len(),
            flags@ == beamable_flags(before, is_tuplet),
            forall|j: int| 0 <= j < before.len() ==> #[trigger] roles@[j] == beam_role(flags@, j),
            i <= roles@.len(),
            elements@.len() == before.len(),
            forall|j: int| i <= j < before.len() ==> elements@[j] == before[j],
            forall|j: int| 0 <= j < i ==> #[trigger] elements@[j] == match beam_role(flags@, j) {
                Some(role) => with_beam(before[j], role.0, role.1),
                None => before[j],
            },
        decreases roles@.len() - i,
    {
        if let Some((starts, ends)) = roles[i] {
            set_beam_flags(elements, i, starts, ends);
        }
        i = i + 1;
    }
}

/// Sets the beam flags of the notes at `start..=end`: the note at `start`
/// starts the beam and the one at `end` ends it. Other elements are unchanged.
pub fn apply_beam_to_range(elements: &mut Vec<VexFlowElement>, start: usize, end: usize)
    ensures
        final(elements)@.len() == old(elements)@.len(),
        forall|i: int| 0 <= i < old(elements)@.len() ==> #[trigger] final(elements)@[i] ==
            if start <= i <= end { with_beam(old(elements)@[i], i == start, i == end) } else { old(elements)@[i] },
{
    let ghost before = elements@;
    let mut i: usize = 0;
    while i < elements.len()
        invariant
            elements@.len() == before.len(),
            i <= before.len(),
            forall|j: int| i <= j < before.len() ==> elements@[j] == before[j],
            forall|j: int| 0 <= j < i ==> #[trigger] elements@[j] ==
                if start <= j <= end { with_beam(before[j], j == start, j == end) } else { before[j] },
        decreases before.len() - i,
    {
        if i >= start && i <= end {
            set_beam_flags(elements, i, i == start, i == end);
        }
        i = i + 1;
    }
}

/// Whether two elements are notes with the same keys.
pub open spec fn same_keys(a: VexFlowElement, b: VexFlowElement) -> bool {
    match (a, b) {
        (VexFlowElement::Note { keys: k1, .. }, VexFlowElement::Note { keys: k2, .. }) =>
            string_views(k1@) == string_views(k2@),
        _ => false,
    }
}

fn strings_equal(a: &Vec<String>, b: &Vec<String>) -> (r: bool)
    ensures
        r == (string_views(a@) == string_views(b@)),
{
    if a.len() != b.len() {
        proof { assert(string_views(a@).len() != string_views(b@).len()); }
        return false;
    }
    let mut i: usize = 0;
    while i < a.len()
        invariant
            a@.len() == b@.len(),
            i <= a@.len(),
            forall|j: int| 0 <= j < i ==> a@[j]@ == b@[j]@,
        decreases a@.len() - i,
    {
        if !str_eq(a[i].as_str(), b[i].as_str()) {
            proof { assert(string_views(a@)[i as int] != string_views(b@)[i as int]); }
            return false;
        }
        i = i + 1;
    }
    assert(string_views(a@) =~= string_views(b@));
    true
}

fn keys_match(a: &VexFlowElement, b: &VexFlowElement) -> (r: bool)
    ensures
        r == same_keys(*a, *b),
{
    match (a, b) {
        (VexFlowElement::Note { keys: k1, .. }, VexFlowElement::Note { keys: k2, .. }) => strings_equal(k1, k2),
        _ => false,
    }
}

/// Ties each note to the next element when that is a note with the same keys.
pub fn apply_tie_detection(elements: &mut Vec<VexFlowElement>)
    ensures
        final(elements)@.len() == old(elements)@.len(),
        forall|i: int| 0 <= i < old(elements)@.len() ==> #[trigger] final(elements)@[i] ==
            if i + 1 < old(elements)@.len() && same_keys(old(elements)@[i], old(elements)@[i + 1]) {
                with_tie(old(elements)@[i])
            } else {
                old(elements)@[i]
            },
{
    let ghost before = elements@;
    let n = elements.len();
    if n < 2 {
        return;
    }
    let mut i: usize = 0;
    while i < n - 1
        invariant
            n == before.len(),
            n >= 2,
            elements@.len() == n,
            i <= n - 1,
            forall|j: int| i <= j < n ==> elements@[j] == before[j],
            forall|j: int| 0 <= j < i ==> #[trigger] elements@[j] ==
                if j + 1 < n && same_keys(before[j], before[j + 1]) { with_tie(before[j]) } else { before[j] },
        decreases n - 1 - i,
    {
        let should_tie = keys_match(&elements[i], &elements[i + 1]);
        if should_tie {
            set_tied(elements, i);
        }
        i = i + 1;
    }
}

/// Whether `i` is the first position of `c` in `s`.
pub open spec fn is_first(s: Seq<char>, c: char, i: int) -> bool {
    0 <= i < s.len() && s[i] == c && forall|j: int| 0 <= j < i ==> s[j] != c
}

fn find_char(s: &str, c: char) -> (r: Option<usize>)
    ensures
        match r { Some(i) => is_first(s@, c, i as int), None => !s@.contains(c) },
{
    let n = s.unicode_len();
    let mut i: usize = 0;
    while i < n
        invariant
            n == s@.len(),
            i <= n,
            forall|j: int| 0 <= j < i ==> s@[j] != c,
        decreases n - i,
    {
        if s.get_char(i) == c {
            return Some(i);
        }
        i = i + 1;
    }
    proof {
        assert forall|j: int| 0 <= j < s@.len() implies s@[j] != c by {}
    }
    None
}

/// The text between the first `[` and the first `]` of a node value such as
/// `S[1/16]`, or `1/1` when either bracket is missing.
pub fn extract_duration_from_value(value: &str) -> (r: &str)
    requires
        forall|a: int, b: int| is_first(value@, '[', a) && is_first(value@, ']', b) ==> a < b,
    ensures
        forall|a: int, b: int| is_first(value@, '[', a) && is_first(value@, ']', b) ==> r@ == value@.subrange(a + 1, b),
        (!value@.contains('[') || !value@.contains(']')) ==> r@ == "1/1"@,
{
    if let Some(start) = find_char(value, '[') {
        if let Some(end) = find_char(value, ']') {
            proof {
                assert forall|a: int, b: int| is_first(value@, '[', a) && is_first(value@, ']', b)
                    implies a == start && b == end by {
                    if a < start { assert(value@[a] == '['); }
                    if start < a { assert(value@[start as int] == '['); }
                    if b < end { assert(value@[b] == ']'); }
                    if end < b { assert(value@[end as int] == ']'); }
                }
                assert(is_first(value@, '[', start as int) && is_first(value@, ']', end as int));
            }
            return value.substring_char(start + 1, end);
        }
    }
    "1/1"
}


/// The duration of a note, or of note `note_idx` of a tuplet.
pub open spec fn note_duration_at(e: VexFlowElement, note_idx: int) -> Option<Seq<char>> {
    match e {
        VexFlowElement::Note { duration, .. } => Some(duration@),
        VexFlowElement::Tuplet { notes, .. } =>
            if 0 <= note_idx < notes@.len() {
                match notes@[note_idx] {
                    VexFlowElement::Note { duration, .. } => Some(duration@),
                    _ => None,
                }
            } else {
                None
            },
        _ => None,
    }
}

/// The duration of a note, or of note `note_idx` of a tuplet.
pub fn get_note_duration(element: &VexFlowElement, note_idx: usize) -> (r: Option<String>)
    ensures
        match r {
            Some(d) => note_duration_at(*element, note_idx as int) == Some(d@),
            None => note_duration_at(*element, note_idx as int) is None,
        },
{
    match element {
        VexFlowElement::Note { duration, .. } => Some(copy_string(duration)),
        VexFlowElement::Tuplet { notes, .. } => {
            if note_idx < notes.len() {
                match &notes[note_idx] {
                    VexFlowElement::Note { duration, .. } => Some(copy_string(duration)),
                    _ => None,
                }
            } else {
                None
            }
        },
        _ => None,
    }
}

/// The keys of a note.
pub open spec fn note_keys_opt(e: VexFlowElement) -> Option<Seq<Seq<char>>> {
    match e {
        VexFlowElement::Note { keys, .. } => Some(string_views(keys@)),
        _ => None,
    }
}

/// The keys of a note, or of note `j` of a tuplet.
pub open spec fn elem_keys(e: VexFlowElement, j: int) -> Option<Seq<Seq<char>>> {
    match e {
        VexFlowElement::Note { keys, .. } => Some(string_views(keys@)),
        VexFlowElement::Tuplet { notes, .. } => if 0 <= j < notes@.len() { note_keys_opt(notes@[j]) } else { None },
        _ => None,
    }
}

/// The keys at a flattened note reference (element `e`, note `j`) of a stave.
pub open spec fn keys_of_ref(es: Seq<VexFlowElement>, e: int, j: int) -> Option<Seq<Seq<char>>> {
    if 0 <= e < es.len() { elem_keys(es[e], j) } else { None }
}

/// The notes of the first `k` elements of a tuplet of element `i`, each as
/// (element, note within the tuplet, keys).
pub open spec fn tuplet_note_refs(notes: Seq<VexFlowElement>, i: int, k: int) -> Seq<(int, int, Seq<Seq<char>>)>
    decreases k,
{
    if k <= 0 {
        Seq::empty()
    } else {
        tuplet_note_refs(notes, i, k - 1) + match note_keys_opt(notes[k - 1]) {
            Some(keys) => seq![(i, k - 1, keys)],
            None => Seq::empty(),
        }
    }
}

/// The notes of element `i`: itself for a note, its notes for a tuplet.
pub open spec fn element_note_refs(e: VexFlowElement, i: int) -> Seq<(int, int, Seq<Seq<char>>)> {
    match e {
        VexFlowElement::Note { keys, .. } => seq![(i, 0, string_views(keys@))],
        VexFlowElement::Tuplet { notes, .. } => tuplet_note_refs(notes@, i, notes@.len() as int),
        _ => Seq::empty(),
    }
}

/// The notes of the first `k` elements of a stave, tuplets flattened.
pub open spec fn stave_note_refs(es: Seq<VexFlowElement>, k: int) -> Seq<(int, int, Seq<Seq<char>>)>
    decreases k,
{
    if k <= 0 { Seq::empty() } else { stave_note_refs(es, k - 1) + element_note_refs(es[k - 1], k - 1) }
}

/// The notes, among the first `k` consecutive pairs, that have the same keys
/// as the note after them.
pub open spec fn tie_sources(refs: Seq<(int, int, Seq<Seq<char>>)>, k: int) -> Set<(int, int)>
    decreases k,
{
    if k <= 0 {
        Set::empty()
    } else {
        tie_sources(refs, k - 1) + if refs[k - 1].2 == refs[k].2 { set![(refs[k - 1].0, refs[k - 1].1)] } else { Set::empty() }
    }
}

/// The notes of a stave (of two or more elements) tied to the next note of
/// the stave, tuplets flattened, when it has the same keys.
pub open spec fn stave_ties(es: Seq<VexFlowElement>) -> Set<(int, int)> {
    if es.len() < 2 {
        Set::empty()
    } else {
        let r = stave_note_refs(es, es.len() as int);
        tie_sources(r, r.len() - 1)
    }
}

/// Whether `new_notes` are `notes` with those `j` for which `(i, j)` is in `m` tied.
pub open spec fn notes_marked(notes: Seq<VexFlowElement>, new_notes: Seq<VexFlowElement>, i: int, m: Set<(int, int)>) -> bool {
    &&& new_notes.len() == notes.len()
    &&& forall|j: int| 0 <= j < notes.len() ==> #[trigger] new_notes[j] == if m.contains((i, j)) { with_tie(notes[j]) } else { notes[j] }
}

/// Whether `new_e` is element `i` with the ties of `m`: a note tied when
/// `(i, 0)` is in `m`, the notes `j` of a tuplet tied when `(i, j)` is.
pub open spec fn tie_marked(old_e: VexFlowElement, new_e: VexFlowElement, i: int, m: Set<(int, int)>) -> bool {
    match old_e {
        VexFlowElement::Note { .. } => new_e == if m.contains((i, 0)) { with_tie(old_e) } else { old_e },
        VexFlowElement::Tuplet { notes, divisions } => match new_e {
            VexFlowElement::Tuplet { notes: n2, divisions: d2 } => d2 == divisions && notes_marked(notes@, n2@, i, m),
            _ => false,
        },
        _ => new_e == old_e,
    }
}

/// Whether a flattened note reference points at a note of the stave with its keys.
pub open spec fn ref_ok(es: Seq<VexFlowElement>, r: (int, int, Seq<Seq<char>>)) -> bool {
    &&& 0 <= r.0 < es.len()
    &&& keys_of_ref(es, r.0, r.1) == Some(r.2)
    &&& (es[r.0] is Note ==> r.1 == 0)
}

proof fn lemma_tuplet_refs(notes: Seq<VexFlowElement>, i: int, k: int)
    requires
        0 <= k <= notes.len(),
    ensures
        forall|t: int| 0 <= t < tuplet_note_refs(notes, i, k).len() ==>
            (#[trigger] tuplet_note_refs(notes, i, k)[t]).0 == i
            && 0 <= tuplet_note_refs(notes, i, k)[t].1 < k
            && note_keys_opt(notes[tuplet_note_refs(notes, i, k)[t].1]) == Some(tuplet_note_refs(notes, i, k)[t].2),
    decreases k,
{
    if k > 0 {
        lemma_tuplet_refs(notes, i, k - 1);
        let prev = tuplet_note_refs(notes, i, k - 1);
        let cur = tuplet_note_refs(notes, i, k);
        assert forall|t: int| 0 <= t < cur.len() implies
            (#[trigger] cur[t]).0 == i && 0 <= cur[t].1 < k && note_keys_opt(notes[cur[t].1]) == Some(cur[t].2) by {
            if t < prev.len() {
                assert(cur[t] == prev[t]);
            }
        }
    }
}

proof fn lemma_stave_refs(es: Seq<VexFlowElement>, k: int)
    requires
        0 <= k <= es.len(),
    ensures
        forall|t: int| 0 <= t < stave_note_refs(es, k).len() ==>
            (#[trigger] stave_note_refs(es, k)[t]).0 < k && ref_ok(es, stave_note_refs(es, k)[t]),
    decreases k,
{
    if k > 0 {
        lemma_stave_refs(es, k - 1);
        let prev = stave_note_refs(es, k - 1);
        let cur = stave_note_refs(es, k);
        let e = es[k - 1];
        if let VexFlowElement::Tuplet { notes, .. } = e {
            lemma_tuplet_refs(notes@, k - 1, notes@.len() as int);
        }
        assert forall|t: int| 0 <= t < cur.len() implies (#[trigger] cur[t]).0 < k && ref_ok(es, cur[t]) by {
            if t < prev.len() {
                assert(cur[t] == prev[t]);
            } else {
                assert(cur[t] == element_note_refs(e, k - 1)[t - prev.len()]);
            }
        }
    }
}

fn collect_note_refs(es: &Vec<VexFlowElement>) -> (r: Vec<(usize, usize)>)
    ensures
        r@.len() == stave_note_refs(es@, es@.len() as int).len(),
        forall|t: int| 0 <= t < r@.len() ==> (#[trigger] r@[t]).0 as int == stave_note_refs(es@, es@.len() as int)[t].0
            && r@[t].1 as int == stave_note_refs(es@, es@.len() as int)[t].1,
{
    let mut r: Vec<(usize, usize)> = Vec::new();
    let mut i: usize = 0;
    while i < es.len()
        invariant
            i <= es@.len(),
            r@.len() == stave_note_refs(es@, i as int).len(),
            forall|t: int| 0 <= t < r@.len() ==> (#[trigger] r@[t]).0 as int == stave_note_refs(es@, i as int)[t].0
                && r@[t].1 as int == stave_note_refs(es@, i as int)[t].1,
        decreases es@.len() - i,
    {
        let ghost before = r@;
        let ghost base = stave_note_refs(es@, i as int);
        match &es[i] {
            VexFlowElement::Note { .. } => {
                r.push((i, 0));
            },
            VexFlowElement::Tuplet { notes, .. } => {
                let mut j: usize = 0;
                while j < notes.len()
                    invariant
                        j <= notes@.len(),
                        before.len() == base.len(),
                        r@.len() == base.len() + tuplet_note_refs(notes@, i as int, j as int).len(),
                        forall|t: int| 0 <= t < base.len() ==> #[trigger] r@[t] == before[t],
                        forall|t: int| 0 <= t < tuplet_note_refs(notes@, i as int, j as int).len() ==>
                            (#[trigger] r@[base.len() + t]).0 as int == tuplet_note_refs(notes@, i as int, j as int)[t].0
                            && r@[base.len() + t].1 as int == tuplet_note_refs(notes@, i as int, j as int)[t].1,
                    decreases notes@.len() - j,
                {
                    let ghost prev_t = tuplet_note_refs(notes@, i as int, j as int);
                    match &notes[j] {
                        VexFlowElement::Note { .. } => {
                            r.push((i, j));
                        },
                        _ => {},
                    }
                    proof {
                        let cur_t = tuplet_note_refs(notes@, i as int, j + 1);
                        assert forall|t: int| 0 <= t < cur_t.len() implies
                            (#[trigger] r@[base.len() + t]).0 as int == cur_t[t].0 && r@[base.len() + t].1 as int == cur_t[t].1 by {
                            if t < prev_t.len() {
                                assert(cur_t[t] == prev_t[t]);
                            }
                        }
                    }
                    j = j + 1;
                }
                proof {
                    let er = element_note_refs(es@[i as int], i as int);
                    assert(er == tuplet_note_refs(notes@, i as int, notes@.len() as int));
                    assert forall|t: int| base.len() <= t < r@.len() implies
                        (#[trigger] r@[t]).0 as int == er[t - base.len()].0 && r@[t].1 as int == er[t - base.len()].1 by {
                        let t2 = t - base.len();
                        assert(r@[base.len() + t2] == r@[t]);
                    }
                }
            },
            _ => {},
        }
        proof {
            let cur = stave_note_refs(es@, i + 1);
            assert(cur == base + element_note_refs(es@[i as int], i as int));
            assert forall|t: int| 0 <= t < r@.len() implies (#[trigger] r@[t]).0 as int == cur[t].0 && r@[t].1 as int == cur[t].1 by {
                if t < base.len() {
                    assert(cur[t] == base[t]);
                } else {
                    assert(cur[t] == element_note_refs(es@[i as int], i as int)[t - base.len()]);
                }
            }
        }
        i = i + 1;
    }
    r
}

fn keys_at(e: &VexFlowElement, j: usize) -> (r: Option<&Vec<String>>)
    ensures
        match r {
            Some(k) => elem_keys(*e, j as int) == Some(string_views(k@)),
            None => elem_keys(*e, j as int) is None,
        },
{
    match e {
        VexFlowElement::Note { keys, .. } => Some(keys),
        VexFlowElement::Tuplet { notes, .. } => {
            if j < notes.len() {
                match &notes[j] {
                    VexFlowElement::Note { keys, .. } => Some(keys),
                    _ => None,
                }
            } else {
                None
            }
        },
        _ => None,
    }
}

fn mark_tied(elements: &mut Vec<VexFlowElement>, i: usize, j: usize)
    requires
        i < old(elements)@.len(),
    ensures
        final(elements)@.len() == old(elements)@.len(),
        forall|k: int| 0 <= k < old(elements)@.len() && k != i ==> final(elements)@[k] == old(elements)@[k],
        old(elements)@[i as int] is Note ==> final(elements)@[i as int] == with_tie(old(elements)@[i as int]),
        match old(elements)@[i as int] {
            VexFlowElement::Tuplet { notes, divisions } => match final(elements)@[i as int] {
                VexFlowElement::Tuplet { notes: n2, divisions: d2 } => d2 == divisions && n2@.len() == notes@.len()
                    && forall|t: int| 0 <= t < notes@.len() ==> #[trigger] n2@[t] == if t == j { with_tie(notes@[t]) } else { notes@[t] },
                _ => false,
            },
            _ => true,
        },
        !(old(elements)@[i as int] is Note) && !(old(elements)@[i as int] is Tuplet) ==> final(elements)@[i as int] == old(elements)@[i as int],
{
    let e = elements.remove(i);
    let marked = match e {
        VexFlowElement::Note { keys, duration, dots, accidentals, tied: _, original_duration, beam_start, beam_end, syl } =>
            VexFlowElement::Note { keys, duration, dots, accidentals, tied: true, original_duration, beam_start, beam_end, syl },
        VexFlowElement::Tuplet { mut notes, divisions } => {
            if j < notes.len() {
                set_tied(&mut notes, j);
            }
            VexFlowElement::Tuplet { notes, divisions }
        },
        other => other,
    };
    elements.insert(i, marked);
}

proof fn lemma_marked_keys(es: Seq<VexFlowElement>, cur: Seq<VexFlowElement>, m: Set<(int, int)>, r: (int, int, Seq<Seq<char>>))
    requires
        cur.len() == es.len(),
        forall|i: int| 0 <= i < es.len() ==> tie_marked(es[i], #[trigger] cur[i], i, m),
        ref_ok(es, r),
    ensures
        keys_of_ref(cur, r.0, r.1) == Some(r.2),
{
    let i = r.0;
    assert(tie_marked(es[i], cur[i], i, m));
    if let VexFlowElement::Tuplet { notes, divisions } = es[i] {
        let j = r.1;
        if let VexFlowElement::Tuplet { notes: n2, .. } = cur[i] {
            assert(n2@[j] == if m.contains((i, j)) { with_tie(notes@[j]) } else { notes@[j] });
        }
    }
}

proof fn lemma_tie_step(es: Seq<VexFlowElement>, cur: Seq<VexFlowElement>, next: Seq<VexFlowElement>,
    rv: Seq<(int, int, Seq<Seq<char>>)>, k: int, same: bool)
    requires
        0 <= k,
        k + 1 < rv.len(),
        cur.len() == es.len(),
        forall|i: int| 0 <= i < es.len() ==> tie_marked(es[i], #[trigger] cur[i], i, tie_sources(rv, k)),
        ref_ok(es, rv[k]),
        same == (rv[k].2 == rv[k + 1].2),
        !same ==> next == cur,
        same ==> next.len() == cur.len(),
        same ==> forall|q: int| 0 <= q < cur.len() && q != rv[k].0 ==> next[q] == cur[q],
        same && cur[rv[k].0] is Note ==> next[rv[k].0] == with_tie(cur[rv[k].0]),
        same ==> match cur[rv[k].0] {
            VexFlowElement::Tuplet { notes, divisions } => match next[rv[k].0] {
                VexFlowElement::Tuplet { notes: n2, divisions: d2 } => d2 == divisions && n2@.len() == notes@.len()
                    && forall|t: int| 0 <= t < notes@.len() ==> #[trigger] n2@[t] == if t == rv[k].1 { with_tie(notes@[t]) } else { notes@[t] },
                _ => false,
            },
            _ => true,
        },
    ensures
        next.len() == es.len(),
        forall|i: int| 0 <= i < es.len() ==> tie_marked(es[i], #[trigger] next[i], i, tie_sources(rv, k + 1)),
{
    let s0 = tie_sources(rv, k);
    let s1 = tie_sources(rv, k + 1);
    let src = (rv[k].0, rv[k].1);
    if !same {
        assert(s1 =~= s0);
    } else {
        assert(s1 =~= s0.insert(src));
        assert forall|i: int| 0 <= i < es.len() implies tie_marked(es[i], #[trigger] next[i], i, s1) by {
            assert(tie_marked(es[i], cur[i], i, s0));
            if i != rv[k].0 {
                assert(next[i] == cur[i]);
                if let VexFlowElement::Tuplet { notes, divisions } = es[i] {
                    if let VexFlowElement::Tuplet { notes: n2, .. } = next[i] {
                        assert forall|j: int| 0 <= j < notes@.len() implies #[trigger] n2@[j] ==
                            if s1.contains((i, j)) { with_tie(notes@[j]) } else { notes@[j] } by {
                            assert(s1.contains((i, j)) == s0.contains((i, j)));
                        }
                    }
                }
            } else {
                match es[i] {
                    VexFlowElement::Note { .. } => {
                        assert(s1.contains((i, 0)));
                    },
                    VexFlowElement::Tuplet { notes, divisions } => {
                        if let VexFlowElement::Tuplet { notes: c2, .. } = cur[i] {
                            if let VexFlowElement::Tuplet { notes: n2, .. } = next[i] {
                                assert forall|j: int| 0 <= j < notes@.len() implies #[trigger] n2@[j] ==
                                    if s1.contains((i, j)) { with_tie(notes@[j]) } else { notes@[j] } by {
                                    assert(c2@[j] == if s0.contains((i, j)) { with_tie(notes@[j]) } else { notes@[j] });
                                    if j == rv[k].1 {
                                        assert(s1.contains((i, j)));
                                    } else {
                                        assert(s1.contains((i, j)) == s0.contains((i, j)));
                                    }
                                }
                            }
                        }
                    },
                    _ => {},
                }
            }
        }
    }
}

proof fn lemma_unmarked(es: Seq<VexFlowElement>, m: Set<(int, int)>)
    requires
        m == Set::<(int, int)>::empty(),
    ensures
        forall|i: int| 0 <= i < es.len() ==> tie_marked(es[i], #[trigger] es[i], i, m),
{
    assert forall|i: int| 0 <= i < es.len() implies tie_marked(es[i], #[trigger] es[i], i, m) by {
        if let VexFlowElement::Tuplet { notes, divisions } = es[i] {
            assert(notes_marked(notes@, notes@, i, m));
        }
    }
}

/// Ties each note of a stave of two or more elements to the next note,
/// tuplets flattened, when both have the same keys (see `stave_ties`).
pub fn apply_stave_tie_detection(stave_elements: &mut Vec<VexFlowElement>)
    ensures
        final(stave_elements)@.len() == old(stave_elements)@.len(),
        forall|i: int| 0 <= i < old(stave_elements)@.len() ==>
            tie_marked(old(stave_elements)@[i], #[trigger] final(stave_elements)@[i], i, stave_ties(old(stave_elements)@)),
{
    let ghost es = stave_elements@;
    let n = stave_elements.len();
    if n < 2 {
        proof {
            lemma_unmarked(es, stave_ties(es));
        }
        return;
    }
    let refs = collect_note_refs(stave_elements);
    let ghost rv = stave_note_refs(es, es.len() as int);
    proof {
        lemma_stave_refs(es, es.len() as int);
    }
    let m = refs.len();
    if m < 2 {
        proof {
            assert(tie_sources(rv, rv.len() - 1) == Set::<(int, int)>::empty());
            lemma_unmarked(es, stave_ties(es));
        }
        return;
    }
    let mut k: usize = 0;
    proof {
        assert(tie_sources(rv, 0) == Set::<(int, int)>::empty());
        lemma_unmarked(es, tie_sources(rv, 0));
    }
    while k < m - 1
        invariant
            2 <= m,
            m == refs@.len(),
            m == rv.len(),
            rv == stave_note_refs(es, es.len() as int),
            forall|t: int| 0 <= t < refs@.len() ==> (#[trigger] refs@[t]).0 as int == rv[t].0 && refs@[t].1 as int == rv[t].1,
            forall|t: int| 0 <= t < rv.len() ==> ref_ok(es, #[trigger] rv[t]),
            k <= m - 1,
            stave_elements@.len() == es.len(),
            forall|i: int| 0 <= i < es.len() ==> tie_marked(es[i], #[trigger] stave_elements@[i], i, tie_sources(rv, k as int)),
        decreases m - 1 - k,
    {
        let (e1, n1) = refs[k];
        let (e2, n2) = refs[k + 1];
        proof {
            assert(ref_ok(es, rv[k as int]));
            assert(ref_ok(es, rv[k + 1]));
            lemma_marked_keys(es, stave_elements@, tie_sources(rv, k as int), rv[k as int]);
            lemma_marked_keys(es, stave_elements@, tie_sources(rv, k as int), rv[k + 1]);
        }
        let same = match (keys_at(&stave_elements[e1], n1), keys_at(&stave_elements[e2], n2)) {
            (Some(a), Some(b)) => strings_equal(a, b),
            _ => false,
        };
        let ghost cur = stave_elements@;
        if same {
            mark_tied(stave_elements, e1, n1);
        }
        proof {
            lemma_tie_step(es, cur, stave_elements@, rv, k as int, same);
        }
        k = k + 1;
    }
}

} // verus!
