//! LilyPond note text to VexFlow notes.
//!
//! Note names are `a`..`g`; an `s` after the name raises it a semitone and an
//! `f` lowers it (`cs` is C sharp, `df` is D flat, `ss` and `ff` double them);
//! each `'` raises the octave and each `,` lowers it from octave 4; the
//! number that follows is the LilyPond duration.  The text is scanned with
//! regular expressions of the `regex` crate.
use vstd::prelude::*;
use crate::text::{str_eq, trim_str, trim_spec, int_decimal, i128_to_string, to_lowercase, unicode_lowercase, concat_str};
use crate::json::{JsonValue, JsonView, json_view, json_views, json_field_views};
use crate::models::copy_string;

verus! {

// ---------------------------------------------------------------------------
// The regular-expression calls.

/// Whether `regex::Regex::new` accepts a pattern.
pub uninterp spec fn regex_compiles(pattern: Seq<char>) -> bool;

/// The texts of the successive non-overlapping matches that
/// `regex::Regex::find_iter` yields for a pattern in a text.
pub uninterp spec fn regex_matches(pattern: Seq<char>, text: Seq<char>) -> Seq<Seq<char>>;

/// The capture groups (group 0 the whole match) of the first match that
/// `regex::Regex::captures` finds for a pattern in a text, or `None`.
pub uninterp spec fn regex_captures(pattern: Seq<char>, text: Seq<char>) -> Option<Seq<Option<Seq<char>>>>;

/// What `regex::Regex::replace_all` returns for a pattern, a text and a
/// replacement (in which `$1` stands for the first group).
pub uninterp spec fn regex_replace_all(pattern: Seq<char>, text: Seq<char>, replacement: Seq<char>) -> Seq<char>;

/// The texts of a list of strings.
pub open spec fn strings_view(s: Seq<String>) -> Seq<Seq<char>> {
    s.map_values(|x: String| x@)
}

/// The texts of a list of optional groups.
pub open spec fn groups_view(g: Seq<Option<String>>) -> Seq<Option<Seq<char>>> {
    g.map_values(|o: Option<String>| match o { Some(s) => Some(s@), None => None })
}

/// Compiles a pattern with `regex::Regex::new` and collects the texts of the
/// matches of `Regex::find_iter`; `None` when the pattern does not compile.
/// The matches are named, not restated: the regular-expression semantics are
/// the crate's.
#[verifier::external_body]
fn find_matches(pattern: &str, text: &str) -> (r: Option<Vec<String>>)
    ensures
        r is Some <==> regex_compiles(pattern@),
        r matches Some(v) ==> strings_view(v@) == regex_matches(pattern@, text@),
{
    match regex::Regex::new(pattern) {
        Ok(re) => Some(re.find_iter(text).map(|m| m.as_str().to_string()).collect()),
        Err(_) => None,
    }
}

/// Compiles a pattern with `regex::Regex::new` and returns the groups of the
/// first match of `Regex::captures` (`Some(None)` when nothing matches);
/// `None` when the pattern does not compile.  The groups are named, not
/// restated.
#[verifier::external_body]
fn first_captures(pattern: &str, text: &str) -> (r: Option<Option<Vec<Option<String>>>>)
    ensures
        r is Some <==> regex_compiles(pattern@),
        r matches Some(c) ==> match c {
            Some(g) => regex_captures(pattern@, text@) == Some(groups_view(g@)),
            None => regex_captures(pattern@, text@) is None,
        },
{
    match regex::Regex::new(pattern) {
        Ok(re) => Some(re.captures(text).map(|c| c.iter().map(|g| g.map(|m| m.as_str().to_string())).collect())),
        Err(_) => None,
    }
}

/// Compiles a pattern with `regex::Regex::new` and returns what
/// `Regex::replace_all` makes of a text; `None` when the pattern does not
/// compile.  The result is named, not restated.
#[verifier::external_body]
fn replace_matches(pattern: &str, text: &str, replacement: &str) -> (r: Option<String>)
    ensures
        r is Some <==> regex_compiles(pattern@),
        r matches Some(s) ==> s@ == regex_replace_all(pattern@, text@, replacement@),
{
    match regex::Regex::new(pattern) {
        Ok(re) => Some(re.replace_all(text, replacement).to_string()),
        Err(_) => None,
    }
}

// ---------------------------------------------------------------------------
// Notes.

/// Whether an entry is a note or a rest.
#[derive(Clone, Copy, Debug, PartialEq, Eq, Structural)]
pub enum VexFlowNoteType {
    Note,
    Rest,
}

/// An accidental on one key of a note.
#[derive(Clone, Debug)]
pub struct VexFlowAccidental {
    pub index: usize,
    pub accidental: String,
}

/// A note or rest for VexFlow.
#[derive(Clone, Debug)]
pub struct VexFlowNote {
    pub clef: String,
    pub keys: Vec<String>,
    pub duration: String,
    pub accidentals: Option<Vec<VexFlowAccidental>>,
    pub note_type: VexFlowNoteType,
}

/// A note as plain values.
pub struct VexFlowNoteView {
    pub clef: Seq<char>,
    pub keys: Seq<Seq<char>>,
    pub duration: Seq<char>,
    pub accidentals: Option<Seq<(usize, Seq<char>)>>,
    pub note_type: VexFlowNoteType,
}

/// The accidentals as plain values.
pub open spec fn accidentals_view(a: Seq<VexFlowAccidental>) -> Seq<(usize, Seq<char>)> {
    a.map_values(|x: VexFlowAccidental| (x.index, x.accidental@))
}

impl View for VexFlowNote {
    type V = VexFlowNoteView;

    open spec fn view(&self) -> VexFlowNoteView {
        VexFlowNoteView {
            clef: self.clef@,
            keys: strings_view(self.keys@),
            duration: self.duration@,
            accidentals: match self.accidentals { Some(a) => Some(accidentals_view(a@)), None => None },
            note_type: self.note_type,
        }
    }
}

/// The views of a list of notes.
pub open spec fn notes_view(v: Seq<VexFlowNote>) -> Seq<VexFlowNoteView> {
    v.map_values(|n: VexFlowNote| n@)
}

/// Group `i`, or `None` when there is no such group.
pub open spec fn group(g: Seq<Option<Seq<char>>>, i: int) -> Option<Seq<char>> {
    if 0 <= i < g.len() { g[i] } else { None }
}

/// How many times `c` occurs in `s`.
pub open spec fn count_char(s: Seq<char>, c: char) -> nat
    decreases s.len(),
{
    if s.len() == 0 { 0 } else { count_char(s.drop_last(), c) + if s.last() == c { 1nat } else { 0nat } }
}

/// The octave of a note with octave marks: 4, one up for each `'`, one down
/// for each `,`.
pub open spec fn marks_octave(marks: Seq<char>) -> int {
    4 + count_char(marks, '\'') - count_char(marks, ',')
}

/// The VexFlow accidental for a note-name suffix.
pub open spec fn vexflow_accidental(acc: Seq<char>) -> Option<Seq<char>> {
    if acc == "s"@ {
        Some("#"@)
    } else if acc == "f"@ {
        Some("b"@)
    } else if acc == "ss"@ {
        Some("##"@)
    } else if acc == "ff"@ {
        Some("bb"@)
    } else {
        None
    }
}

/// The VexFlow duration for a LilyPond duration (a quarter when unknown).
pub open spec fn vexflow_duration(d: Seq<char>) -> Seq<char> {
    if d == "1"@ {
        "w"@
    } else if d == "2"@ {
        "h"@
    } else if d == "4"@ {
        "q"@
    } else if d == "8"@ {
        "8"@
    } else if d == "16"@ {
        "16"@
    } else {
        "q"@
    }
}

/// The note read from the groups of a note token (name, suffix, octave marks,
/// duration), or `None` when the name, marks or duration group is missing.
pub open spec fn note_from_groups(g: Seq<Option<Seq<char>>>) -> Option<VexFlowNoteView> {
    match (group(g, 1), group(g, 3), group(g, 4)) {
        (Some(name), Some(marks), Some(dur)) => {
            let acc = match group(g, 2) { Some(a) => a, None => ""@ };
            Some(VexFlowNoteView {
                clef: "treble"@,
                keys: seq![unicode_lowercase(name) + "/"@ + int_decimal(marks_octave(marks))],
                duration: vexflow_duration(dur),
                accidentals: match vexflow_accidental(acc) { Some(a) => Some(seq![(0usize, a)]), None => None },
                note_type: VexFlowNoteType::Note,
            })
        },
        _ => None,
    }
}

/// The rest read from the groups of a rest token (its duration), or `None`
/// when the duration group is missing.
pub open spec fn rest_from_groups(g: Seq<Option<Seq<char>>>) -> Option<VexFlowNoteView> {
    match group(g, 1) {
        Some(dur) => Some(VexFlowNoteView {
            clef: "treble"@,
            keys: seq!["b/4"@],
            duration: vexflow_duration(dur),
            accidentals: None,
            note_type: VexFlowNoteType::Rest,
        }),
        None => None,
    }
}

fn group_at(groups: &Vec<Option<String>>, i: usize) -> (r: Option<&String>)
    ensures
        match r {
            Some(s) => group(groups_view(groups@), i as int) == Some(s@),
            None => group(groups_view(groups@), i as int) is None,
        },
{
    if i < groups.len() {
        match &groups[i] {
            Some(s) => Some(s),
            None => None,
        }
    } else {
        None
    }
}

fn count_char_in(s: &str, c: char) -> (n: usize)
    ensures
        n == count_char(s@, c),
{
    let len = s.unicode_len();
    let mut n: usize = 0;
    let mut i: usize = 0;
    while i < len
        invariant
            len == s@.len(),
            i <= len,
            n <= i,
            n == count_char(s@.take(i as int), c),
        decreases len - i,
    {
        proof {
            assert(s@.take(i + 1).drop_last() =~= s@.take(i as int));
        }
        if s.get_char(i) == c {
            n = n + 1;
        }
        i = i + 1;
    }
    assert(s@.take(len as int) =~= s@);
    n
}

fn duration_of(d: &str) -> (r: String)
    ensures
        r@ == vexflow_duration(d@),
{
    if str_eq(d, "1") {
        "w".to_string()
    } else if str_eq(d, "2") {
        "h".to_string()
    } else if str_eq(d, "4") {
        "q".to_string()
    } else if str_eq(d, "8") {
        "8".to_string()
    } else if str_eq(d, "16") {
        "16".to_string()
    } else {
        "q".to_string()
    }
}

fn accidental_of(a: &str) -> (r: Option<String>)
    ensures
        match r {
            Some(s) => vexflow_accidental(a@) == Some(s@),
            None => vexflow_accidental(a@) is None,
        },
{
    if str_eq(a, "s") {
        Some("#".to_string())
    } else if str_eq(a, "f") {
        Some("b".to_string())
    } else if str_eq(a, "ss") {
        Some("##".to_string())
    } else if str_eq(a, "ff") {
        Some("bb".to_string())
    } else {
        None
    }
}

/// The view of an optional note.
pub open spec fn opt_note_view(n: Option<VexFlowNote>) -> Option<VexFlowNoteView> {
    match n { Some(x) => Some(x@), None => None }
}

/// Builds the note of a note token from its groups: name, suffix, octave
/// marks and duration.
pub fn note_from_captures(groups: &Vec<Option<String>>) -> (r: Option<VexFlowNote>)
    ensures
        opt_note_view(r) == note_from_groups(groups_view(groups@)),
{
    let name = group_at(groups, 1);
    let marks = group_at(groups, 3);
    let dur = group_at(groups, 4);
    match (name, marks, dur) {
        (Some(name), Some(marks), Some(dur)) => {
            let up = count_char_in(marks.as_str(), '\'');
            let down = count_char_in(marks.as_str(), ',');
            let octave: i128 = 4 + up as i128 - down as i128;
            let pitch = concat_str(concat_str(to_lowercase(name.as_str()).as_str(), "/").as_str(), i128_to_string(octave).as_str());
            let acc = match group_at(groups, 2) {
                Some(a) => accidental_of(a.as_str()),
                None => {
                    proof { reveal_strlit(""); }
                    accidental_of("")
                },
            };
            let mut keys: Vec<String> = Vec::new();
            keys.push(pitch);
            let accidentals = match acc {
                Some(a) => {
                    let mut v: Vec<VexFlowAccidental> = Vec::new();
                    v.push(VexFlowAccidental { index: 0, accidental: a });
                    proof {
                        assert(accidentals_view(v@) =~= seq![(0usize, vexflow_accidental(match group(groups_view(groups@), 2) { Some(x) => x, None => ""@ }).unwrap())]);
                    }
                    Some(v)
                },
                None => None,
            };
            let note = VexFlowNote {
                clef: "treble".to_string(),
                keys,
                duration: duration_of(dur.as_str()),
                accidentals,
                note_type: VexFlowNoteType::Note,
            };
            proof {
                assert(strings_view(note.keys@) =~= seq![unicode_lowercase(name@) + "/"@ + int_decimal(marks_octave(marks@))]);
            }
            Some(note)
        },
        _ => None,
    }
}

/// Builds the rest of a rest token from its groups: its duration.
pub fn rest_from_captures(groups: &Vec<Option<String>>) -> (r: Option<VexFlowNote>)
    ensures
        opt_note_view(r) == rest_from_groups(groups_view(groups@)),
{
    match group_at(groups, 1) {
        Some(dur) => {
            let mut keys: Vec<String> = Vec::new();
            keys.push("b/4".to_string());
            let rest = VexFlowNote {
                clef: "treble".to_string(),
                keys,
                duration: duration_of(dur.as_str()),
                accidentals: None,
                note_type: VexFlowNoteType::Rest,
            };
            proof {
                assert(strings_view(rest.keys@) =~= seq!["b/4"@]);
            }
            Some(rest)
        },
        None => None,
    }
}

// ---------------------------------------------------------------------------
// Tokens, lines and the cleaning of a LilyPond text.

/// The pattern a note token must match as a whole.
pub open spec fn note_token_pattern() -> Seq<char> {
    "^([a-g])(ff|ss|f|s)?([',]*)([0-9]+)$"@
}

fn note_token_pattern_str() -> (r: &'static str)
    ensures
        r@ == note_token_pattern(),
{
    "^([a-g])(ff|ss|f|s)?([',]*)([0-9]+)$"
}

/// The pattern a rest token must match as a whole.
pub open spec fn rest_token_pattern() -> Seq<char> {
    "^r([0-9]+)(?:\\.)?$"@
}

fn rest_token_pattern_str() -> (r: &'static str)
    ensures
        r@ == rest_token_pattern(),
{
    "^r([0-9]+)(?:\\.)?$"
}

/// The pattern finding note tokens in a line.
pub open spec fn note_scan_pattern() -> Seq<char> {
    "\\b([a-g])(ff|ss|f|s)?([',]{0,3})([0-9]+)(?:\\.)?(?:\\s*~)?\\b"@
}

/// The pattern finding rest tokens in a line.
pub open spec fn rest_scan_pattern() -> Seq<char> {
    "\\br([0-9]+)(?:\\.)?"@
}

/// The pattern of a `\fixed` block, whose body is its first group.
pub open spec fn fixed_pattern() -> Seq<char> {
    "\\\\fixed\\s+[a-g]'?\\s*\\{([^}]+)\\}"@
}

fn fixed_pattern_str() -> (r: &'static str)
    ensures
        r@ == fixed_pattern(),
{
    "\\\\fixed\\s+[a-g]'?\\s*\\{([^}]+)\\}"
}

/// How many cleaning steps there are.
pub open spec fn clean_step_count() -> nat {
    8
}

/// The `k`-th cleaning step: a pattern and what replaces its matches.  The
/// clef, time, key, break, bar and set commands go, a tuplet keeps only its
/// body, and ties go.
pub open spec fn clean_step(k: int) -> (Seq<char>, Seq<char>) {
    if k == 0 {
        ("\\\\clef\\s+[a-zA-Z]+"@, ""@)
    } else if k == 1 {
        ("\\\\time\\s+\\d+/\\d+"@, ""@)
    } else if k == 2 {
        ("\\\\key\\s+[a-g](\\s+(major|minor))?"@, ""@)
    } else if k == 3 {
        ("\\\\break"@, ""@)
    } else if k == 4 {
        ("\\\\bar\\s+\"[^\"]*\""@, ""@)
    } else if k == 5 {
        ("\\\\set\\s+[^\\n]*"@, ""@)
    } else if k == 6 {
        ("\\\\tuplet\\s+\\d+/\\d+\\s*\\{([^}]+)\\}"@, "$1"@)
    } else {
        ("~"@, ""@)
    }
}

fn clean_step_strs(k: usize) -> (r: (&'static str, &'static str))
    requires
        k < 8,
    ensures
        r.0@ == clean_step(k as int).0,
        r.1@ == clean_step(k as int).1,
{
    if k == 0 {
        ("\\\\clef\\s+[a-zA-Z]+", "")
    } else if k == 1 {
        ("\\\\time\\s+\\d+/\\d+", "")
    } else if k == 2 {
        ("\\\\key\\s+[a-g](\\s+(major|minor))?", "")
    } else if k == 3 {
        ("\\\\break", "")
    } else if k == 4 {
        ("\\\\bar\\s+\"[^\"]*\"", "")
    } else if k == 5 {
        ("\\\\set\\s+[^\\n]*", "")
    } else if k == 6 {
        ("\\\\tuplet\\s+\\d+/\\d+\\s*\\{([^}]+)\\}", "$1")
    } else {
        ("~", "")
    }
}

/// Whether the first `k` cleaning patterns compile.
pub open spec fn clean_steps_compile(k: int) -> bool {
    forall|i: int| 0 <= i < k ==> regex_compiles(#[trigger] clean_step(i).0)
}

/// The text after the first `k` cleaning steps.
pub open spec fn cleaned(text: Seq<char>, k: int) -> Seq<char>
    decreases k,
{
    if k <= 0 {
        text
    } else {
        regex_replace_all(clean_step(k - 1).0, cleaned(text, k - 1), clean_step(k - 1).1)
    }
}

/// The body of the first `\fixed` block of a text, or the whole text.
pub open spec fn fixed_body(code: Seq<char>) -> Seq<char> {
    match regex_captures(fixed_pattern(), code) {
        Some(g) => match group(g, 1) { Some(b) => b, None => code },
        None => code,
    }
}

/// Whether every pattern the cleaning uses compiles.
pub open spec fn cleaning_compiles() -> bool {
    regex_compiles(fixed_pattern()) && clean_steps_compile(clean_step_count() as int)
}

/// The musical content of a LilyPond text: the body of its `\fixed` block if
/// it has one, cleaned of commands and ties, and trimmed.
pub open spec fn clean_code(code: Seq<char>) -> Seq<char> {
    trim_spec(cleaned(fixed_body(code), clean_step_count() as int))
}

/// The text split at each line feed (a text without one is one line).
pub open spec fn split_lines(s: Seq<char>) -> Seq<Seq<char>>
    decreases s.len(),
{
    if s.len() == 0 {
        seq![Seq::<char>::empty()]
    } else {
        let p = split_lines(s.drop_last());
        if s.last() == '\n' {
            p.push(Seq::<char>::empty())
        } else {
            p.update(p.len() - 1, p.last().push(s.last()))
        }
    }
}

proof fn lemma_split_lines_nonempty(s: Seq<char>)
    ensures
        split_lines(s).len() >= 1,
    decreases s.len(),
{
    if s.len() > 0 {
        lemma_split_lines_nonempty(s.drop_last());
    }
}

fn split_on_newlines(s: &str) -> (r: Vec<String>)
    ensures
        strings_view(r@) == split_lines(s@),
{
    let len = s.unicode_len();
    let mut done: Vec<String> = Vec::new();
    let mut cur = String::new();
    let mut i: usize = 0;
    proof {
        assert(s@.take(0) =~= Seq::<char>::empty());
        assert(strings_view(done@).push(cur@) =~= split_lines(s@.take(0)));
    }
    while i < len
        invariant
            len == s@.len(),
            i <= len,
            strings_view(done@).push(cur@) == split_lines(s@.take(i as int)),
        decreases len - i,
    {
        let c = s.get_char(i);
        let ghost before = strings_view(done@).push(cur@);
        proof {
            assert(s@.take(i + 1).drop_last() =~= s@.take(i as int));
            lemma_split_lines_nonempty(s@.take(i as int));
        }
        if c == '\n' {
            let finished = cur;
            done.push(finished);
            cur = String::new();
            proof {
                assert(strings_view(done@).push(cur@) =~= before.push(Seq::<char>::empty()));
            }
        } else {
            let ghost old_cur = cur@;
            crate::text::push_char(&mut cur, c);
            proof {
                assert(strings_view(done@).push(cur@) =~= before.update(before.len() - 1, before.last().push(c)));
            }
        }
        i = i + 1;
    }
    assert(s@.take(len as int) =~= s@);
    done.push(cur);
    proof {
        assert(strings_view(done@) =~= split_lines(s@));
    }
    done
}

/// The notes (or, for `rest`, the rests) read from the first tokens of a line.
pub open spec fn notes_from_tokens(tokens: Seq<Seq<char>>, rest: bool) -> Seq<VexFlowNoteView>
    decreases tokens.len(),
{
    if tokens.len() == 0 {
        Seq::empty()
    } else {
        let prev = notes_from_tokens(tokens.drop_last(), rest);
        let pattern = if rest { rest_token_pattern() } else { note_token_pattern() };
        let n = match regex_captures(pattern, tokens.last()) {
            Some(g) => if rest { rest_from_groups(g) } else { note_from_groups(g) },
            None => None,
        };
        match n {
            Some(x) => prev.push(x),
            None => prev,
        }
    }
}

/// The entries of one line: the note tokens found by `note_p`, then the rest
/// tokens found by `rest_p`, each read in the order found.
pub open spec fn line_notes(note_p: Seq<char>, rest_p: Seq<char>, line: Seq<char>) -> Seq<VexFlowNoteView> {
    notes_from_tokens(regex_matches(note_p, line), false) + notes_from_tokens(regex_matches(rest_p, line), true)
}

/// Whether reading a line compiles every pattern it uses: both scanning
/// patterns, and each token pattern where there is a token to read.
pub open spec fn line_compiles(note_p: Seq<char>, rest_p: Seq<char>, line: Seq<char>) -> bool {
    &&& regex_compiles(note_p)
    &&& regex_compiles(rest_p)
    &&& regex_matches(note_p, line).len() > 0 ==> regex_compiles(note_token_pattern())
    &&& regex_matches(rest_p, line).len() > 0 ==> regex_compiles(rest_token_pattern())
}

/// The entries of the first `k` lines; lines that are blank once trimmed give none.
pub open spec fn lines_notes(note_p: Seq<char>, rest_p: Seq<char>, lines: Seq<Seq<char>>, k: int) -> Seq<VexFlowNoteView>
    decreases k,
{
    if k <= 0 {
        Seq::empty()
    } else {
        let prev = lines_notes(note_p, rest_p, lines, k - 1);
        let l = trim_spec(lines[k - 1]);
        if l.len() == 0 { prev } else { prev + line_notes(note_p, rest_p, l) }
    }
}

/// Whether every line among the first `k` that is not blank reads with
/// compiling patterns.
pub open spec fn lines_compile(note_p: Seq<char>, rest_p: Seq<char>, lines: Seq<Seq<char>>, k: int) -> bool {
    forall|i: int| 0 <= i < k && trim_spec(#[trigger] lines[i]).len() > 0 ==> line_compiles(note_p, rest_p, trim_spec(lines[i]))
}

/// The message of a conversion whose regular expression does not compile.
pub open spec fn pattern_error() -> Seq<char> {
    "invalid regular expression"@
}

fn pattern_error_string() -> (r: String)
    ensures
        r@ == pattern_error(),
{
    "invalid regular expression".to_string()
}

/// Reads the note or rest of each token, skipping tokens that do not read.
fn read_tokens(tokens: &Vec<String>, rest: bool) -> (r: Result<Vec<VexFlowNote>, String>)
    ensures
        match r {
            Ok(v) => (tokens@.len() > 0 ==> regex_compiles(if rest { rest_token_pattern() } else { note_token_pattern() }))
                && notes_view(v@) == notes_from_tokens(strings_view(tokens@), rest),
            Err(e) => tokens@.len() > 0 && !regex_compiles(if rest { rest_token_pattern() } else { note_token_pattern() })
                && e@ == pattern_error(),
        },
{
    let pattern = if rest { rest_token_pattern_str() } else { note_token_pattern_str() };
    let mut out: Vec<VexFlowNote> = Vec::new();
    let mut i: usize = 0;
    while i < tokens.len()
        invariant
            pattern@ == (if rest { rest_token_pattern() } else { note_token_pattern() }),
            i <= tokens@.len(),
            i > 0 ==> regex_compiles(pattern@),
            notes_view(out@) == notes_from_tokens(strings_view(tokens@).take(i as int), rest),
        decreases tokens@.len() - i,
    {
        let caps = first_captures(pattern, tokens[i].as_str());
        proof {
            assert(strings_view(tokens@).take(i + 1).drop_last() =~= strings_view(tokens@).take(i as int));
        }
        match caps {
            None => {
                return Err(pattern_error_string());
            },
            Some(None) => {},
            Some(Some(groups)) => {
                let n = if rest { rest_from_captures(&groups) } else { note_from_captures(&groups) };
                match n {
                    Some(x) => {
                        let ghost before = notes_view(out@);
                        out.push(x);
                        proof {
                            assert(notes_view(out@) =~= before.push(x@));
                        }
                    },
                    None => {},
                }
            },
        }
        i = i + 1;
    }
    assert(strings_view(tokens@).take(tokens@.len() as int) =~= strings_view(tokens@));
    Ok(out)
}

/// The LilyPond to VexFlow converter: it holds the patterns that find note
/// and rest tokens in a line.
pub struct LilyPondToVexFlowConverter {
    pub note_pattern: String,
    pub rest_pattern: String,
}

impl LilyPondToVexFlowConverter {
    /// A converter with the note and rest scanning patterns.
    pub fn new() -> (r: Result<Self, String>)
        ensures
            r matches Ok(c) && c.note_pattern@ == note_scan_pattern() && c.rest_pattern@ == rest_scan_pattern(),
    {
        Ok(LilyPondToVexFlowConverter {
            note_pattern: "\\b([a-g])(ff|ss|f|s)?([',]{0,3})([0-9]+)(?:\\.)?(?:\\s*~)?\\b".to_string(),
            rest_pattern: "\\br([0-9]+)(?:\\.)?".to_string(),
        })
    }

    /// The musical content of a LilyPond text (see `clean_code`); an error
    /// when a cleaning pattern does not compile.
    pub fn clean_lilypond_code(&self, lilypond_code: &str) -> (r: Result<String, String>)
        ensures
            match r {
                Ok(s) => cleaning_compiles() && s@ == clean_code(lilypond_code@),
                Err(e) => !cleaning_compiles() && e@ == pattern_error(),
            },
    {
        let caps = first_captures(fixed_pattern_str(), lilypond_code);
        let mut content: String = match caps {
            None => return Err(pattern_error_string()),
            Some(None) => lilypond_code.to_string(),
            Some(Some(groups)) => match group_at(&groups, 1) {
                Some(b) => copy_string(b),
                None => lilypond_code.to_string(),
            },
        };
        let mut k: usize = 0;
        while k < 8
            invariant
                k <= 8,
                regex_compiles(fixed_pattern()),
                clean_steps_compile(k as int),
                content@ == cleaned(fixed_body(lilypond_code@), k as int),
            decreases 8 - k,
        {
            let (pattern, replacement) = clean_step_strs(k);
            match replace_matches(pattern, content.as_str(), replacement) {
                Some(next) => {
                    content = next;
                },
                None => {
                    proof {
                        assert(!regex_compiles(clean_step(k as int).0));
                    }
                    return Err(pattern_error_string());
                },
            }
            k = k + 1;
        }
        Ok(trim_str(content.as_str()))
    }

    /// The notes then the rests of one line, each read in the order found.
    pub fn to_vexflow_line(&self, line_content: &str) -> (r: Result<Vec<VexFlowNote>, String>)
        ensures
            match r {
                Ok(v) => line_compiles(self.note_pattern@, self.rest_pattern@, line_content@)
                    && notes_view(v@) == line_notes(self.note_pattern@, self.rest_pattern@, line_content@),
                Err(e) => !line_compiles(self.note_pattern@, self.rest_pattern@, line_content@) && e@ == pattern_error(),
            },
    {
        let note_tokens = match find_matches(self.note_pattern.as_str(), line_content) {
            Some(t) => t,
            None => return Err(pattern_error_string()),
        };
        let mut notes = match read_tokens(&note_tokens, false) {
            Ok(v) => v,
            Err(e) => return Err(e),
        };
        let rest_tokens = match find_matches(self.rest_pattern.as_str(), line_content) {
            Some(t) => t,
            None => return Err(pattern_error_string()),
        };
        let mut rests = match read_tokens(&rest_tokens, true) {
            Ok(v) => v,
            Err(e) => return Err(e),
        };
        let ghost a = notes_view(notes@);
        let ghost b = notes_view(rests@);
        notes.append(&mut rests);
        proof {
            assert(notes_view(notes@) =~= a + b);
        }
        Ok(notes)
    }

    /// Converts a LilyPond text into VexFlow notes: the text is cleaned (see
    /// `clean_code`), split into lines, and each line that is not blank once
    /// trimmed gives its notes then its rests.  An error when a pattern that
    /// the conversion reaches does not compile.
    pub fn convert_lilypond_to_vexflow(&self, lilypond_code: &str) -> (r: Result<Vec<VexFlowNote>, String>)
        ensures
            match r {
                Ok(v) => cleaning_compiles()
                    && lines_compile(self.note_pattern@, self.rest_pattern@, split_lines(clean_code(lilypond_code@)),
                        split_lines(clean_code(lilypond_code@)).len() as int)
                    && notes_view(v@) == lines_notes(self.note_pattern@, self.rest_pattern@,
                        split_lines(clean_code(lilypond_code@)), split_lines(clean_code(lilypond_code@)).len() as int),
                Err(e) => e@ == pattern_error() && (!cleaning_compiles()
                    || !lines_compile(self.note_pattern@, self.rest_pattern@, split_lines(clean_code(lilypond_code@)),
                        split_lines(clean_code(lilypond_code@)).len() as int)),
            },
    {
        let content = match self.clean_lilypond_code(lilypond_code) {
            Ok(c) => c,
            Err(e) => return Err(e),
        };
        let lines = split_on_newlines(content.as_str());
        let ghost ls = strings_view(lines@);
        let mut out: Vec<VexFlowNote> = Vec::new();
        let mut k: usize = 0;
        while k < lines.len()
            invariant
                ls == strings_view(lines@),
                ls == split_lines(clean_code(lilypond_code@)),
                cleaning_compiles(),
                k <= lines@.len(),
                lines_compile(self.note_pattern@, self.rest_pattern@, ls, k as int),
                notes_view(out@) == lines_notes(self.note_pattern@, self.rest_pattern@, ls, k as int),
            decreases lines@.len() - k,
        {
            let line = trim_str(lines[k].as_str());
            if line.unicode_len() > 0 {
                match self.to_vexflow_line(line.as_str()) {
                    Ok(mut v) => {
                        let ghost a = notes_view(out@);
                        let ghost b = notes_view(v@);
                        out.append(&mut v);
                        proof {
                            assert(notes_view(out@) =~= a + b);
                        }
                    },
                    Err(e) => {
                        proof {
                            assert(line@ == trim_spec(ls[k as int]));
                            assert(!lines_compile(self.note_pattern@, self.rest_pattern@, ls, ls.len() as int));
                        }
                        return Err(e);
                    },
                }
            }
            k = k + 1;
        }
        Ok(out)
    }
}

// ---------------------------------------------------------------------------
// JavaScript objects.

proof fn lemma_json_views_push(s: Seq<JsonValue>, x: JsonValue)
    ensures
        json_views(s.push(x)) == json_views(s).push(json_view(x)),
{
    assert(s.push(x).subrange(0, s.len() as int) =~= s);
}

proof fn lemma_json_field_views_push(s: Seq<(String, JsonValue)>, x: (String, JsonValue))
    ensures
        json_field_views(s.push(x)) == json_field_views(s).push((x.0@, json_view(x.1))),
{
    assert(s.push(x).subrange(0, s.len() as int) =~= s);
}

/// The JavaScript object of one accidental.
pub open spec fn accidental_object(a: (usize, Seq<char>)) -> JsonView {
    JsonView::Object(seq![("index"@, JsonView::Number(crate::text::nat_digits(a.0 as nat))), ("accidental"@, JsonView::String(a.1))])
}

/// The fields of the JavaScript object of a note: clef, keys, duration, the
/// accidentals when it has any, and its type (`"Note"` or `"Rest"`).
pub open spec fn js_object(n: VexFlowNoteView) -> Seq<(Seq<char>, JsonView)> {
    seq![
        ("clef"@, JsonView::String(n.clef)),
        ("keys"@, JsonView::Array(n.keys.map_values(|k: Seq<char>| JsonView::String(k)))),
        ("duration"@, JsonView::String(n.duration)),
    ] + (match n.accidentals {
        Some(a) => seq![("accidentals"@, JsonView::Array(a.map_values(|x: (usize, Seq<char>)| accidental_object(x))))],
        None => Seq::empty(),
    }) + seq![("note_type"@, JsonView::String(if n.note_type == VexFlowNoteType::Rest { "Rest"@ } else { "Note"@ }))]
}

fn string_array(v: &Vec<String>) -> (r: JsonValue)
    ensures
        json_view(r) == JsonView::Array(strings_view(v@).map_values(|k: Seq<char>| JsonView::String(k))),
{
    let mut items: Vec<JsonValue> = Vec::new();
    let mut i: usize = 0;
    while i < v.len()
        invariant
            i <= v@.len(),
            json_views(items@) == strings_view(v@).take(i as int).map_values(|k: Seq<char>| JsonView::String(k)),
        decreases v@.len() - i,
    {
        let item = JsonValue::String(copy_string(&v[i]));
        proof { lemma_json_views_push(items@, item); }
        items.push(item);
        i = i + 1;
        proof {
            assert(json_views(items@) =~= strings_view(v@).take(i as int).map_values(|k: Seq<char>| JsonView::String(k)));
        }
    }
    assert(strings_view(v@).take(v@.len() as int) =~= strings_view(v@));
    JsonValue::Array(items)
}

fn accidentals_array(v: &Vec<VexFlowAccidental>) -> (r: JsonValue)
    ensures
        json_view(r) == JsonView::Array(accidentals_view(v@).map_values(|x: (usize, Seq<char>)| accidental_object(x))),
{
    let mut items: Vec<JsonValue> = Vec::new();
    let mut i: usize = 0;
    while i < v.len()
        invariant
            i <= v@.len(),
            json_views(items@) == accidentals_view(v@).take(i as int).map_values(|x: (usize, Seq<char>)| accidental_object(x)),
        decreases v@.len() - i,
    {
        let mut fields: Vec<(String, JsonValue)> = Vec::new();
        let f1 = ("index".to_string(), JsonValue::Number(crate::text::u64_to_string(v[i].index as u64)));
        proof { lemma_json_field_views_push(fields@, f1); }
        fields.push(f1);
        let f2 = ("accidental".to_string(), JsonValue::String(copy_string(&v[i].accidental)));
        proof { lemma_json_field_views_push(fields@, f2); }
        fields.push(f2);
        let item = JsonValue::Object(fields);
        proof {
            assert(json_field_views(Seq::<(String, JsonValue)>::empty()) =~= Seq::<(Seq<char>, JsonView)>::empty());
            assert(json_field_views(fields@) =~= seq![("index"@, JsonView::Number(crate::text::nat_digits(v@[i as int].index as nat))),
                ("accidental"@, JsonView::String(v@[i as int].accidental@))]);
            assert(json_view(item) == accidental_object(accidentals_view(v@)[i as int]));
            lemma_json_views_push(items@, item);
        }
        items.push(item);
        i = i + 1;
        proof {
            assert(json_views(items@) =~= accidentals_view(v@).take(i as int).map_values(|x: (usize, Seq<char>)| accidental_object(x)));
        }
    }
    assert(accidentals_view(v@).take(v@.len() as int) =~= accidentals_view(v@));
    JsonValue::Array(items)
}

impl LilyPondToVexFlowConverter {
    /// The JavaScript object of each note, its fields in the order of `js_object`.
    pub fn to_vexflow_js_objects(&self, notes: &[VexFlowNote]) -> (r: Vec<Vec<(String, JsonValue)>>)
        ensures
            r@.len() == notes@.len(),
            forall|i: int| 0 <= i < notes@.len() ==> json_field_views(#[trigger] r@[i]@) == js_object(notes@[i]@),
    {
        let mut out: Vec<Vec<(String, JsonValue)>> = Vec::new();
        let mut i: usize = 0;
        while i < notes.len()
            invariant
                i <= notes@.len(),
                out@.len() == i,
                forall|j: int| 0 <= j < i ==> json_field_views(#[trigger] out@[j]@) == js_object(notes@[j]@),
            decreases notes@.len() - i,
        {
            let note = &notes[i];
            let mut fields: Vec<(String, JsonValue)> = Vec::new();
            let f = ("clef".to_string(), JsonValue::String(copy_string(&note.clef)));
            proof { lemma_json_field_views_push(fields@, f); }
            fields.push(f);
            let f = ("keys".to_string(), string_array(&note.keys));
            proof { lemma_json_field_views_push(fields@, f); }
            fields.push(f);
            let f = ("duration".to_string(), JsonValue::String(copy_string(&note.duration)));
            proof { lemma_json_field_views_push(fields@, f); }
            fields.push(f);
            let ghost head = json_field_views(fields@);
            match &note.accidentals {
                Some(a) => {
                    let f = ("accidentals".to_string(), accidentals_array(a));
                    proof { lemma_json_field_views_push(fields@, f); }
                    fields.push(f);
                },
                None => {},
            }
            let ghost mid = json_field_views(fields@);
            let kind = match note.note_type {
                VexFlowNoteType::Rest => "Rest".to_string(),
                VexFlowNoteType::Note => "Note".to_string(),
            };
            let f = ("note_type".to_string(), JsonValue::String(kind));
            proof { lemma_json_field_views_push(fields@, f); }
            fields.push(f);
            proof {
                assert(json_field_views(Seq::<(String, JsonValue)>::empty()) =~= Seq::<(Seq<char>, JsonView)>::empty());
                assert(json_field_views(fields@) =~= js_object(note@));
            }
            out.push(fields);
            i = i + 1;
        }
        out
    }
}

} // verus!
