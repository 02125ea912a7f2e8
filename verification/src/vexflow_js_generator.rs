//! Pieces of the VexFlow script for a measure: note keys, beams within
//! beats, slurs, tuplets and bar lines.
use vstd::prelude::*;
use crate::pitch::{Degree, degree_step, degree_alteration};
use crate::rhythm::converters::BarlineType;
use crate::rhythm::types::OrnamentType;
use crate::rhythm_fsm::is_pow2;
use crate::text::{str_eq, int_decimal, i64_to_string, push_char};
use crate::vexflow_fsm_converter::step_letter;
use crate::text::nat_digits;
use crate::to_staff_notation::{join_refs, append_digits, join_refs_of};

verus! {

/// A slur between two notes.
#[derive(Clone, Copy, Debug)]
pub struct VexFlowSlur {
    pub from_note: usize,
    pub to_note: usize,
}

/// A beam over notes.
#[derive(Clone, Debug)]
pub struct VexFlowBeam {
    pub note_indices: Vec<usize>,
}

/// A tuplet: `num_notes` notes in the space of `notes_occupied`.
#[derive(Clone, Debug)]
pub struct VexFlowTuplet {
    pub note_indices: Vec<usize>,
    pub num_notes: usize,
    pub notes_occupied: usize,
}

/// A bar line with its place and tala marker (0 to 6).
#[derive(Clone, Debug)]
pub struct VexFlowBarline {
    pub barline_type: BarlineType,
    pub position: BarlinePosition,
    pub tala: Option<u8>,
}

/// Where a bar line stands.
#[derive(Clone, Copy, Debug)]
pub enum BarlinePosition {
    /// At the start of the stave.
    Beginning,
    /// At the end of the stave.
    End,
    /// After the note with this index.
    Middle(usize),
}

/// A note of the script.
#[derive(Clone, Debug)]
pub struct VexFlowNote {
    pub keys: Vec<String>,
    pub duration: String,
    pub dots: u8,
    pub tied: bool,
    /// The beat the note belongs to.
    pub beat_index: usize,
    pub ornaments: Vec<OrnamentType>,
    pub syl: Option<String>,
}

/// A measure of the script.
#[derive(Clone, Debug)]
pub struct VexFlowMeasure {
    pub notes: Vec<VexFlowNote>,
    pub slurs: Vec<VexFlowSlur>,
    pub beams: Vec<VexFlowBeam>,
    pub tuplets: Vec<VexFlowTuplet>,
    pub barlines: Vec<VexFlowBarline>,
}

/// Accidental suffix of a chromatic alteration in VexFlow keys.
pub open spec fn key_suffix(alteration: int) -> Seq<char> {
    if alteration == 2 { "##"@ } else if alteration == 1 { "#"@ } else if alteration == -1 { "b"@ }
    else if alteration == -2 { "bb"@ } else { ""@ }
}

/// The VexFlow key of a scale degree read in C: letter, accidentals, `/`,
/// octave (4 holds middle C).
pub open spec fn vexflow_key(d: Degree, octave: i8) -> Seq<char> {
    step_letter(degree_step(d)) + key_suffix(degree_alteration(d)) + seq!['/'] + int_decimal(octave + 4)
}

/// The VexFlow key of a scale degree read in C.
pub fn degree_to_vexflow_key(degree: Degree, octave: i8) -> (r: String)
    requires
        octave + 4 <= i8::MAX,
    ensures
        r@ == vexflow_key(degree, octave),
{
    let note_name = match degree {
        Degree::N1 => "c", Degree::N1s => "c#", Degree::N1ss => "c##", Degree::N1b => "cb", Degree::N1bb => "cbb",
        Degree::N2 => "d", Degree::N2s => "d#", Degree::N2ss => "d##", Degree::N2b => "db", Degree::N2bb => "dbb",
        Degree::N3 => "e", Degree::N3s => "e#", Degree::N3ss => "e##", Degree::N3b => "eb", Degree::N3bb => "ebb",
        Degree::N4 => "f", Degree::N4s => "f#", Degree::N4ss => "f##", Degree::N4b => "fb", Degree::N4bb => "fbb",
        Degree::N5 => "g", Degree::N5s => "g#", Degree::N5ss => "g##", Degree::N5b => "gb", Degree::N5bb => "gbb",
        Degree::N6 => "a", Degree::N6s => "a#", Degree::N6ss => "a##", Degree::N6b => "ab", Degree::N6bb => "abb",
        Degree::N7 => "b", Degree::N7s => "b#", Degree::N7ss => "b##", Degree::N7b => "bb", Degree::N7bb => "bbb",
    };
    proof {
        lemma_note_name(degree, note_name@);
    }
    let vf_octave = octave + 4;
    let mut r = note_name.to_owned();
    push_char(&mut r, '/');
    let digits = i64_to_string(vf_octave as i64);
    r.append(digits.as_str());
    r
}

proof fn lemma_note_name(d: Degree, name: Seq<char>)
    requires
        name == (match d {
            Degree::N1 => "c"@, Degree::N1s => "c#"@, Degree::N1ss => "c##"@, Degree::N1b => "cb"@, Degree::N1bb => "cbb"@,
            Degree::N2 => "d"@, Degree::N2s => "d#"@, Degree::N2ss => "d##"@, Degree::N2b => "db"@, Degree::N2bb => "dbb"@,
            Degree::N3 => "e"@, Degree::N3s => "e#"@, Degree::N3ss => "e##"@, Degree::N3b => "eb"@, Degree::N3bb => "ebb"@,
            Degree::N4 => "f"@, Degree::N4s => "f#"@, Degree::N4ss => "f##"@, Degree::N4b => "fb"@, Degree::N4bb => "fbb"@,
            Degree::N5 => "g"@, Degree::N5s => "g#"@, Degree::N5ss => "g##"@, Degree::N5b => "gb"@, Degree::N5bb => "gbb"@,
            Degree::N6 => "a"@, Degree::N6s => "a#"@, Degree::N6ss => "a##"@, Degree::N6b => "ab"@, Degree::N6bb => "abb"@,
            Degree::N7 => "b"@, Degree::N7s => "b#"@, Degree::N7ss => "b##"@, Degree::N7b => "bb"@, Degree::N7bb => "bbb"@,
        }),
    ensures
        name == step_letter(degree_step(d)) + key_suffix(degree_alteration(d)),
{
    reveal_strlit("c"); reveal_strlit("d"); reveal_strlit("e"); reveal_strlit("f");
    reveal_strlit("g"); reveal_strlit("a"); reveal_strlit("b");
    reveal_strlit("#"); reveal_strlit("##"); reveal_strlit(""); reveal_strlit("bb");
    reveal_strlit("c#"); reveal_strlit("c##"); reveal_strlit("cb"); reveal_strlit("cbb");
    reveal_strlit("d#"); reveal_strlit("d##"); reveal_strlit("db"); reveal_strlit("dbb");
    reveal_strlit("e#"); reveal_strlit("e##"); reveal_strlit("eb"); reveal_strlit("ebb");
    reveal_strlit("f#"); reveal_strlit("f##"); reveal_strlit("fb"); reveal_strlit("fbb");
    reveal_strlit("g#"); reveal_strlit("g##"); reveal_strlit("gb"); reveal_strlit("gbb");
    reveal_strlit("a#"); reveal_strlit("a##"); reveal_strlit("ab"); reveal_strlit("abb");
    reveal_strlit("b#"); reveal_strlit("b##"); reveal_strlit("bbb");
    assert(name =~= step_letter(degree_step(d)) + key_suffix(degree_alteration(d)));
}

/// Doubling from `p` until reaching `n`.
pub open spec fn double_until(p: nat, n: nat) -> nat
    decreases 2 * n - p,
{
    if p > 0 && p < n { double_until(p * 2, n) } else { p }
}

/// The number of notes a tuplet of `n` occupies: the largest power of two
/// below `n` (1 for `n <= 1`).
pub open spec fn notes_occupied_for(n: nat) -> nat {
    if n <= 1 { 1 } else { double_until(1, n) / 2 }
}

pub proof fn lemma_double_until(p: nat, n: nat)
    requires
        p > 0,
        is_pow2(p),
        p < 2 * n,
    ensures
        is_pow2(double_until(p, n)),
        double_until(p, n) >= n,
        double_until(p, n) < 2 * n,
        double_until(p, n) >= p,
    decreases 2 * n - p,
{
    if p < n {
        assert((p * 2) / 2 == p);
        lemma_double_until(p * 2, n);
    }
}

/// A tuplet of `n >= 2` notes occupies a power of two `p` with `p < n <= 2p`.
pub proof fn lemma_notes_occupied(n: nat)
    requires
        n >= 2,
    ensures
        is_pow2(notes_occupied_for(n)),
        notes_occupied_for(n) < n,
        n <= 2 * notes_occupied_for(n),
{
    lemma_double_until(1, n);
    let q = double_until(1, n);
    assert(q >= 2);
    assert(q % 2 == 0);
    assert(is_pow2(q / 2));
}

/// The number of notes a tuplet of `n` occupies (see `notes_occupied_for`).
pub fn get_next_power_of_2(n: usize) -> (r: usize)
    requires
        n <= usize::MAX / 2,
    ensures
        r == notes_occupied_for(n as nat),
{
    if n <= 1 {
        return 1;
    }
    let mut power: usize = 1;
    while power < n
        invariant
            n <= usize::MAX / 2,
            1 <= power,
            power < 2 * n,
            double_until(power as nat, n as nat) == double_until(1, n as nat),
        decreases 2 * n - power,
    {
        power = power * 2;
    }
    power / 2
}

/// VexFlow's constant for a bar line kind.
pub open spec fn vexflow_barline_constant(t: BarlineType) -> Seq<char> {
    match t {
        BarlineType::RepeatStart => "VF.BarlineType.REPEAT_BEGIN"@,
        BarlineType::RepeatEnd => "VF.BarlineType.REPEAT_END"@,
        BarlineType::Double => "VF.BarlineType.DOUBLE"@,
        BarlineType::Final => "VF.BarlineType.END"@,
        BarlineType::RepeatBoth => "VF.BarlineType.REPEAT_BOTH"@,
        BarlineType::Single => "VF.BarlineType.SINGLE"@,
    }
}

/// VexFlow's constant for a bar line kind.
pub fn convert_barline_type_to_vexflow(barline_type: &BarlineType) -> (r: String)
    ensures
        r@ == vexflow_barline_constant(*barline_type),
{
    match barline_type {
        BarlineType::RepeatStart => "VF.BarlineType.REPEAT_BEGIN".to_owned(),
        BarlineType::RepeatEnd => "VF.BarlineType.REPEAT_END".to_owned(),
        BarlineType::Double => "VF.BarlineType.DOUBLE".to_owned(),
        BarlineType::Final => "VF.BarlineType.END".to_owned(),
        BarlineType::RepeatBoth => "VF.BarlineType.REPEAT_BOTH".to_owned(),
        BarlineType::Single => "VF.BarlineType.SINGLE".to_owned(),
    }
}


/// Whether a duration is beamed: eighths and shorter.
pub open spec fn beamable_duration(d: Seq<char>) -> bool {
    d == "8"@ || d == "16"@ || d == "32"@
}

/// The duration and beat of each note.
pub open spec fn note_beats(notes: Seq<VexFlowNote>) -> Seq<(Seq<char>, usize)> {
    notes.map_values(|n: VexFlowNote| (n.duration@, n.beat_index))
}

/// The groups with the current run added when it has at least two notes.
pub open spec fn flush(groups: Seq<Seq<nat>>, run: Seq<nat>) -> Seq<Seq<nat>> {
    if run.len() >= 2 { groups.push(run) } else { groups }
}

/// Scanning notes for beams: finished groups, the run in progress, and the
/// beat of the last note, after the first `k` notes. A change of beat or a
/// note that is not beamed ends the run.
pub open spec fn beat_beam_scan(notes: Seq<(Seq<char>, usize)>, k: int) -> (Seq<Seq<nat>>, Seq<nat>, Option<usize>)
    decreases k,
{
    if k <= 0 {
        (Seq::empty(), Seq::empty(), None)
    } else {
        let prev = beat_beam_scan(notes, k - 1);
        let note = notes[k - 1];
        let crossed = prev.2 is Some && prev.2.unwrap() != note.1;
        let groups = if crossed { flush(prev.0, prev.1) } else { prev.0 };
        let run = if crossed { Seq::<nat>::empty() } else { prev.1 };
        if beamable_duration(note.0) {
            (groups, run.push((k - 1) as nat), Some(note.1))
        } else {
            (flush(groups, run), Seq::empty(), Some(note.1))
        }
    }
}

/// The beams: maximal runs of at least two consecutive beamed notes of one beat.
pub open spec fn beams_within_beats(notes: Seq<(Seq<char>, usize)>) -> Seq<Seq<nat>> {
    let s = beat_beam_scan(notes, notes.len() as int);
    flush(s.0, s.1)
}

/// A run of consecutive beamed notes of one beat, ending before `k`.
pub open spec fn run_ok(notes: Seq<(Seq<char>, usize)>, run: Seq<nat>, k: int) -> bool {
    forall|i: int| 0 <= i < run.len() ==> {
        &&& #[trigger] run[i] < k
        &&& run[i] < notes.len()
        &&& beamable_duration(notes[run[i] as int].0)
        &&& notes[run[i] as int].1 == notes[run[0] as int].1
        &&& (i > 0 ==> run[i] == run[i - 1] + 1)
    }
}

/// What every beam is: at least two consecutive beamed notes of one beat.
pub open spec fn beam_ok(notes: Seq<(Seq<char>, usize)>, g: Seq<nat>) -> bool {
    g.len() >= 2 && run_ok(notes, g, notes.len() as int)
}

proof fn lemma_beam_scan_ok(notes: Seq<(Seq<char>, usize)>, k: int)
    requires
        0 <= k <= notes.len(),
    ensures
        forall|j: int| 0 <= j < beat_beam_scan(notes, k).0.len() ==> #[trigger] beam_ok(notes, beat_beam_scan(notes, k).0[j]),
        run_ok(notes, beat_beam_scan(notes, k).1, k),
        beat_beam_scan(notes, k).1.len() > 0 ==> beat_beam_scan(notes, k).1.last() == k - 1
            && beat_beam_scan(notes, k).2 == Some(notes[beat_beam_scan(notes, k).1[0] as int].1),
    decreases k,
{
    if k > 0 {
        lemma_beam_scan_ok(notes, k - 1);
        let prev = beat_beam_scan(notes, k - 1);
        let note = notes[k - 1];
        let crossed = prev.2 is Some && prev.2.unwrap() != note.1;
        let groups = if crossed { flush(prev.0, prev.1) } else { prev.0 };
        let run = if crossed { Seq::<nat>::empty() } else { prev.1 };
        assert(run_ok(notes, prev.1, notes.len() as int)) by {
            assert forall|i: int| 0 <= i < prev.1.len() implies {
                &&& #[trigger] prev.1[i] < notes.len() as int
                &&& prev.1[i] < notes.len()
                &&& beamable_duration(notes[prev.1[i] as int].0)
                &&& notes[prev.1[i] as int].1 == notes[prev.1[0] as int].1
                &&& (i > 0 ==> prev.1[i] == prev.1[i - 1] + 1)
            } by {
                assert(prev.1[i] < k - 1);
            }
        }
        assert forall|j: int| 0 <= j < groups.len() implies #[trigger] beam_ok(notes, groups[j]) by {
            if j < prev.0.len() {
                assert(beam_ok(notes, prev.0[j]));
            }
        }
        assert(run_ok(notes, run, k - 1));
        if beamable_duration(note.0) {
            let r2 = run.push((k - 1) as nat);
            if run.len() > 0 {
                assert(run.last() == k - 2);
                assert(!crossed);
                assert(prev.2 == Some(notes[run[0] as int].1));
                assert(note.1 == notes[run[0] as int].1);
            }
            assert forall|i: int| 0 <= i < r2.len() implies {
                &&& #[trigger] r2[i] < k
                &&& r2[i] < notes.len()
                &&& beamable_duration(notes[r2[i] as int].0)
                &&& notes[r2[i] as int].1 == notes[r2[0] as int].1
                &&& (i > 0 ==> r2[i] == r2[i - 1] + 1)
            } by {
                if i < run.len() {
                    assert(r2[i] == run[i]);
                }
            }
        } else {
            assert forall|j: int| 0 <= j < flush(groups, run).len() implies #[trigger] beam_ok(notes, flush(groups, run)[j]) by {
                if j < groups.len() {
                    assert(beam_ok(notes, groups[j]));
                } else {
                    assert(run_ok(notes, run, notes.len() as int)) by {
                        assert forall|i: int| 0 <= i < run.len() implies {
                            &&& #[trigger] run[i] < notes.len() as int
                            &&& run[i] < notes.len()
                            &&& beamable_duration(notes[run[i] as int].0)
                            &&& notes[run[i] as int].1 == notes[run[0] as int].1
                            &&& (i > 0 ==> run[i] == run[i - 1] + 1)
                        } by {
                            assert(run[i] < k - 1);
                        }
                    }
                }
            }
        }
    }
}

/// Every beam holds at least two consecutive eighth-or-shorter notes, all of
/// the same beat.
pub proof fn lemma_beams_stay_within_beats(notes: Seq<(Seq<char>, usize)>)
    ensures
        forall|j: int| 0 <= j < beams_within_beats(notes).len() ==> #[trigger] beam_ok(notes, beams_within_beats(notes)[j]),
{
    let k = notes.len() as int;
    lemma_beam_scan_ok(notes, k);
    let s = beat_beam_scan(notes, k);
    assert forall|j: int| 0 <= j < flush(s.0, s.1).len() implies #[trigger] beam_ok(notes, flush(s.0, s.1)[j]) by {
        if j < s.0.len() {
            assert(beam_ok(notes, s.0[j]));
        }
    }
}

/// Whether a group of note indices holds every index from `a` to `b`.
pub open spec fn covers(g: Seq<nat>, a: int, b: int) -> bool {
    forall|x: int| a <= x <= b ==> #[trigger] g.contains(x as nat)
}

proof fn lemma_scan_last_beat(notes: Seq<(Seq<char>, usize)>, k: int)
    requires
        1 <= k <= notes.len(),
    ensures
        beat_beam_scan(notes, k).2 == Some(notes[k - 1].1),
{
}

/// The groups found after `k` notes stay, in place, after `m >= k` notes.
proof fn lemma_scan_groups_grow(notes: Seq<(Seq<char>, usize)>, k: int, m: int)
    requires
        0 <= k <= m <= notes.len(),
    ensures
        beat_beam_scan(notes, k).0.len() <= beat_beam_scan(notes, m).0.len(),
        forall|j: int| 0 <= j < beat_beam_scan(notes, k).0.len() ==>
            #[trigger] beat_beam_scan(notes, m).0[j] == beat_beam_scan(notes, k).0[j],
    decreases m,
{
    if m > k {
        lemma_scan_groups_grow(notes, k, m - 1);
    }
}

proof fn lemma_covering_run_has_two(g: Seq<nat>, a: int, b: int)
    requires
        0 <= a < b,
        covers(g, a, b),
    ensures
        g.len() >= 2,
{
    assert(g.contains(a as nat));
    assert(g.contains(b as nat));
    let i = choose|i: int| 0 <= i < g.len() && g[i] == a as nat;
    let j = choose|j: int| 0 <= j < g.len() && g[j] == b as nat;
    assert(i != j);
}

/// While the notes from `a` on are eighths or shorter of one beat, the run in
/// progress holds all of them.
proof fn lemma_scan_run_covers(notes: Seq<(Seq<char>, usize)>, a: int, k: int)
    requires
        0 <= a < k <= notes.len(),
        forall|x: int| a <= x < k ==> beamable_duration(#[trigger] notes[x].0) && notes[x].1 == notes[a].1,
    ensures
        covers(beat_beam_scan(notes, k).1, a, k - 1),
    decreases k,
{
    let r = beat_beam_scan(notes, k).1;
    if k - 1 == a {
        assert(notes[a].0 == notes[k - 1].0);
        assert(r[r.len() - 1] == a as nat);
    } else {
        lemma_scan_run_covers(notes, a, k - 1);
        lemma_scan_last_beat(notes, k - 1);
        let prev = beat_beam_scan(notes, k - 1);
        assert(notes[k - 2].1 == notes[a].1 && notes[k - 1].1 == notes[a].1);
        assert(beamable_duration(notes[k - 1].0));
        assert(r == prev.1.push((k - 1) as nat));
        assert forall|x: int| a <= x <= k - 1 implies #[trigger] r.contains(x as nat) by {
            if x < k - 1 {
                assert(prev.1.contains(x as nat));
                let i = choose|i: int| 0 <= i < prev.1.len() && prev.1[i] == x as nat;
                assert(r[i] == x as nat);
            } else {
                assert(r[r.len() - 1] == x as nat);
            }
        }
    }
}

/// Once the notes `a..=b` form such a run, later notes either keep them in
/// the run in progress or they sit in one finished group.
proof fn lemma_scan_keeps_run(notes: Seq<(Seq<char>, usize)>, a: int, b: int, k: int)
    requires
        0 <= a < b < k <= notes.len(),
        forall|x: int| a <= x <= b ==> beamable_duration(#[trigger] notes[x].0) && notes[x].1 == notes[a].1,
    ensures
        (exists|j: int| 0 <= j < beat_beam_scan(notes, k).0.len() && #[trigger] covers(beat_beam_scan(notes, k).0[j], a, b))
            || covers(beat_beam_scan(notes, k).1, a, b),
    decreases k,
{
    let cur = beat_beam_scan(notes, k);
    if k == b + 1 {
        lemma_scan_run_covers(notes, a, k);
    } else {
        lemma_scan_keeps_run(notes, a, b, k - 1);
        lemma_scan_groups_grow(notes, k - 1, k);
        let prev = beat_beam_scan(notes, k - 1);
        let note = notes[k - 1];
        let crossed = prev.2 is Some && prev.2.unwrap() != note.1;
        if exists|j: int| 0 <= j < prev.0.len() && #[trigger] covers(prev.0[j], a, b) {
            let j = choose|j: int| 0 <= j < prev.0.len() && #[trigger] covers(prev.0[j], a, b);
            assert(cur.0[j] == prev.0[j]);
            assert(covers(cur.0[j], a, b));
        } else {
            lemma_covering_run_has_two(prev.1, a, b);
            let j = prev.0.len() as int;
            if crossed {
                assert(cur.0[j] == prev.1);
                assert(covers(cur.0[j], a, b));
            } else if beamable_duration(note.0) {
                let r = cur.1;
                assert(r == prev.1.push((k - 1) as nat));
                assert forall|x: int| a <= x <= b implies #[trigger] r.contains(x as nat) by {
                    assert(prev.1.contains(x as nat));
                    let i = choose|i: int| 0 <= i < prev.1.len() && prev.1[i] == x as nat;
                    assert(r[i] == x as nat);
                }
            } else {
                assert(cur.0[j] == prev.1);
                assert(covers(cur.0[j], a, b));
            }
        }
    }
}

/// Every run of at least two consecutive notes of one beat whose durations
/// are eighths, sixteenths or thirty-seconds lies inside one beam.
pub proof fn lemma_short_runs_are_beamed(notes: Seq<(Seq<char>, usize)>, a: int, b: int)
    requires
        0 <= a < b < notes.len(),
        forall|x: int| a <= x <= b ==> (#[trigger] notes[x].0 == "8"@ || notes[x].0 == "16"@ || notes[x].0 == "32"@)
            && notes[x].1 == notes[a].1,
    ensures
        exists|j: int| #![trigger beams_within_beats(notes)[j]] 0 <= j < beams_within_beats(notes).len()
            && forall|x: int| a <= x <= b ==> #[trigger] beams_within_beats(notes)[j].contains(x as nat),
{
    let n = notes.len() as int;
    assert forall|x: int| a <= x <= b implies beamable_duration(#[trigger] notes[x].0) && notes[x].1 == notes[a].1 by {
        assert(notes[x].0 == "8"@ || notes[x].0 == "16"@ || notes[x].0 == "32"@);
    }
    lemma_scan_keeps_run(notes, a, b, n);
    let s = beat_beam_scan(notes, n);
    let beams = beams_within_beats(notes);
    if exists|j: int| 0 <= j < s.0.len() && #[trigger] covers(s.0[j], a, b) {
        let j = choose|j: int| 0 <= j < s.0.len() && #[trigger] covers(s.0[j], a, b);
        assert(beams[j] == s.0[j]);
        assert(covers(beams[j], a, b));
    } else {
        lemma_covering_run_has_two(s.1, a, b);
        let j = s.0.len() as int;
        assert(beams[j] == s.1);
        assert(covers(beams[j], a, b));
    }
}

/// A beam holds at least two notes, each an eighth, sixteenth or
/// thirty-second, consecutive and of one beat.
pub proof fn lemma_beamed_notes_are_short(notes: Seq<(Seq<char>, usize)>, j: int, i: int)
    requires
        0 <= j < beams_within_beats(notes).len(),
        0 <= i < beams_within_beats(notes)[j].len(),
    ensures
        ({
            let g = beams_within_beats(notes)[j];
            &&& g.len() >= 2
            &&& g[i] < notes.len()
            &&& notes[g[i] as int].0 == "8"@ || notes[g[i] as int].0 == "16"@ || notes[g[i] as int].0 == "32"@
            &&& notes[g[i] as int].1 == notes[g[0] as int].1
            &&& i > 0 ==> g[i] == g[i - 1] + 1
        }),
{
    lemma_beams_stay_within_beats(notes);
    let g = beams_within_beats(notes)[j];
    assert(beam_ok(notes, g));
    assert(g[i] < notes.len() as int);
}

/// Views of beams as index lists.
pub open spec fn beam_views(v: Seq<VexFlowBeam>) -> Seq<Seq<nat>> {
    v.map_values(|b: VexFlowBeam| b.note_indices@.map_values(|x: usize| x as nat))
}

fn is_beamable_duration(d: &String) -> (r: bool)
    ensures
        r == beamable_duration(d@),
{
    str_eq(d.as_str(), "8") || str_eq(d.as_str(), "16") || str_eq(d.as_str(), "32")
}

fn flush_run(beams: &mut Vec<VexFlowBeam>, run: Vec<usize>)
    ensures
        beam_views(final(beams)@) == flush(beam_views(old(beams)@), run@.map_values(|x: usize| x as nat)),
{
    if run.len() >= 2 {
        let ghost before = beams@;
        let ghost rv = run@.map_values(|x: usize| x as nat);
        beams.push(VexFlowBeam { note_indices: run });
        assert(beam_views(beams@) =~= beam_views(before).push(rv));
    }
}

/// Beams over notes: maximal runs of at least two consecutive eighth-or-shorter
/// notes within one beat (see `beams_within_beats`).
pub fn create_beams_from_notes(notes: &[VexFlowNote]) -> (r: Vec<VexFlowBeam>)
    ensures
        beam_views(r@) == beams_within_beats(note_beats(notes@)),
{
    let ghost nb = note_beats(notes@);
    let mut beams: Vec<VexFlowBeam> = Vec::new();
    let mut current_beam_group: Vec<usize> = Vec::new();
    let mut current_beat_index: Option<usize> = None;
    let mut i: usize = 0;
    proof {
        assert(beam_views(beams@) =~= Seq::<Seq<nat>>::empty());
        assert(current_beam_group@.map_values(|x: usize| x as nat) =~= Seq::<nat>::empty());
    }
    while i < notes.len()
        invariant
            nb == note_beats(notes@),
            i <= notes@.len(),
            beam_views(beams@) == beat_beam_scan(nb, i as int).0,
            current_beam_group@.map_values(|x: usize| x as nat) == beat_beam_scan(nb, i as int).1,
            current_beat_index == beat_beam_scan(nb, i as int).2,
        decreases notes@.len() - i,
    {
        let duration = &notes[i].duration;
        let beat_index = notes[i].beat_index;
        proof {
            assert(nb[i as int] == (duration@, beat_index));
        }
        let is_beamable = is_beamable_duration(duration);
        let beat_boundary_crossed = match current_beat_index {
            Some(prev) => prev != beat_index,
            None => false,
        };
        if beat_boundary_crossed {
            let mut finished: Vec<usize> = Vec::new();
            std::mem::swap(&mut finished, &mut current_beam_group);
            flush_run(&mut beams, finished);
            proof {
                assert(current_beam_group@.map_values(|x: usize| x as nat) =~= Seq::<nat>::empty());
            }
        }
        current_beat_index = Some(beat_index);
        if is_beamable {
            let ghost before = current_beam_group@;
            current_beam_group.push(i);
            proof {
                assert(current_beam_group@.map_values(|x: usize| x as nat)
                    =~= before.map_values(|x: usize| x as nat).push(i as nat));
            }
        } else {
            let mut finished: Vec<usize> = Vec::new();
            std::mem::swap(&mut finished, &mut current_beam_group);
            flush_run(&mut beams, finished);
            proof {
                assert(current_beam_group@.map_values(|x: usize| x as nat) =~= Seq::<nat>::empty());
            }
        }
        i = i + 1;
    }
    flush_run(&mut beams, current_beam_group);
    beams
}


/// Numbers separated by `, `.
pub open spec fn join_nums(g: Seq<nat>) -> Seq<char>
    decreases g.len(),
{
    if g.len() == 0 { Seq::empty() }
    else if g.len() == 1 { nat_digits(g[0]) }
    else { join_nums(g.drop_last()) + ", "@ + nat_digits(g.last()) }
}

/// Lines joined with newlines.
pub open spec fn join_lines(lines: Seq<Seq<char>>) -> Seq<char>
    decreases lines.len(),
{
    if lines.len() == 0 { Seq::empty() }
    else if lines.len() == 1 { lines[0] }
    else { join_lines(lines.drop_last()) + "\n"@ + lines.last() }
}

fn join_nums_of(g: &Vec<usize>) -> (r: String)
    ensures
        r@ == join_nums(g@.map_values(|x: usize| x as nat)),
{
    let ghost gv = g@.map_values(|x: usize| x as nat);
    let mut r = String::new();
    let mut i: usize = 0;
    proof {
        assert(gv.take(0) =~= Seq::<nat>::empty());
    }
    while i < g.len()
        invariant
            gv == g@.map_values(|x: usize| x as nat),
            i <= g@.len(),
            r@ == join_nums(gv.take(i as int)),
        decreases g@.len() - i,
    {
        if i > 0 {
            r.append(", ");
        }
        append_digits(&mut r, g[i]);
        proof {
            let t = gv.take(i + 1);
            assert(t.drop_last() =~= gv.take(i as int));
            assert(t.last() == g@[i as int] as nat);
            if i == 0 {
                assert(r@ =~= nat_digits(t[0]));
            } else {
                assert(r@ =~= join_nums(gv.take(i as int)) + ", "@ + nat_digits(t.last()));
            }
        }
        i = i + 1;
    }
    proof {
        assert(gv.take(i as int) =~= gv);
    }
    r
}

/// Joins lines with newlines.
pub(crate) fn join_lines_of(lines: &Vec<String>) -> (r: String)
    ensures
        r@ == join_lines(lines@.map_values(|l: String| l@)),
{
    let ghost lv = lines@.map_values(|l: String| l@);
    let mut r = String::new();
    let mut i: usize = 0;
    proof {
        assert(lv.take(0) =~= Seq::<Seq<char>>::empty());
    }
    while i < lines.len()
        invariant
            lv == lines@.map_values(|l: String| l@),
            i <= lines@.len(),
            r@ == join_lines(lv.take(i as int)),
        decreases lines@.len() - i,
    {
        if i > 0 {
            r.append("\n");
        }
        r.append(lines[i].as_str());
        proof {
            let t = lv.take(i + 1);
            assert(t.drop_last() =~= lv.take(i as int));
            if i == 0 {
                assert(r@ =~= t[0]);
            } else {
                assert(r@ =~= join_lines(lv.take(i as int)) + "\n"@ + t.last());
            }
        }
        i = i + 1;
    }
    proof {
        assert(lv.take(i as int) =~= lv);
    }
    r
}

/// The script creating beam `i` over the notes `g`.
pub open spec fn beam_js(i: nat, g: Seq<nat>) -> Seq<char> {
    "console.log('VexFlow: Creating beam "@ + nat_digits(i) + " with notes: ["@ + join_nums(g) + "]');\nconst beamNotes"@ + nat_digits(i) + " = ["@ + join_refs(g) + "];\nif (beamNotes"@ + nat_digits(i) + ".every(note => note !== undefined)) {\n    const beam"@ + nat_digits(i) + " = new VF.Beam(beamNotes"@ + nat_digits(i) + "); \n    beam"@ + nat_digits(i) + ".setContext(context);\n    beams.push(beam"@ + nat_digits(i) + ");\n    console.log('VexFlow: Beam "@ + nat_digits(i) + " created and stored');\n} else {\n    console.log('ERROR: Beam "@ + nat_digits(i) + " skipped due to undefined notes');\n}\n"@
}

/// The lines creating the first `k` beams; beams of fewer than two notes are skipped.
pub open spec fn beam_lines(beams: Seq<Seq<nat>>, k: int) -> Seq<Seq<char>>
    decreases k,
{
    if k <= 0 {
        seq!["const beams = [];"@]
    } else {
        beam_lines(beams, k - 1) + if beams[k - 1].len() >= 2 { seq![beam_js((k - 1) as nat, beams[k - 1])] } else { Seq::empty() }
    }
}

/// The script creating the beams.
pub fn generate_beam_creation_js(beams: &[VexFlowBeam]) -> (r: Result<String, String>)
    ensures
        r matches Ok(js) && js@ == join_lines(beam_lines(beam_views(beams@), beams@.len() as int)),
{
    let ghost bv = beam_views(beams@);
    let mut js_lines: Vec<String> = Vec::new();
    js_lines.push("const beams = [];".to_owned());
    let mut i: usize = 0;
    proof {
        assert(js_lines@.map_values(|l: String| l@) =~= beam_lines(bv, 0));
    }
    while i < beams.len()
        invariant
            bv == beam_views(beams@),
            i <= beams@.len(),
            js_lines@.map_values(|l: String| l@) == beam_lines(bv, i as int),
        decreases beams@.len() - i,
    {
        let ghost before = js_lines@;
        let beam = &beams[i];
        if beam.note_indices.len() >= 2 {
            let refs = join_refs_of(&beam.note_indices);
            let nums = join_nums_of(&beam.note_indices);
            let mut r = String::new();
            r.append("console.log('VexFlow: Creating beam ");
            append_digits(&mut r, i);
            r.append(" with notes: [");
            r.append(nums.as_str());
            r.append("]');\nconst beamNotes");
            append_digits(&mut r, i);
            r.append(" = [");
            r.append(refs.as_str());
            r.append("];\nif (beamNotes");
            append_digits(&mut r, i);
            r.append(".every(note => note !== undefined)) {\n    const beam");
            append_digits(&mut r, i);
            r.append(" = new VF.Beam(beamNotes");
            append_digits(&mut r, i);
            r.append("); \n    beam");
            append_digits(&mut r, i);
            r.append(".setContext(context);\n    beams.push(beam");
            append_digits(&mut r, i);
            r.append(");\n    console.log('VexFlow: Beam ");
            append_digits(&mut r, i);
            r.append(" created and stored');\n} else {\n    console.log('ERROR: Beam ");
            append_digits(&mut r, i);
            r.append(" skipped due to undefined notes');\n}\n");
            proof {
                let g = bv[i as int];
                assert(g == beam.note_indices@.map_values(|x: usize| x as nat));
                assert(r@ =~= beam_js(i as nat, g));
            }
            js_lines.push(r);
            proof {
                assert(js_lines@.map_values(|l: String| l@) =~= beam_lines(bv, i as int + 1));
            }
        } else {
            proof {
                assert(beam_lines(bv, i as int + 1) =~= beam_lines(bv, i as int));
            }
        }
        i = i + 1;
    }
    Ok(join_lines_of(&js_lines))
}

/// The script creating tuplet `i` over the notes `t.0`, `t.1` notes in the space of `t.2`.
pub open spec fn tuplet_js(i: nat, t: (Seq<nat>, nat, nat)) -> Seq<char> {
    "console.log('VexFlow: Creating tuplet "@ + nat_digits(i) + " with "@ + nat_digits(t.1) + " notes in space of "@ + nat_digits(t.2) + "');\nconst tupletNotes"@ + nat_digits(i) + " = ["@ + join_refs(t.0) + "];\nif (tupletNotes"@ + nat_digits(i) + ".every(note => note !== undefined)) {\n    const tupletOptions"@ + nat_digits(i) + " = {\n        notes_occupied: "@ + nat_digits(t.2) + ",\n        num_notes: "@ + nat_digits(t.1) + ",\n        bracketed: true\n    };\n    const tuplet"@ + nat_digits(i) + " = new VF.Tuplet(tupletNotes"@ + nat_digits(i) + ", tupletOptions"@ + nat_digits(i) + ");\n    tuplet"@ + nat_digits(i) + ".setContext(context);\n    tuplets.push(tuplet"@ + nat_digits(i) + ");\n    console.log('VexFlow: Tuplet "@ + nat_digits(i) + " created and stored');\n} else {\n    console.log('ERROR: Tuplet "@ + nat_digits(i) + " skipped due to undefined notes');\n}\n"@
}

/// Views of tuplets.
pub open spec fn tuplet_views(v: Seq<VexFlowTuplet>) -> Seq<(Seq<nat>, nat, nat)> {
    v.map_values(|t: VexFlowTuplet| (t.note_indices@.map_values(|x: usize| x as nat), t.num_notes as nat, t.notes_occupied as nat))
}

/// The lines creating the first `k` tuplets; tuplets of fewer than two notes are skipped.
pub open spec fn tuplet_lines(tuplets: Seq<(Seq<nat>, nat, nat)>, k: int) -> Seq<Seq<char>>
    decreases k,
{
    if k <= 0 {
        seq!["const tuplets = [];"@]
    } else {
        tuplet_lines(tuplets, k - 1) + if tuplets[k - 1].0.len() >= 2 { seq![tuplet_js((k - 1) as nat, tuplets[k - 1])] } else { Seq::empty() }
    }
}

/// The script creating the tuplets.
pub fn generate_tuplet_creation_js(tuplets: &[VexFlowTuplet]) -> (r: Result<String, String>)
    ensures
        r matches Ok(js) && js@ == join_lines(tuplet_lines(tuplet_views(tuplets@), tuplets@.len() as int)),
{
    let ghost tv = tuplet_views(tuplets@);
    let mut js_lines: Vec<String> = Vec::new();
    js_lines.push("const tuplets = [];".to_owned());
    let mut i: usize = 0;
    proof {
        assert(js_lines@.map_values(|l: String| l@) =~= tuplet_lines(tv, 0));
    }
    while i < tuplets.len()
        invariant
            tv == tuplet_views(tuplets@),
            i <= tuplets@.len(),
            js_lines@.map_values(|l: String| l@) == tuplet_lines(tv, i as int),
        decreases tuplets@.len() - i,
    {
        let tuplet = &tuplets[i];
        if tuplet.note_indices.len() >= 2 {
            let refs = join_refs_of(&tuplet.note_indices);
            let mut r = String::new();
            r.append("console.log('VexFlow: Creating tuplet ");
            append_digits(&mut r, i);
            r.append(" with ");
            append_digits(&mut r, tuplet.num_notes);
            r.append(" notes in space of ");
            append_digits(&mut r, tuplet.notes_occupied);
            r.append("');\nconst tupletNotes");
            append_digits(&mut r, i);
            r.append(" = [");
            r.append(refs.as_str());
            r.append("];\nif (tupletNotes");
            append_digits(&mut r, i);
            r.append(".every(note => note !== undefined)) {\n    const tupletOptions");
            append_digits(&mut r, i);
            r.append(" = {\n        notes_occupied: ");
            append_digits(&mut r, tuplet.notes_occupied);
            r.append(",\n        num_notes: ");
            append_digits(&mut r, tuplet.num_notes);
            r.append(",\n        bracketed: true\n    };\n    const tuplet");
            append_digits(&mut r, i);
            r.append(" = new VF.Tuplet(tupletNotes");
            append_digits(&mut r, i);
            r.append(", tupletOptions");
            append_digits(&mut r, i);
            r.append(");\n    tuplet");
            append_digits(&mut r, i);
            r.append(".setContext(context);\n    tuplets.push(tuplet");
            append_digits(&mut r, i);
            r.append(");\n    console.log('VexFlow: Tuplet ");
            append_digits(&mut r, i);
            r.append(" created and stored');\n} else {\n    console.log('ERROR: Tuplet ");
            append_digits(&mut r, i);
            r.append(" skipped due to undefined notes');\n}\n");
            proof {
                let t = tv[i as int];
                assert(t == (tuplet.note_indices@.map_values(|x: usize| x as nat), tuplet.num_notes as nat, tuplet.notes_occupied as nat));
                assert(r@ =~= tuplet_js(i as nat, t));
            }
            js_lines.push(r);
            proof {
                assert(js_lines@.map_values(|l: String| l@) =~= tuplet_lines(tv, i as int + 1));
            }
        } else {
            proof {
                assert(tuplet_lines(tv, i as int + 1) =~= tuplet_lines(tv, i as int));
            }
        }
        i = i + 1;
    }
    Ok(join_lines_of(&js_lines))
}

/// The script drawing slur `i` from note `s.0` to note `s.1`.
pub open spec fn slur_js(i: nat, s: (nat, nat)) -> Seq<char> {
    "console.log('VexFlow: Slur "@ + nat_digits(i) + " from note"@ + nat_digits(s.0) + " to note"@ + nat_digits(s.1) + "');\nconsole.log('VexFlow: Checking note"@ + nat_digits(s.0) + " and note"@ + nat_digits(s.1) + " exist...');\nif (typeof note"@ + nat_digits(s.0) + " === 'undefined') {\n    console.log('ERROR: note"@ + nat_digits(s.0) + " is undefined!');\n} else if (typeof note"@ + nat_digits(s.1) + " === 'undefined') {\n    console.log('ERROR: note"@ + nat_digits(s.1) + " is undefined!');  \n} else {\n    const curve"@ + nat_digits(i) + " = new VF.Curve(note"@ + nat_digits(s.0) + ", note"@ + nat_digits(s.1) + ", { cps: [{ x: 0, y: 10 }, { x: 0, y: 10 }] });\n    curve"@ + nat_digits(i) + ".setContext(context).draw();\n    console.log('VexFlow: Slur "@ + nat_digits(i) + " created successfully');\n}\n"@
}

/// Views of slurs.
pub open spec fn slur_views(v: Seq<VexFlowSlur>) -> Seq<(nat, nat)> {
    v.map_values(|s: VexFlowSlur| (s.from_note as nat, s.to_note as nat))
}

/// The lines drawing the first `k` slurs.
pub open spec fn slur_lines(slurs: Seq<(nat, nat)>, k: int) -> Seq<Seq<char>>
    decreases k,
{
    if k <= 0 { Seq::empty() } else { slur_lines(slurs, k - 1).push(slur_js((k - 1) as nat, slurs[k - 1])) }
}

/// The script drawing the slurs.
pub fn generate_slur_creation_js(slurs: &[VexFlowSlur]) -> (r: Result<String, String>)
    ensures
        r matches Ok(js) && js@ == join_lines(slur_lines(slur_views(slurs@), slurs@.len() as int)),
{
    let ghost sv = slur_views(slurs@);
    let mut js_lines: Vec<String> = Vec::new();
    let mut i: usize = 0;
    proof {
        assert(js_lines@.map_values(|l: String| l@) =~= slur_lines(sv, 0));
    }
    while i < slurs.len()
        invariant
            sv == slur_views(slurs@),
            i <= slurs@.len(),
            js_lines@.map_values(|l: String| l@) == slur_lines(sv, i as int),
        decreases slurs@.len() - i,
    {
        let slur = slurs[i];
        let mut r = String::new();
        r.append("console.log('VexFlow: Slur ");
        append_digits(&mut r, i);
        r.append(" from note");
        append_digits(&mut r, slur.from_note);
        r.append(" to note");
        append_digits(&mut r, slur.to_note);
        r.append("');\nconsole.log('VexFlow: Checking note");
        append_digits(&mut r, slur.from_note);
        r.append(" and note");
        append_digits(&mut r, slur.to_note);
        r.append(" exist...');\nif (typeof note");
        append_digits(&mut r, slur.from_note);
        r.append(" === 'undefined') {\n    console.log('ERROR: note");
        append_digits(&mut r, slur.from_note);
        r.append(" is undefined!');\n} else if (typeof note");
        append_digits(&mut r, slur.to_note);
        r.append(" === 'undefined') {\n    console.log('ERROR: note");
        append_digits(&mut r, slur.to_note);
        r.append(" is undefined!');  \n} else {\n    const curve");
        append_digits(&mut r, i);
        r.append(" = new VF.Curve(note");
        append_digits(&mut r, slur.from_note);
        r.append(", note");
        append_digits(&mut r, slur.to_note);
        r.append(", { cps: [{ x: 0, y: 10 }, { x: 0, y: 10 }] });\n    curve");
        append_digits(&mut r, i);
        r.append(".setContext(context).draw();\n    console.log('VexFlow: Slur ");
        append_digits(&mut r, i);
        r.append(" created successfully');\n}\n");
        proof {
            let s = sv[i as int];
            assert(s == (slur.from_note as nat, slur.to_note as nat));
            assert(r@ =~= slur_js(i as nat, s));
        }
        js_lines.push(r);
        proof {
            assert(js_lines@.map_values(|l: String| l@) =~= slur_lines(sv, i as int + 1));
        }
        i = i + 1;
    }
    Ok(join_lines_of(&js_lines))
}


/// The debug name of a bar line kind.
pub open spec fn barline_type_name(t: BarlineType) -> Seq<char> {
    match t {
        BarlineType::Single => "Single"@,
        BarlineType::Double => "Double"@,
        BarlineType::Final => "Final"@,
        BarlineType::RepeatStart => "RepeatStart"@,
        BarlineType::RepeatEnd => "RepeatEnd"@,
        BarlineType::RepeatBoth => "RepeatBoth"@,
    }
}

fn barline_type_name_of(t: &BarlineType) -> (r: &'static str)
    ensures
        r@ == barline_type_name(*t),
{
    match t {
        BarlineType::Single => "Single",
        BarlineType::Double => "Double",
        BarlineType::Final => "Final",
        BarlineType::RepeatStart => "RepeatStart",
        BarlineType::RepeatEnd => "RepeatEnd",
        BarlineType::RepeatBoth => "RepeatBoth",
    }
}

/// The lines setting the stave's first and last bar lines for one bar line;
/// bar lines within the stave give none.
pub open spec fn stave_barline_lines(b: (BarlineType, BarlinePosition)) -> Seq<Seq<char>> {
    match b.1 {
        BarlinePosition::Beginning => seq![
            "stave.setBegBarType("@ + vexflow_barline_constant(b.0) + ")"@,
            "console.log('Set beginning barline: "@ + barline_type_name(b.0) + "');"@,
        ],
        BarlinePosition::End => seq![
            "stave.setEndBarType("@ + vexflow_barline_constant(b.0) + ")"@,
            "console.log('Set end barline: "@ + barline_type_name(b.0) + "');"@,
        ],
        BarlinePosition::Middle(_) => Seq::empty(),
    }
}

/// Views of bar lines as kind and place.
pub open spec fn barline_views(v: Seq<VexFlowBarline>) -> Seq<(BarlineType, BarlinePosition)> {
    v.map_values(|b: VexFlowBarline| (b.barline_type, b.position))
}

/// The lines of the first `k` bar lines.
pub open spec fn stave_barlines_lines(bs: Seq<(BarlineType, BarlinePosition)>, k: int) -> Seq<Seq<char>>
    decreases k,
{
    if k <= 0 { Seq::empty() } else { stave_barlines_lines(bs, k - 1) + stave_barline_lines(bs[k - 1]) }
}

/// The script setting the stave's first and last bar lines, or a comment
/// saying there are none.
pub open spec fn stave_barlines_js(bs: Seq<(BarlineType, BarlinePosition)>) -> Seq<char> {
    let lines = stave_barlines_lines(bs, bs.len() as int);
    if lines.len() == 0 { "// No stave barlines to set"@ } else { join_lines(lines) }
}

/// The script setting the stave's first and last bar lines.
pub fn generate_stave_barlines_js(barlines: &[VexFlowBarline]) -> (r: Result<String, String>)
    ensures
        r matches Ok(js) && js@ == stave_barlines_js(barline_views(barlines@)),
{
    let ghost bv = barline_views(barlines@);
    let mut js_lines: Vec<String> = Vec::new();
    let mut i: usize = 0;
    proof {
        assert(js_lines@.map_values(|l: String| l@) =~= stave_barlines_lines(bv, 0));
    }
    while i < barlines.len()
        invariant
            bv == barline_views(barlines@),
            i <= barlines@.len(),
            js_lines@.map_values(|l: String| l@) == stave_barlines_lines(bv, i as int),
        decreases barlines@.len() - i,
    {
        let barline = &barlines[i];
        let ghost before = js_lines@;
        proof {
            assert(bv[i as int] == (barline.barline_type, barline.position));
        }
        match barline.position {
            BarlinePosition::Beginning => {
                let vf_type = convert_barline_type_to_vexflow(&barline.barline_type);
                let mut a = "stave.setBegBarType(".to_owned();
                a.append(vf_type.as_str());
                a.append(")");
                let mut b = "console.log('Set beginning barline: ".to_owned();
                b.append(barline_type_name_of(&barline.barline_type));
                b.append("');");
                js_lines.push(a);
                js_lines.push(b);
            },
            BarlinePosition::End => {
                let vf_type = convert_barline_type_to_vexflow(&barline.barline_type);
                let mut a = "stave.setEndBarType(".to_owned();
                a.append(vf_type.as_str());
                a.append(")");
                let mut b = "console.log('Set end barline: ".to_owned();
                b.append(barline_type_name_of(&barline.barline_type));
                b.append("');");
                js_lines.push(a);
                js_lines.push(b);
            },
            BarlinePosition::Middle(_) => {},
        }
        proof {
            assert(js_lines@.map_values(|l: String| l@) =~= stave_barlines_lines(bv, i as int + 1));
        }
        i = i + 1;
    }
    if js_lines.len() == 0 {
        js_lines.push("// No stave barlines to set".to_owned());
        proof {
            assert(js_lines@.map_values(|l: String| l@) =~= seq!["// No stave barlines to set"@]);
        }
    }
    let r = join_lines_of(&js_lines);
    proof {
        if stave_barlines_lines(bv, bv.len() as int).len() == 0 {
            let one = seq!["// No stave barlines to set"@];
            assert(join_lines(one) == one[0]);
        }
    }
    Ok(r)
}

} // verus!
