//! Conversion of note durations (fractions of a whole note) into LilyPond
//! duration strings.
use vstd::prelude::*;
use crate::text::{nat_digits, u64_to_string};

verus! {

/// The LilyPond string of the common durations that `duration_to_lilypond` knows.
pub open spec fn simple_duration_spec(num: u32, den: u32) -> Seq<char> {
    if num == 1 && den == 1 { "1"@ }
    else if num == 1 && den == 2 { "2"@ }
    else if num == 1 && den == 4 { "4"@ }
    else if num == 1 && den == 8 { "8"@ }
    else if num == 1 && den == 16 { "16"@ }
    else if num == 3 && den == 8 { "4."@ }
    else if num == 3 && den == 16 { "8."@ }
    else { "4"@ }
}

/// Maps a duration fraction to a LilyPond duration; anything that is not a
/// plain, dotted quarter or dotted eighth value falls back to a quarter note.
pub fn duration_to_lilypond(duration_num: u32, duration_den: u32) -> (s: String)
    ensures
        s@ == simple_duration_spec(duration_num, duration_den),
{
    if duration_num == 1 && duration_den == 1 { "1".to_owned() }
    else if duration_num == 1 && duration_den == 2 { "2".to_owned() }
    else if duration_num == 1 && duration_den == 4 { "4".to_owned() }
    else if duration_num == 1 && duration_den == 8 { "8".to_owned() }
    else if duration_num == 1 && duration_den == 16 { "16".to_owned() }
    else if duration_num == 3 && duration_den == 8 { "4.".to_owned() }
    else if duration_num == 3 && duration_den == 16 { "8.".to_owned() }
    else { "4".to_owned() }
}

/// The notes joined by single spaces.
pub open spec fn join_spaces(notes: Seq<Seq<char>>) -> Seq<char>
    decreases notes.len(),
{
    if notes.len() == 0 {
        Seq::empty()
    } else if notes.len() == 1 {
        notes[0]
    } else {
        join_spaces(notes.drop_last()) + " "@ + notes.last()
    }
}

/// The view of each string of a vector.
pub open spec fn string_views(v: Seq<String>) -> Seq<Seq<char>> {
    v.map_values(|s: String| s@)
}

/// `\tuplet num/den { notes }`.
pub open spec fn tuplet_spec(num: u32, den: u32, notes: Seq<Seq<char>>) -> Seq<char> {
    "\\tuplet "@ + nat_digits(num as nat) + "/"@ + nat_digits(den as nat) + " { "@
        + join_spaces(notes) + " }"@
}

/// Joins strings with single spaces.
pub fn join_with_spaces(notes: &[String]) -> (s: String)
    ensures
        s@ == join_spaces(string_views(notes@)),
{
    let mut s = String::new();
    let mut i: usize = 0;
    while i < notes.len()
        invariant
            i <= notes.len(),
            s@ == join_spaces(string_views(notes@.take(i as int))),
        decreases notes.len() - i,
    {
        let ghost prev = notes@.take(i as int);
        assert(string_views(notes@.take(i + 1)).drop_last() =~= string_views(prev));
        if i > 0 {
            s.append(" ");
        }
        s.append(notes[i].as_str());
        i = i + 1;
        proof {
            let cur = string_views(notes@.take(i as int));
            if i == 1 {
                assert(s@ =~= cur[0]);
            } else {
                assert(cur.last() == notes@[i - 1]@);
            }
        }
    }
    assert(notes@.take(notes.len() as int) =~= notes@);
    s
}

/// Renders a tuplet of already formatted notes in LilyPond syntax.
pub fn tuplet_to_lilypond(tuplet_ratio: (u32, u32), notes: &[String]) -> (s: String)
    ensures
        s@ == tuplet_spec(tuplet_ratio.0, tuplet_ratio.1, string_views(notes@)),
{
    let (num, den) = tuplet_ratio;
    let notes_str = join_with_spaces(notes);
    let mut s = "\\tuplet ".to_owned();
    s.append(u64_to_string(num as u64).as_str());
    s.append("/");
    s.append(u64_to_string(den as u64).as_str());
    s.append(" { ");
    s.append(notes_str.as_str());
    s.append(" }");
    s
}

} // verus!
