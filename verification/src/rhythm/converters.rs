//! Bar line kinds and conversion of durations into VexFlow notation.
use vstd::prelude::*;
use crate::text::{str_eq, concat_str};

verus! {

/// Kinds of bar lines.
#[derive(Clone, Copy, Debug, PartialEq, Eq, Structural)]
pub enum BarlineType {
    /// `|`
    Single,
    /// `||`
    Double,
    /// `|.`
    Final,
    /// `|:`
    RepeatStart,
    /// `:|`
    RepeatEnd,
    /// `:|:` or `|:|`
    RepeatBoth,
}

/// The bar line kind that a bar line string denotes, if any.
pub open spec fn barline_of(s: Seq<char>) -> Option<BarlineType> {
    if s == "|"@ { Some(BarlineType::Single) }
    else if s == "||"@ { Some(BarlineType::Double) }
    else if s == "|."@ { Some(BarlineType::Final) }
    else if s == "|:"@ { Some(BarlineType::RepeatStart) }
    else if s == ":|"@ { Some(BarlineType::RepeatEnd) }
    else if s == "|:|"@ || s == ":|:"@ { Some(BarlineType::RepeatBoth) }
    else { None }
}

impl BarlineType {
    /// Parses a bar line string; an unknown one is reported as
    /// `Unknown barline type: <s>`.
    pub fn from_str(s: &str) -> (r: Result<Self, String>)
        ensures
            barline_of(s@) matches Some(b) ==> r == Ok::<BarlineType, String>(b),
            barline_of(s@) is None ==> (r matches Err(msg) && msg@ == "Unknown barline type: "@ + s@),
    {
        if str_eq(s, "|") { Ok(BarlineType::Single) }
        else if str_eq(s, "||") { Ok(BarlineType::Double) }
        else if str_eq(s, "|.") { Ok(BarlineType::Final) }
        else if str_eq(s, "|:") { Ok(BarlineType::RepeatStart) }
        else if str_eq(s, ":|") { Ok(BarlineType::RepeatEnd) }
        else if str_eq(s, "|:|") || str_eq(s, ":|:") { Ok(BarlineType::RepeatBoth) }
        else { Err(concat_str("Unknown barline type: ", s)) }
    }
}

/// Whether `n/d` denotes the same rational number as `a/b` (with `b > 0`);
/// a zero denominator denotes no rational number.
pub open spec fn same_fraction(n: int, d: int, a: int, b: int) -> bool {
    d != 0 && n * b == d * a
}

/// VexFlow durations (name and number of dots) of the standard note values.
pub open spec fn vexflow_lookup(n: int, d: int) -> Seq<(Seq<char>, u8)> {
    if same_fraction(n, d, 1, 1) { seq![("w"@, 0u8)] }
    else if same_fraction(n, d, 1, 2) { seq![("h"@, 0u8)] }
    else if same_fraction(n, d, 1, 4) { seq![("q"@, 0u8)] }
    else if same_fraction(n, d, 1, 8) { seq![("8"@, 0u8)] }
    else if same_fraction(n, d, 1, 16) { seq![("16"@, 0u8)] }
    else if same_fraction(n, d, 1, 32) { seq![("32"@, 0u8)] }
    else if same_fraction(n, d, 3, 8) { seq![("q"@, 1u8)] }
    else if same_fraction(n, d, 3, 16) { seq![("8"@, 1u8)] }
    else if same_fraction(n, d, 3, 32) { seq![("16"@, 1u8)] }
    else { seq![("q"@, 0u8)] }
}

/// The views of a list of (duration, dots) pairs.
pub open spec fn duration_views(v: Seq<(String, u8)>) -> Seq<(Seq<char>, u8)> {
    v.map_values(|p: (String, u8)| (p.0@, p.1))
}

/// Converter between rhythm representations.
#[derive(Clone, Copy, Debug)]
pub struct RhythmConverter;

fn same_fraction_exec(n: u64, d: u128, a: u64, b: u64) -> (r: bool)
    requires
        a <= 3,
        b <= 32,
        d <= 4 * 18446744073709551615u128,
    ensures
        r == same_fraction(n as int, d as int, a as int, b as int),
{
    let nn = n as u128;
    let dd = d;
    let bb = b as u128;
    let aa = a as u128;
    assert(nn * bb <= 18446744073709551615u128 * 32) by (nonlinear_arith)
        requires nn <= 18446744073709551615u128, bb <= 32;
    assert(dd * aa <= 4 * 18446744073709551615u128 * 3) by (nonlinear_arith)
        requires dd <= 4 * 18446744073709551615u128, aa <= 3;
    d != 0 && nn * bb == dd * aa
}

/// The VexFlow durations of `n/d` (see `vexflow_lookup`), for a denominator
/// up to four times the largest `u64`.
pub(crate) fn vexflow_lookup_wide(n: u64, d: u128) -> (r: Vec<(String, u8)>)
    requires
        d <= 4 * 18446744073709551615u128,
    ensures
        duration_views(r@) == vexflow_lookup(n as int, d as int),
{
    if same_fraction_exec(n, d, 1, 1) { single_duration("w", 0) }
    else if same_fraction_exec(n, d, 1, 2) { single_duration("h", 0) }
    else if same_fraction_exec(n, d, 1, 4) { single_duration("q", 0) }
    else if same_fraction_exec(n, d, 1, 8) { single_duration("8", 0) }
    else if same_fraction_exec(n, d, 1, 16) { single_duration("16", 0) }
    else if same_fraction_exec(n, d, 1, 32) { single_duration("32", 0) }
    else if same_fraction_exec(n, d, 3, 8) { single_duration("q", 1) }
    else if same_fraction_exec(n, d, 3, 16) { single_duration("8", 1) }
    else if same_fraction_exec(n, d, 3, 32) { single_duration("16", 1) }
    else { single_duration("q", 0) }
}

fn single_duration(name: &str, dots: u8) -> (r: Vec<(String, u8)>)
    ensures
        duration_views(r@) == seq![(name@, dots)],
{
    let mut r = Vec::new();
    r.push((name.to_owned(), dots));
    assert(duration_views(r@) =~= seq![(name@, dots)]);
    r
}

impl RhythmConverter {
    /// VexFlow duration (name, dots) of the duration `numerator/denominator`;
    /// values outside the table fall back to a quarter note.
    pub fn fraction_to_vexflow(numerator: u64, denominator: u64) -> (r: Vec<(String, u8)>)
        ensures
            duration_views(r@) == vexflow_lookup(numerator as int, denominator as int),
    {
        vexflow_lookup_wide(numerator, denominator as u128)
    }
}

} // verus!
