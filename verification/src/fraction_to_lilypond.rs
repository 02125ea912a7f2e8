//! Conversion of an arbitrary duration fraction into LilyPond durations,
//! tied together where one duration does not suffice.
use vstd::prelude::*;
use crate::text::{int_decimal, i64_to_string};

verus! {

/// LilyPond durations for the plain, dotted and double dotted note values.
pub open spec fn lilypond_table(n: int, d: int) -> Option<Seq<char>> {
    if n == 1 && d == 1 { Some("1"@) }
    else if n == 1 && d == 2 { Some("2"@) }
    else if n == 1 && d == 4 { Some("4"@) }
    else if n == 1 && d == 8 { Some("8"@) }
    else if n == 1 && d == 16 { Some("16"@) }
    else if n == 1 && d == 32 { Some("32"@) }
    else if n == 1 && d == 64 { Some("64"@) }
    else if n == 1 && d == 128 { Some("128"@) }
    else if n == 3 && d == 2 { Some("1."@) }
    else if n == 3 && d == 4 { Some("2."@) }
    else if n == 3 && d == 8 { Some("4."@) }
    else if n == 3 && d == 16 { Some("8."@) }
    else if n == 3 && d == 32 { Some("16."@) }
    else if n == 3 && d == 64 { Some("32."@) }
    else if n == 3 && d == 128 { Some("64."@) }
    else if n == 7 && d == 4 { Some("1.."@) }
    else if n == 7 && d == 8 { Some("2.."@) }
    else if n == 7 && d == 16 { Some("4.."@) }
    else if n == 7 && d == 32 { Some("8.."@) }
    else if n == 7 && d == 64 { Some("16.."@) }
    else if n == 7 && d == 128 { Some("32.."@) }
    else { None }
}

/// The largest power of two `p <= start` (from 128, 64, ..., 1) with `n * p <= d`, or -1.
pub open spec fn best_power_from(n: int, d: int, start: int) -> int
    decreases start,
{
    if start < 1 {
        -1
    } else if n * start <= d {
        start
    } else {
        best_power_from(n, d, start / 2)
    }
}

/// The largest of the note denominators 128, 64, ..., 1 whose unit still fits in `n/d`.
pub open spec fn best_power(n: int, d: int) -> int {
    best_power_from(n, d, 128)
}

/// `count` copies of `s`, separated by ties `~`.
pub open spec fn tied_copies(count: int, s: Seq<char>) -> Seq<Seq<char>>
    decreases count,
{
    if count <= 0 {
        Seq::empty()
    } else if count == 1 {
        seq![s]
    } else {
        tied_copies(count - 1, s) + seq!["~"@, s]
    }
}

/// What `fraction_to_lilypond` returns.  A fraction that is no table entry is
/// decomposed greedily into the largest note value that fits; the decomposition
/// ends at once when the fraction is exactly that note value (the quotient
/// `d / p` is emitted), and otherwise revisits the same reduced fraction, which
/// triggers the fallback of `numerator` tied notes of length `1/denominator`.
pub open spec fn fraction_to_lilypond_spec(n: i32, d: i32) -> Seq<Seq<char>> {
    if d == 0 {
        seq!["Invalid denominator"@]
    } else if lilypond_table(n as int, d as int) is Some {
        seq![lilypond_table(n as int, d as int)->0]
    } else if n <= 0 {
        Seq::empty()
    } else if best_power(n as int, d as int) == -1 {
        seq!["Complex: "@ + int_decimal(n as int) + "/"@ + int_decimal(d as int)]
    } else if n * best_power(n as int, d as int) == d {
        seq![int_decimal(n as int)]
    } else {
        tied_copies(n as int, int_decimal(d as int))
    }
}

/// The inputs on which the greedy decomposition stays within 32-bit arithmetic.
pub open spec fn fraction_fits_i32(n: i32, d: i32) -> bool {
    ||| d == 0
    ||| lilypond_table(n as int, d as int) is Some
    ||| n <= 0
    ||| (n <= 16777215 && (best_power(n as int, d as int) == -1
        || d * best_power(n as int, d as int) <= i32::MAX))
}

/// Looks up the direct table entry.
fn table_lookup(n: i32, d: i32) -> (r: Option<String>)
    ensures
        r is Some <==> lilypond_table(n as int, d as int) is Some,
        r matches Some(s) ==> s@ == lilypond_table(n as int, d as int)->0,
{
    if n == 1 {
        if d == 1 { Some("1".to_owned()) }
        else if d == 2 { Some("2".to_owned()) }
        else if d == 4 { Some("4".to_owned()) }
        else if d == 8 { Some("8".to_owned()) }
        else if d == 16 { Some("16".to_owned()) }
        else if d == 32 { Some("32".to_owned()) }
        else if d == 64 { Some("64".to_owned()) }
        else if d == 128 { Some("128".to_owned()) }
        else { None }
    } else if n == 3 {
        if d == 2 { Some("1.".to_owned()) }
        else if d == 4 { Some("2.".to_owned()) }
        else if d == 8 { Some("4.".to_owned()) }
        else if d == 16 { Some("8.".to_owned()) }
        else if d == 32 { Some("16.".to_owned()) }
        else if d == 64 { Some("32.".to_owned()) }
        else if d == 128 { Some("64.".to_owned()) }
        else { None }
    } else if n == 7 {
        if d == 4 { Some("1..".to_owned()) }
        else if d == 8 { Some("2..".to_owned()) }
        else if d == 16 { Some("4..".to_owned()) }
        else if d == 32 { Some("8..".to_owned()) }
        else if d == 64 { Some("16..".to_owned()) }
        else if d == 128 { Some("32..".to_owned()) }
        else { None }
    } else {
        None
    }
}

/// Searches 128, 64, ..., 1 for the first note denominator whose unit fits.
fn find_best_power(n: i32, d: i32) -> (p: i32)
    requires
        1 <= n <= 16777215,
    ensures
        p as int == best_power(n as int, d as int),
        p == -1 || 1 <= p <= 128,
{
    let mut p: i32 = 128;
    while p >= 1
        invariant
            p == 0 || p == 1 || p == 2 || p == 4 || p == 8 || p == 16 || p == 32 || p == 64 || p == 128,
            1 <= n <= 16777215,
            best_power_from(n as int, d as int, p as int) == best_power(n as int, d as int),
        decreases p,
    {
        assert(n * p <= 16777215 * 128) by (nonlinear_arith)
            requires 1 <= n <= 16777215, 0 <= p <= 128;
        if n * p <= d {
            return p;
        }
        p = p / 2;
    }
    -1
}

/// Convert a fraction of a whole note into LilyPond durations joined by ties.
/// Table values (plain, dotted, double dotted) map directly; other fractions
/// go through the greedy decomposition with loop detection described at
/// `fraction_to_lilypond_spec`.
pub fn fraction_to_lilypond(numerator: i32, denominator: i32) -> (r: Vec<String>)
    requires
        fraction_fits_i32(numerator, denominator),
    ensures
        crate::lilypond_duration::string_views(r@) == fraction_to_lilypond_spec(numerator, denominator),
{
    if denominator == 0 {
        let mut r = Vec::new();
        r.push("Invalid denominator".to_owned());
        assert(crate::lilypond_duration::string_views(r@) =~= seq!["Invalid denominator"@]);
        return r;
    }
    if let Some(s) = table_lookup(numerator, denominator) {
        let mut r = Vec::new();
        r.push(s);
        assert(crate::lilypond_duration::string_views(r@) =~= fraction_to_lilypond_spec(numerator, denominator));
        return r;
    }
    if numerator <= 0 {
        let r: Vec<String> = Vec::new();
        assert(crate::lilypond_duration::string_views(r@) =~= fraction_to_lilypond_spec(numerator, denominator));
        return r;
    }
    let best = find_best_power(numerator, denominator);
    if best == -1 {
        let mut msg = "Complex: ".to_owned();
        msg.append(i64_to_string(numerator as i64).as_str());
        msg.append("/");
        msg.append(i64_to_string(denominator as i64).as_str());
        let mut r = Vec::new();
        r.push(msg);
        assert(crate::lilypond_duration::string_views(r@) =~= fraction_to_lilypond_spec(numerator, denominator));
        return r;
    }
    assert(numerator * best <= 16777215 * 128) by (nonlinear_arith)
        requires 1 <= numerator <= 16777215, 1 <= best <= 128;
    if numerator * best == denominator {
        let mut r = Vec::new();
        r.push(i64_to_string((denominator / best) as i64));
        proof {
            assert(denominator / best == numerator) by (nonlinear_arith)
                requires numerator * best == denominator, best >= 1;
        }
        assert(crate::lilypond_duration::string_views(r@) =~= fraction_to_lilypond_spec(numerator, denominator));
        return r;
    }
    tie_fallback(numerator, denominator)
}

/// `numerator` notes of length `1/denominator`, tied together.
fn tie_fallback(numerator: i32, denominator: i32) -> (r: Vec<String>)
    ensures
        crate::lilypond_duration::string_views(r@) == tied_copies(numerator as int, int_decimal(denominator as int)),
{
    let ghost unit = int_decimal(denominator as int);
    let mut r: Vec<String> = Vec::new();
    let mut count: i32 = 0;
    let target: i32 = if numerator > 0 { numerator } else { 0 };
    while count < target
        invariant
            0 <= count <= target,
            unit == int_decimal(denominator as int),
            target == (if numerator > 0 { numerator } else { 0 }),
            crate::lilypond_duration::string_views(r@) == tied_copies(count as int, unit),
        decreases target - count,
    {
        let ghost prev = r@;
        if count > 0 {
            r.push("~".to_owned());
        }
        let ghost mid = r@;
        let item = i64_to_string(denominator as i64);
        assert(item@ == unit);
        r.push(item);
        count = count + 1;
        proof {
            assert(r@ == mid.push(item));
            assert(crate::lilypond_duration::string_views(r@) =~= crate::lilypond_duration::string_views(mid).push(unit));
            if count == 1 {
                assert(crate::lilypond_duration::string_views(r@) =~= seq![unit]);
            } else {
                assert(crate::lilypond_duration::string_views(r@) =~= crate::lilypond_duration::string_views(prev) + seq!["~"@, unit]);
            }
        }
    }
    proof {
        if numerator <= 0 {
            assert(tied_copies(numerator as int, unit) =~= tied_copies(0, unit));
        }
    }
    r
}

} // verus!

verus! {

/// How many `.` end a text.
pub open spec fn trailing_dots(s: Seq<char>) -> nat
    decreases s.len(),
{
    if s.len() > 0 && s.last() == '.' { 1 + trailing_dots(s.drop_last()) } else { 0 }
}

/// The number a text of decimal digits writes.
pub open spec fn decimal_value(s: Seq<char>) -> nat
    decreases s.len(),
{
    if s.len() == 0 { 0 } else { decimal_value(s.drop_last()) * 10 + ((s.last() as nat) - ('0' as nat)) as nat }
}

/// Whether every character is a decimal digit.
pub open spec fn all_decimal(s: Seq<char>) -> bool
    decreases s.len(),
{
    s.len() == 0 || ('0' <= s.last() && s.last() <= '9' && all_decimal(s.drop_last()))
}

/// Two to the power `j`.
pub open spec fn two_to(j: nat) -> nat
    decreases j,
{
    if j == 0 { 1 } else { 2 * two_to((j - 1) as nat) }
}

/// Whether a text is a LilyPond duration: a note value in digits followed by dots.
pub open spec fn duration_text_ok(s: Seq<char>) -> bool {
    let j = trailing_dots(s);
    let k = s.subrange(0, s.len() - j);
    k.len() > 0 && all_decimal(k) && decimal_value(k) > 0
}

/// The length of a LilyPond duration as a fraction (numerator, denominator)
/// of a whole note: the note value `1/k` with `j` dots lasts
/// `(1/k)(2 - 1/2^j)`, that is `(2^(j+1) - 1) / (k 2^j)`.
pub open spec fn duration_text_value(s: Seq<char>) -> (nat, nat) {
    let j = trailing_dots(s);
    let k = decimal_value(s.subrange(0, s.len() - j));
    ((two_to(j + 1) - 1) as nat, k * two_to(j))
}

/// `j` dots.
pub open spec fn dots(j: nat) -> Seq<char> {
    Seq::new(j, |i: int| '.')
}

/// Dots written after a text that does not end in a dot are its trailing
/// dots, and cutting them off gives the text back.
proof fn lemma_digits_then_dots(k: Seq<char>, j: nat)
    requires
        k.len() > 0,
        k.last() != '.',
    ensures
        trailing_dots(k + dots(j)) == j,
        (k + dots(j)).subrange(0, (k + dots(j)).len() - j) =~= k,
    decreases j,
{
    if j == 0 {
        assert(k + dots(0) =~= k);
    } else {
        lemma_digits_then_dots(k, (j - 1) as nat);
        assert((k + dots(j)).drop_last() =~= k + dots((j - 1) as nat));
    }
}

/// The length of a note value in digits followed by `j` dots.
proof fn lemma_text_length(k: Seq<char>, j: nat)
    requires
        k.len() > 0,
        k.last() != '.',
        all_decimal(k),
        decimal_value(k) > 0,
    ensures
        duration_text_ok(k + dots(j)),
        duration_text_value(k + dots(j)) == ((two_to(j + 1) - 1) as nat, decimal_value(k) * two_to(j)),
{
    lemma_digits_then_dots(k, j);
}

proof fn lemma_one_digit(a: char)
    requires
        '0' <= a <= '9',
    ensures
        all_decimal(seq![a]),
        decimal_value(seq![a]) == (a as nat) - ('0' as nat),
{
    reveal_with_fuel(decimal_value, 2);
    reveal_with_fuel(all_decimal, 2);
    assert(seq![a].drop_last() =~= Seq::<char>::empty());
}

proof fn lemma_two_digits(a: char, b: char)
    requires
        '0' <= a <= '9',
        '0' <= b <= '9',
    ensures
        all_decimal(seq![a, b]),
        decimal_value(seq![a, b]) == ((a as nat) - ('0' as nat)) * 10 + (b as nat) - ('0' as nat),
{
    lemma_one_digit(a);
    assert(seq![a, b].drop_last() =~= seq![a]);
}

proof fn lemma_three_digits(a: char, b: char, c: char)
    requires
        '0' <= a <= '9',
        '0' <= b <= '9',
        '0' <= c <= '9',
    ensures
        all_decimal(seq![a, b, c]),
        decimal_value(seq![a, b, c]) == (((a as nat) - ('0' as nat)) * 10 + (b as nat) - ('0' as nat)) * 10
            + (c as nat) - ('0' as nat),
{
    lemma_two_digits(a, b);
    assert(seq![a, b, c].drop_last() =~= seq![a, b]);
}

/// A note value `1/k` in digits with `j <= 2` dots has length `n/d` when
/// `(2^(j+1) - 1) d == n k 2^j`.
proof fn lemma_table_entry(k: Seq<char>, j: nat, kv: nat, n: int, d: int)
    requires
        k.len() > 0,
        k.last() != '.',
        all_decimal(k),
        decimal_value(k) == kv,
        kv > 0,
        j <= 2,
        (if j == 0 { 1int } else if j == 1 { 3int } else { 7int }) * d
            == n * kv * (if j == 0 { 1int } else if j == 1 { 2int } else { 4int }),
    ensures
        duration_text_ok(k + dots(j)),
        duration_text_value(k + dots(j)).0 * d == n * duration_text_value(k + dots(j)).1,
{
    reveal_with_fuel(two_to, 4);
    lemma_text_length(k, j);
    let a: int = if j == 0 { 1 } else if j == 1 { 3 } else { 7 };
    let t: int = if j == 0 { 1 } else if j == 1 { 2 } else { 4 };
    assert(two_to(j + 1) - 1 == a && two_to(j) == t);
    assert(n * kv * t == n * (kv * t)) by (nonlinear_arith);
}

/// A fraction the table writes as one duration is written with a duration
/// of exactly that length.
#[verifier::spinoff_prover]
pub proof fn lemma_table_duration_has_its_value(n: int, d: int)
    ensures
        lilypond_table(n, d) matches Some(s) ==> duration_text_ok(s)
            && duration_text_value(s).0 * d == n * duration_text_value(s).1,
{
    if n == 1 && d == 1 {
        reveal_strlit("1");
        assert("1"@ =~= seq!['1'] + dots(0));
        lemma_one_digit('1');
        lemma_table_entry(seq!['1'], 0, 1, 1, 1);
        assert(lilypond_table(n, d) == Some("1"@));
    } else if n == 1 && d == 2 {
        reveal_strlit("2");
        assert("2"@ =~= seq!['2'] + dots(0));
        lemma_one_digit('2');
        lemma_table_entry(seq!['2'], 0, 2, 1, 2);
        assert(lilypond_table(n, d) == Some("2"@));
    } else if n == 1 && d == 4 {
        reveal_strlit("4");
        assert("4"@ =~= seq!['4'] + dots(0));
        lemma_one_digit('4');
        lemma_table_entry(seq!['4'], 0, 4, 1, 4);
        assert(lilypond_table(n, d) == Some("4"@));
    } else if n == 1 && d == 8 {
        reveal_strlit("8");
        assert("8"@ =~= seq!['8'] + dots(0));
        lemma_one_digit('8');
        lemma_table_entry(seq!['8'], 0, 8, 1, 8);
        assert(lilypond_table(n, d) == Some("8"@));
    } else if n == 1 && d == 16 {
        reveal_strlit("16");
        assert("16"@ =~= seq!['1', '6'] + dots(0));
        lemma_two_digits('1', '6');
        lemma_table_entry(seq!['1', '6'], 0, 16, 1, 16);
        assert(lilypond_table(n, d) == Some("16"@));
    } else if n == 1 && d == 32 {
        reveal_strlit("32");
        assert("32"@ =~= seq!['3', '2'] + dots(0));
        lemma_two_digits('3', '2');
        lemma_table_entry(seq!['3', '2'], 0, 32, 1, 32);
        assert(lilypond_table(n, d) == Some("32"@));
    } else if n == 1 && d == 64 {
        reveal_strlit("64");
        assert("64"@ =~= seq!['6', '4'] + dots(0));
        lemma_two_digits('6', '4');
        lemma_table_entry(seq!['6', '4'], 0, 64, 1, 64);
        assert(lilypond_table(n, d) == Some("64"@));
    } else if n == 1 && d == 128 {
        reveal_strlit("128");
        assert("128"@ =~= seq!['1', '2', '8'] + dots(0));
        lemma_three_digits('1', '2', '8');
        lemma_table_entry(seq!['1', '2', '8'], 0, 128, 1, 128);
        assert(lilypond_table(n, d) == Some("128"@));
    } else if n == 3 && d == 2 {
        reveal_strlit("1.");
        assert("1."@ =~= seq!['1'] + dots(1));
        lemma_one_digit('1');
        lemma_table_entry(seq!['1'], 1, 1, 3, 2);
        assert(lilypond_table(n, d) == Some("1."@));
    } else if n == 3 && d == 4 {
        reveal_strlit("2.");
        assert("2."@ =~= seq!['2'] + dots(1));
        lemma_one_digit('2');
        lemma_table_entry(seq!['2'], 1, 2, 3, 4);
        assert(lilypond_table(n, d) == Some("2."@));
    } else if n == 3 && d == 8 {
        reveal_strlit("4.");
        assert("4."@ =~= seq!['4'] + dots(1));
        lemma_one_digit('4');
        lemma_table_entry(seq!['4'], 1, 4, 3, 8);
        assert(lilypond_table(n, d) == Some("4."@));
    } else if n == 3 && d == 16 {
        reveal_strlit("8.");
        assert("8."@ =~= seq!['8'] + dots(1));
        lemma_one_digit('8');
        lemma_table_entry(seq!['8'], 1, 8, 3, 16);
        assert(lilypond_table(n, d) == Some("8."@));
    } else if n == 3 && d == 32 {
        reveal_strlit("16.");
        assert("16."@ =~= seq!['1', '6'] + dots(1));
        lemma_two_digits('1', '6');
        lemma_table_entry(seq!['1', '6'], 1, 16, 3, 32);
        assert(lilypond_table(n, d) == Some("16."@));
    } else if n == 3 && d == 64 {
        reveal_strlit("32.");
        assert("32."@ =~= seq!['3', '2'] + dots(1));
        lemma_two_digits('3', '2');
        lemma_table_entry(seq!['3', '2'], 1, 32, 3, 64);
        assert(lilypond_table(n, d) == Some("32."@));
    } else if n == 3 && d == 128 {
        reveal_strlit("64.");
        assert("64."@ =~= seq!['6', '4'] + dots(1));
        lemma_two_digits('6', '4');
        lemma_table_entry(seq!['6', '4'], 1, 64, 3, 128);
        assert(lilypond_table(n, d) == Some("64."@));
    } else if n == 7 && d == 4 {
        reveal_strlit("1..");
        assert("1.."@ =~= seq!['1'] + dots(2));
        lemma_one_digit('1');
        lemma_table_entry(seq!['1'], 2, 1, 7, 4);
        assert(lilypond_table(n, d) == Some("1.."@));
    } else if n == 7 && d == 8 {
        reveal_strlit("2..");
        assert("2.."@ =~= seq!['2'] + dots(2));
        lemma_one_digit('2');
        lemma_table_entry(seq!['2'], 2, 2, 7, 8);
        assert(lilypond_table(n, d) == Some("2.."@));
    } else if n == 7 && d == 16 {
        reveal_strlit("4..");
        assert("4.."@ =~= seq!['4'] + dots(2));
        lemma_one_digit('4');
        lemma_table_entry(seq!['4'], 2, 4, 7, 16);
        assert(lilypond_table(n, d) == Some("4.."@));
    } else if n == 7 && d == 32 {
        reveal_strlit("8..");
        assert("8.."@ =~= seq!['8'] + dots(2));
        lemma_one_digit('8');
        lemma_table_entry(seq!['8'], 2, 8, 7, 32);
        assert(lilypond_table(n, d) == Some("8.."@));
    } else if n == 7 && d == 64 {
        reveal_strlit("16..");
        assert("16.."@ =~= seq!['1', '6'] + dots(2));
        lemma_two_digits('1', '6');
        lemma_table_entry(seq!['1', '6'], 2, 16, 7, 64);
        assert(lilypond_table(n, d) == Some("16.."@));
    } else if n == 7 && d == 128 {
        reveal_strlit("32..");
        assert("32.."@ =~= seq!['3', '2'] + dots(2));
        lemma_two_digits('3', '2');
        lemma_table_entry(seq!['3', '2'], 2, 32, 7, 128);
        assert(lilypond_table(n, d) == Some("32.."@));
    }
}

/// What `fraction_to_lilypond` returns for a fraction in the table is one
/// duration of exactly that length.
pub proof fn lemma_fraction_to_lilypond_value(n: i32, d: i32)
    requires
        d != 0,
        lilypond_table(n as int, d as int) is Some,
    ensures
        fraction_to_lilypond_spec(n, d).len() == 1,
        duration_text_ok(fraction_to_lilypond_spec(n, d)[0]),
        duration_text_value(fraction_to_lilypond_spec(n, d)[0]).0 * d == n * duration_text_value(fraction_to_lilypond_spec(n, d)[0]).1,
{
    lemma_table_duration_has_its_value(n as int, d as int);
}


/// The decimal digits of a positive number are a note value of that number.
proof fn lemma_digits_value(m: nat)
    requires
        m > 0,
    ensures
        crate::text::nat_digits(m).len() > 0,
        crate::text::nat_digits(m).last() != '.',
        all_decimal(crate::text::nat_digits(m)),
        decimal_value(crate::text::nat_digits(m)) == m,
    decreases m,
{
    let s = crate::text::nat_digits(m);
    if m < 10 {
        assert(s == seq![crate::text::digit_char(m)]);
        lemma_one_digit(crate::text::digit_char(m));
    } else {
        lemma_digits_value(m / 10);
        let q = crate::text::nat_digits(m / 10);
        assert(s == q.push(crate::text::digit_char(m % 10)));
        assert(s.drop_last() =~= q);
        assert(s.last() == crate::text::digit_char(m % 10));
    }
}

proof fn lemma_best_power_fits(n: int, d: int, start: int)
    requires
        n > 0,
        best_power_from(n, d, start) != -1,
    ensures
        best_power_from(n, d, start) >= 1,
        n * best_power_from(n, d, start) <= d,
    decreases start,
{
    if start >= 1 && n * start > d {
        lemma_best_power_fits(n, d, start / 2);
    }
}

/// `c >= 1` copies tied together: the copy at each even position, `~` between.
proof fn lemma_tied_copies_shape(c: int, s: Seq<char>)
    requires
        c >= 1,
    ensures
        tied_copies(c, s).len() == 2 * c - 1,
        forall|i: int| 0 <= i < 2 * c - 1 ==>
            #[trigger] tied_copies(c, s)[i] == (if i % 2 == 0 { s } else { "~"@ }),
    decreases c,
{
    if c > 1 {
        lemma_tied_copies_shape(c - 1, s);
    }
}

/// A fraction that is no table entry and is not one note value is written
/// as `n` durations of exactly `1/d` each, tied with `~`: together `n/d`.
pub proof fn lemma_fraction_ties_add_up(n: i32, d: i32)
    requires
        d != 0,
        lilypond_table(n as int, d as int) is None,
        n > 0,
        best_power(n as int, d as int) != -1,
        n * best_power(n as int, d as int) != d,
    ensures
        fraction_to_lilypond_spec(n, d).len() == 2 * n - 1,
        forall|i: int| 0 <= i < 2 * n - 1 ==> {
            let t = #[trigger] fraction_to_lilypond_spec(n, d)[i];
            &&& i % 2 == 0 ==> duration_text_ok(t) && duration_text_value(t) == (1nat, d as nat)
            &&& i % 2 == 1 ==> t == "~"@
        },
{
    lemma_best_power_fits(n as int, d as int, 128);
    let p = best_power(n as int, d as int);
    assert(n * p >= 1) by (nonlinear_arith)
        requires n > 0, p >= 1;
    let k = crate::text::nat_digits(d as nat);
    assert(crate::text::int_decimal(d as int) == k);
    lemma_digits_value(d as nat);
    lemma_text_length(k, 0);
    assert(k + dots(0) =~= k);
    assert(two_to(1) == 2 && two_to(0) == 1) by { reveal_with_fuel(two_to, 2); }
    assert(k + dots(0) == k);
    assert(duration_text_value(k + dots(0)) == ((two_to(1) - 1) as nat, decimal_value(k) * two_to(0)));
    assert(decimal_value(k) * two_to(0) == d as nat) by (nonlinear_arith)
        requires two_to(0) == 1, decimal_value(k) == d as nat;
    lemma_tied_copies_shape(n as int, k);
    let r = fraction_to_lilypond_spec(n, d);
    assert(r == tied_copies(n as int, k));
    assert(duration_text_ok(k) && duration_text_value(k) == (1nat, d as nat));
    assert forall|i: int| 0 <= i < 2 * n - 1 implies {
        let t = #[trigger] r[i];
        &&& i % 2 == 0 ==> duration_text_ok(t) && duration_text_value(t) == (1nat, d as nat)
        &&& i % 2 == 1 ==> t == "~"@
    } by {
        assert(r[i] == tied_copies(n as int, k)[i]);
    }
}

} // verus!
