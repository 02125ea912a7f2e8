//! Rhythm grouping of parsed elements into beats: notes and rests open or
//! join a beat, dashes lengthen its last element, and bar lines or line ends
//! close it, giving each element its share of the beat as a reduced fraction.
use vstd::prelude::*;
use crate::rhythm::types::{ParsedElement, ParsedElementView, elements_view};

verus! {

/// Greatest common divisor (Euclid).
pub open spec fn gcd(a: nat, b: nat) -> nat
    decreases b,
{
    if b == 0 { a } else { gcd(b, a % b) }
}

/// A fraction divided through by the greatest common divisor of its terms.
pub open spec fn reduce(n: nat, d: nat) -> (nat, nat) {
    (n / gcd(n, d), d / gcd(n, d))
}

/// The greatest common divisor divides both terms, and is positive unless both are zero.
pub proof fn lemma_gcd_divides(a: nat, b: nat) -> (k: (nat, nat))
    ensures
        a == k.0 * gcd(a, b),
        b == k.1 * gcd(a, b),
        (a > 0 || b > 0) ==> gcd(a, b) > 0,
    decreases b,
{
    if b == 0 {
        assert(a == 1 * a);
        assert(b == 0 * a);
        (1, 0)
    } else {
        let g = gcd(b, a % b);
        let (k1, k2) = lemma_gcd_divides(b, a % b);
        assert(gcd(a, b) == g);
        assert(b == k1 * g);
        let q = a / b;
        vstd::arithmetic::div_mod::lemma_fundamental_div_mod(a as int, b as int);
        assert(a == q * b + a % b) by (nonlinear_arith)
            requires a as int == b * (a as int / b as int) + (a as int % b as int), q == a / b;
        assert(a == (q * k1 + k2) * g) by (nonlinear_arith)
            requires a == q * b + a % b, b == k1 * g, a % b == k2 * g;
        (q * k1 + k2, k1)
    }
}

/// Reducing keeps the value of a fraction with a positive denominator, and
/// the reduced denominator stays positive.
pub proof fn lemma_reduce_keeps_value(n: nat, d: nat)
    requires
        d > 0,
    ensures
        reduce(n, d).1 > 0,
        reduce(n, d).0 * d == n * reduce(n, d).1,
        reduce(n, d).0 <= n,
        reduce(n, d).1 <= d,
{
    let g = gcd(n, d);
    let (k1, k2) = lemma_gcd_divides(n, d);
    assert(g > 0);
    assert(n / g == k1) by (nonlinear_arith) requires n == k1 * g, g > 0;
    assert(d / g == k2) by (nonlinear_arith) requires d == k2 * g, g > 0;
    assert(k2 > 0) by (nonlinear_arith) requires d == k2 * g, d > 0, g > 0;
    assert(k1 * d == n * k2) by (nonlinear_arith) requires n == k1 * g, d == k2 * g;
    assert(k1 <= n) by (nonlinear_arith) requires n == k1 * g, g > 0;
    assert(k2 <= d) by (nonlinear_arith) requires d == k2 * g, g > 0;
}

/// Greatest common divisor, computed.
pub fn gcd_exec(a: usize, b: usize) -> (r: usize)
    ensures
        r == gcd(a as nat, b as nat),
    decreases b,
{
    if b == 0 { a } else { gcd_exec(b, a % b) }
}

/// A fraction in lowest terms (`n/0` becomes `1/0`; `0/0` has no lowest terms).
pub fn reduce_fraction(numerator: usize, denominator: usize) -> (r: (usize, usize))
    requires
        numerator > 0 || denominator > 0,
    ensures
        (r.0 as nat, r.1 as nat) == reduce(numerator as nat, denominator as nat),
{
    let g = gcd_exec(numerator, denominator);
    proof { lemma_gcd_divides(numerator as nat, denominator as nat); }
    (numerator / g, denominator / g)
}

/// A beat being built: its elements with their subdivision counts, and the
/// beat's total number of subdivisions.
pub type BeatState = Option<(Seq<(ParsedElementView, nat)>, nat)>;

/// An element with its duration set (notes, rests and dashes); other elements
/// are unchanged.
pub open spec fn with_duration(e: ParsedElementView, n: nat, d: nat) -> ParsedElementView {
    match e {
        ParsedElementView::Note { degree, octave, value, position, children, duration: _, beat_group, slur_position, in_beat_group } =>
            ParsedElementView::Note { degree, octave, value, position, children, duration: Some((n as usize, d as usize)), beat_group, slur_position, in_beat_group },
        ParsedElementView::Rest { value, position, duration: _ } =>
            ParsedElementView::Rest { value, position, duration: Some((n as usize, d as usize)) },
        ParsedElementView::Dash { degree, octave, position, duration: _ } =>
            ParsedElementView::Dash { degree, octave, position, duration: Some((n as usize, d as usize)) },
        _ => e,
    }
}

/// The elements of a finished beat, each with its share of the beat in lowest terms.
pub open spec fn beat_output(els: Seq<(ParsedElementView, nat)>, total: nat) -> Seq<ParsedElementView> {
    Seq::new(els.len(), |i: int| with_duration(els[i].0, reduce(els[i].1, total).0, reduce(els[i].1, total).1))
}

/// The output after closing the current beat, if any.
pub open spec fn close_beat(out: Seq<ParsedElementView>, beat: BeatState) -> Seq<ParsedElementView> {
    match beat {
        Some((els, total)) => out + beat_output(els, total),
        None => out,
    }
}

/// One element's effect on the output and the beat being built.
pub open spec fn clean_step(out: Seq<ParsedElementView>, beat: BeatState, e: ParsedElementView)
    -> (Seq<ParsedElementView>, BeatState)
{
    match e {
        ParsedElementView::Note { .. } | ParsedElementView::Rest { .. } => match beat {
            Some((els, total)) => (out, Some((els.push((e, 1nat)), total + 1))),
            None => (out, Some((seq![(e, 1nat)], 1nat))),
        },
        ParsedElementView::Dash { .. } => match beat {
            Some((els, total)) => (out, Some((
                if els.len() > 0 { els.update(els.len() - 1, (els.last().0, els.last().1 + 1)) } else { els },
                total + 1))),
            None => (out, None),
        },
        ParsedElementView::Barline { .. } | ParsedElementView::Newline { .. } => (close_beat(out, beat).push(e), None),
        _ => (out.push(e), beat),
    }
}

/// The output and beat under construction after a sequence of elements.
pub open spec fn clean_run(s: Seq<ParsedElementView>) -> (Seq<ParsedElementView>, BeatState)
    decreases s.len(),
{
    if s.len() == 0 {
        (Seq::empty(), None)
    } else {
        let prev = clean_run(s.drop_last());
        clean_step(prev.0, prev.1, s.last())
    }
}

/// The elements with durations after rhythm grouping.
pub open spec fn rhythm_clean(s: Seq<ParsedElementView>) -> Seq<ParsedElementView> {
    close_beat(clean_run(s).0, clean_run(s).1)
}

/// Sum of the subdivision counts of a beat's elements.
pub open spec fn subdivision_sum(els: Seq<(ParsedElementView, nat)>) -> nat
    decreases els.len(),
{
    if els.len() == 0 { 0 } else { subdivision_sum(els.drop_last()) + els.last().1 }
}

/// A beat that is being built has at least one element, every element spans
/// at least one subdivision, and the total is their sum.
pub open spec fn beat_wf(beat: BeatState) -> bool {
    match beat {
        Some((els, total)) => els.len() > 0 && total == subdivision_sum(els)
            && forall|i: int| 0 <= i < els.len() ==> #[trigger] els[i].1 >= 1,
        None => true,
    }
}

proof fn lemma_sum_update_last(els: Seq<(ParsedElementView, nat)>)
    requires
        els.len() > 0,
    ensures
        subdivision_sum(els.update(els.len() - 1, (els.last().0, els.last().1 + 1))) == subdivision_sum(els) + 1,
{
    let u = els.update(els.len() - 1, (els.last().0, els.last().1 + 1));
    assert(u.drop_last() =~= els.drop_last());
}

proof fn lemma_sum_push(els: Seq<(ParsedElementView, nat)>, x: (ParsedElementView, nat))
    ensures
        subdivision_sum(els.push(x)) == subdivision_sum(els) + x.1,
{
    assert(els.push(x).drop_last() =~= els);
}

/// Every beat the grouping builds is well formed.
pub proof fn lemma_clean_run_beat_wf(s: Seq<ParsedElementView>)
    ensures
        beat_wf(clean_run(s).1),
    decreases s.len(),
{
    if s.len() > 0 {
        lemma_clean_run_beat_wf(s.drop_last());
        let prev = clean_run(s.drop_last());
        match prev.1 {
            Some((els, total)) => {
                lemma_sum_push(els, (s.last(), 1nat));
                if els.len() > 0 {
                    lemma_sum_update_last(els);
                }
            },
            None => {
                lemma_sum_push(Seq::empty(), (s.last(), 1nat));
                assert(seq![(s.last(), 1nat)] =~= Seq::<(ParsedElementView, nat)>::empty().push((s.last(), 1nat)));
            },
        }
    }
}

/// The durations written for a beat fill it: each element's duration `n/d`
/// equals its share `subdivisions/total` of the beat (with `d` positive), and
/// the shares add up to the total.
pub proof fn lemma_beat_durations_fill_beat(s: Seq<ParsedElementView>)
    ensures
        clean_run(s).1 matches Some((els, total)) ==> {
            &&& subdivision_sum(els) == total
            &&& forall|i: int| 0 <= i < els.len() ==> {
                &&& #[trigger] reduce(els[i].1, total).1 > 0
                &&& reduce(els[i].1, total).0 * total == els[i].1 * reduce(els[i].1, total).1
            }
        },
{
    lemma_clean_run_beat_wf(s);
    if let Some((els, total)) = clean_run(s).1 {
        assert forall|i: int| 0 <= i < els.len() implies {
            &&& #[trigger] reduce(els[i].1, total).1 > 0
            &&& reduce(els[i].1, total).0 * total == els[i].1 * reduce(els[i].1, total).1
        } by {
            assert(els[i].1 >= 1);
            assert(total > 0) by {
                lemma_sum_positive(els);
            }
            lemma_reduce_keeps_value(els[i].1, total);
        }
    }
}

proof fn lemma_sum_positive(els: Seq<(ParsedElementView, nat)>)
    requires
        els.len() > 0,
        forall|i: int| 0 <= i < els.len() ==> #[trigger] els[i].1 >= 1,
    ensures
        subdivision_sum(els) >= 1,
{
    assert(els[els.len() - 1].1 >= 1);
}


proof fn lemma_view_remove_first(v: Seq<ParsedElement>)
    requires
        v.len() > 0,
    ensures
        elements_view(v).len() == v.len(),
        elements_view(v)[0] == v[0]@,
        elements_view(v.subrange(1, v.len() as int)) == elements_view(v).skip(1),
{
    assert(elements_view(v.subrange(1, v.len() as int)) =~= elements_view(v).skip(1));
}

/// The views of a beat under construction.
pub open spec fn beat_view(b: Seq<(ParsedElement, usize)>) -> Seq<(ParsedElementView, nat)> {
    b.map_values(|x: (ParsedElement, usize)| (x.0@, x.1 as nat))
}

fn set_duration(e: ParsedElement, n: usize, d: usize) -> (r: ParsedElement)
    ensures
        r@ == with_duration(e@, n as nat, d as nat),
{
    match e {
        ParsedElement::Note { degree, octave, value, position, children, duration: _, beat_group, slur_position, in_beat_group } =>
            ParsedElement::Note { degree, octave, value, position, children, duration: Some((n, d)), beat_group, slur_position, in_beat_group },
        ParsedElement::Rest { value, position, duration: _ } =>
            ParsedElement::Rest { value, position, duration: Some((n, d)) },
        ParsedElement::Dash { degree, octave, position, duration: _ } =>
            ParsedElement::Dash { degree, octave, position, duration: Some((n, d)) },
        other => other,
    }
}

/// Appends the elements of a finished beat with their shares of the beat.
fn finish_current_beat(output: &mut Vec<ParsedElement>, beat: Vec<(ParsedElement, usize)>, total: usize)
    requires
        total > 0,
    ensures
        elements_view(final(output)@) == elements_view(old(output)@) + beat_output(beat_view(beat@), total as nat),
{
    let ghost orig = beat_view(beat@);
    let ghost start = elements_view(output@);
    let mut rest = beat;
    let ghost mut k: int = 0;
    while rest.len() > 0
        invariant
            total > 0,
            0 <= k <= orig.len(),
            beat_view(rest@) == orig.skip(k),
            elements_view(output@) == start + beat_output(orig, total as nat).take(k),
        decreases rest@.len(),
    {
        let ghost before = rest@;
        let (e, sub) = rest.remove(0);
        proof {
            assert(beat_view(rest@) =~= beat_view(before).skip(1));
            assert(orig[k] == (e@, sub as nat)) by {
                assert(beat_view(before)[0] == orig.skip(k)[0]);
            }
        }
        let (n, d) = reduce_fraction(sub, total);
        let updated = set_duration(e, n, d);
        let ghost prev_out = output@;
        output.push(updated);
        proof {
            assert(elements_view(output@) =~= elements_view(prev_out).push(updated@));
            assert(beat_output(orig, total as nat).take(k + 1) =~= beat_output(orig, total as nat).take(k).push(updated@));
            assert(orig.skip(k).skip(1) =~= orig.skip(k + 1));
            k = k + 1;
        }
    }
    proof {
        assert(beat_output(orig, total as nat).take(k) =~= beat_output(orig, total as nat));
    }
}

/// 0: note or rest, 1: dash, 2: bar line or line end, 3: anything else.
fn element_kind(e: &ParsedElement) -> (k: u8)
    ensures
        k == 0 <==> (e@ is Note || e@ is Rest),
        k == 1 <==> e@ is Dash,
        k == 2 <==> (e@ is Barline || e@ is Newline),
        k <= 3,
{
    match e {
        ParsedElement::Note { .. } | ParsedElement::Rest { .. } => 0,
        ParsedElement::Dash { .. } => 1,
        ParsedElement::Barline { .. } | ParsedElement::Newline { .. } => 2,
        _ => 3,
    }
}

/// Groups elements into beats and gives every note, rest or dash of a beat
/// its share of the beat as a reduced fraction: see `rhythm_clean`. Bar lines
/// and line ends close the current beat; other elements pass through where
/// they stand, so they do not separate beats.
pub fn process_rhythm_v2_clean(elements: Vec<ParsedElement>) -> (r: Vec<ParsedElement>)
    ensures
        elements_view(r@) == rhythm_clean(elements_view(elements@)),
{
    let ghost all = elements_view(elements@);
    let n = elements.len();
    assert(all.len() == n);
    let mut input = elements;
    let mut output: Vec<ParsedElement> = Vec::new();
    let mut beat: Vec<(ParsedElement, usize)> = Vec::new();
    let mut active: bool = false;
    let mut total: usize = 0;
    let ghost mut i: int = 0;
    proof {
        assert(all.take(0) =~= Seq::<ParsedElementView>::empty());
        assert(elements_view(output@) =~= Seq::<ParsedElementView>::empty());
        assert(all.skip(0) =~= all);
    }
    while input.len() > 0
        invariant
            0 <= i <= all.len(),
            all.len() <= usize::MAX,
            elements_view(input@) == all.skip(i),
            clean_run(all.take(i)).0 == elements_view(output@),
            clean_run(all.take(i)).1 == (if active { Some((beat_view(beat@), total as nat)) } else { None }),
            !active ==> beat@.len() == 0,
            active ==> total > 0,
            total <= i,
            forall|j: int| 0 <= j < beat@.len() ==> #[trigger] beat@[j].1 <= total,
        decreases input@.len(),
    {
        let ghost before_input = input@;
        let element = input.remove(0);
        proof {
            lemma_view_remove_first(before_input);
            assert(input@ =~= before_input.subrange(1, before_input.len() as int));
            assert(all.skip(i).skip(1) =~= all.skip(i + 1));
            assert(elements_view(input@) =~= all.skip(i + 1));
            assert(all[i] == element@) by {
                assert(elements_view(before_input)[0] == all.skip(i)[0]);
            }
            assert(all.take(i + 1).drop_last() =~= all.take(i));
            assert(all.take(i + 1).last() == element@);
            i = i + 1;
        }
        let kind = element_kind(&element);
        let ghost prev_beat = beat@;
        let ghost prev_out = output@;
        if kind == 0 {
            if active {
                total = total + 1;
                beat.push((element, 1));
                proof { assert(beat_view(beat@) =~= beat_view(prev_beat).push((all[i - 1], 1nat))); }
            } else {
                beat.push((element, 1));
                total = 1;
                active = true;
                proof { assert(beat_view(beat@) =~= seq![(all[i - 1], 1nat)]); }
            }
        } else if kind == 1 {
            if active {
                total = total + 1;
                if beat.len() > 0 {
                    let (last, sub) = beat.pop().unwrap();
                    beat.push((last, sub + 1));
                    proof {
                        assert(beat_view(beat@) =~= beat_view(prev_beat).update(prev_beat.len() - 1,
                            (beat_view(prev_beat).last().0, beat_view(prev_beat).last().1 + 1)));
                    }
                }
            }
        } else if kind == 2 {
            if active {
                let mut finished: Vec<(ParsedElement, usize)> = Vec::new();
                std::mem::swap(&mut finished, &mut beat);
                finish_current_beat(&mut output, finished, total);
                active = false;
                total = 0;
            }
            let ghost closed = output@;
            output.push(element);
            proof { assert(elements_view(output@) =~= elements_view(closed).push(all[i - 1])); }
        } else {
            output.push(element);
            proof { assert(elements_view(output@) =~= elements_view(prev_out).push(all[i - 1])); }
        }
    }
    proof {
        assert(all.take(i) =~= all);
    }
    if active {
        finish_current_beat(&mut output, beat, total);
    }
    output
}

} // verus!
