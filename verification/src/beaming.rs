//! Beam grouping: maximal runs of at least two consecutive beamable notes
//! are beamed together, the first note starting and the last ending the beam.
use vstd::prelude::*;

verus! {

/// First index of the run of beamable entries that ends at `i`.
pub open spec fn run_start(b: Seq<bool>, i: int) -> int
    decreases i,
{
    if i > 0 && b[i - 1] { run_start(b, i - 1) } else { i }
}

/// Last index of the run of beamable entries that starts at `i`.
pub open spec fn run_end(b: Seq<bool>, i: int) -> int
    decreases b.len() - i,
{
    if i + 1 < b.len() && b[i + 1] { run_end(b, i + 1) } else { i }
}

/// The beam role of entry `i`: `Some((starts_beam, ends_beam))` when it lies in
/// a run of at least two beamable entries, `None` otherwise.
pub open spec fn beam_role(b: Seq<bool>, i: int) -> Option<(bool, bool)> {
    if b[i] && run_end(b, i) > run_start(b, i) {
        Some((i == run_start(b, i), i == run_end(b, i)))
    } else {
        None
    }
}

proof fn lemma_run_bounds(b: Seq<bool>, i: int)
    requires
        0 <= i < b.len(),
    ensures
        run_start(b, i) <= i,
        run_end(b, i) >= i,
        run_start(b, i) < i <==> (i > 0 && b[i - 1]),
        run_end(b, i) > i <==> (i + 1 < b.len() && b[i + 1]),
{
    lemma_run_start_le(b, i);
    lemma_run_end_ge(b, i);
    if i > 0 && b[i - 1] {
        lemma_run_start_le(b, i - 1);
    }
    if i + 1 < b.len() && b[i + 1] {
        lemma_run_end_ge(b, i + 1);
    }
}

proof fn lemma_run_start_le(b: Seq<bool>, i: int)
    requires
        0 <= i,
    ensures
        run_start(b, i) <= i,
    decreases i,
{
    if i > 0 && b[i - 1] {
        lemma_run_start_le(b, i - 1);
    }
}

proof fn lemma_run_end_ge(b: Seq<bool>, i: int)
    ensures
        run_end(b, i) >= i,
    decreases b.len() - i,
{
    if i + 1 < b.len() && b[i + 1] {
        lemma_run_end_ge(b, i + 1);
    }
}

/// The beam role of every entry.
pub fn beam_roles(b: &Vec<bool>) -> (r: Vec<Option<(bool, bool)>>)
    ensures
        r@.len() == b@.len(),
        forall|i: int| 0 <= i < b@.len() ==> #[trigger] r@[i] == beam_role(b@, i),
{
    let n = b.len();
    let mut r: Vec<Option<(bool, bool)>> = Vec::new();
    let mut i: usize = 0;
    while i < n
        invariant
            n == b@.len(),
            i <= n,
            r@.len() == i,
            forall|j: int| 0 <= j < i ==> #[trigger] r@[j] == beam_role(b@, j),
        decreases n - i,
    {
        let prev = i > 0 && b[i - 1];
        let next = i + 1 < n && b[i + 1];
        proof { lemma_run_bounds(b@, i as int); }
        if b[i] && (prev || next) {
            r.push(Some((!prev, !next)));
        } else {
            r.push(None);
        }
        i = i + 1;
    }
    r
}

} // verus!
