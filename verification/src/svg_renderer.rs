//! Text layout helpers of the SVG renderer.
use vstd::prelude::*;

verus! {

/// Scanning the first `k` characters for a run of at least `m` spaces: the
/// start of the first such run already ended by a non-space, else the length
/// and start of the current run of spaces.
pub open spec fn space_scan(s: Seq<char>, m: nat, k: int) -> (Option<nat>, nat, nat)
    decreases k,
{
    if k <= 0 {
        (None, 0, 0)
    } else {
        let prev = space_scan(s, m, k - 1);
        if prev.0 is Some {
            prev
        } else if s[k - 1] == ' ' {
            (None, prev.1 + 1, if prev.1 == 0 { (k - 1) as nat } else { prev.2 })
        } else if prev.1 >= m {
            (Some(prev.2), prev.1, prev.2)
        } else {
            (None, 0, prev.2)
        }
    }
}

/// The start of the first run of at least `m` consecutive spaces (a run
/// counts once it ends, or at the end of the text).
pub open spec fn large_gap(s: Seq<char>, m: nat) -> Option<nat> {
    let sc = space_scan(s, m, s.len() as int);
    if sc.0 is Some { sc.0 } else if sc.1 >= m { Some(sc.2) } else { None }
}

/// The start of the first run of at least `min_spaces` spaces (see `large_gap`).
pub fn find_large_gap(s: &str, min_spaces: usize) -> (r: Option<usize>)
    ensures
        match r {
            Some(i) => large_gap(s@, min_spaces as nat) == Some(i as nat),
            None => large_gap(s@, min_spaces as nat) is None,
        },
{
    let n = s.unicode_len();
    let mut space_count: usize = 0;
    let mut gap_start: usize = 0;
    let mut i: usize = 0;
    while i < n
        invariant
            n == s@.len(),
            i <= n,
            space_count <= i,
            gap_start <= i,
            space_scan(s@, min_spaces as nat, i as int) == (None::<nat>, space_count as nat, gap_start as nat),
        decreases n - i,
    {
        let ch = s.get_char(i);
        if ch == ' ' {
            if space_count == 0 {
                gap_start = i;
            }
            space_count = space_count + 1;
        } else {
            if space_count >= min_spaces {
                proof {
                    assert(space_scan(s@, min_spaces as nat, i + 1).0 == Some(gap_start as nat));
                    lemma_scan_stops(s@, min_spaces as nat, i + 1, n as int);
                }
                return Some(gap_start);
            }
            space_count = 0;
        }
        i = i + 1;
    }
    if space_count >= min_spaces {
        Some(gap_start)
    } else {
        None
    }
}

proof fn lemma_scan_stops(s: Seq<char>, m: nat, k: int, e: int)
    requires
        0 <= k <= e,
        space_scan(s, m, k).0 is Some,
    ensures
        space_scan(s, m, e) == space_scan(s, m, k),
    decreases e - k,
{
    if e > k {
        lemma_scan_stops(s, m, k, e - 1);
    }
}

} // verus!
