//! Scale degrees in the movable-do number notation (1 to 7 with up to two
//! sharps or flats).
use vstd::prelude::*;

verus! {

/// A scale degree with its chromatic alteration: `N4s` is degree 4 sharpened,
/// `N7bb` degree 7 flattened twice.
#[derive(Clone, Copy, Debug, PartialEq, Eq, Structural, Hash)]
pub enum Degree {
    N1bb, N1b, N1, N1s, N1ss,
    N2bb, N2b, N2, N2s, N2ss,
    N3bb, N3b, N3, N3s, N3ss,
    N4bb, N4b, N4, N4s, N4ss,
    N5bb, N5b, N5, N5s, N5ss,
    N6bb, N6b, N6, N6s, N6ss,
    N7bb, N7b, N7, N7s, N7ss,
}

/// Pitch codes share the shape of scale degrees.
pub type PitchCode = Degree;

/// The scale step (0 for degree 1, ..., 6 for degree 7).
pub open spec fn degree_step(d: Degree) -> int {
    match d {
        Degree::N1bb | Degree::N1b | Degree::N1 | Degree::N1s | Degree::N1ss => 0,
        Degree::N2bb | Degree::N2b | Degree::N2 | Degree::N2s | Degree::N2ss => 1,
        Degree::N3bb | Degree::N3b | Degree::N3 | Degree::N3s | Degree::N3ss => 2,
        Degree::N4bb | Degree::N4b | Degree::N4 | Degree::N4s | Degree::N4ss => 3,
        Degree::N5bb | Degree::N5b | Degree::N5 | Degree::N5s | Degree::N5ss => 4,
        Degree::N6bb | Degree::N6b | Degree::N6 | Degree::N6s | Degree::N6ss => 5,
        Degree::N7bb | Degree::N7b | Degree::N7 | Degree::N7s | Degree::N7ss => 6,
    }
}

/// The chromatic alteration in semitones (-2 to 2).
pub open spec fn degree_alteration(d: Degree) -> int {
    match d {
        Degree::N1bb | Degree::N2bb | Degree::N3bb | Degree::N4bb | Degree::N5bb | Degree::N6bb | Degree::N7bb => -2,
        Degree::N1b | Degree::N2b | Degree::N3b | Degree::N4b | Degree::N5b | Degree::N6b | Degree::N7b => -1,
        Degree::N1 | Degree::N2 | Degree::N3 | Degree::N4 | Degree::N5 | Degree::N6 | Degree::N7 => 0,
        Degree::N1s | Degree::N2s | Degree::N3s | Degree::N4s | Degree::N5s | Degree::N6s | Degree::N7s => 1,
        Degree::N1ss | Degree::N2ss | Degree::N3ss | Degree::N4ss | Degree::N5ss | Degree::N6ss | Degree::N7ss => 2,
    }
}

} // verus!
