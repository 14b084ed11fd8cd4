//! Coordinates and small helpers on pairs.

use vstd::prelude::*;

verus! {

/// The place of a codel: `x` counts columns from the left, `y` rows from the
/// top.
pub type Coords = (usize, usize);

/// Apply a function to both halves of a pair.
pub fn map_pair<T, U, F>(pair: (T, T), func: F) -> (r: (U, U)) where F: Fn(T) -> U
    requires
        func.requires((pair.0,)),
        func.requires((pair.1,)),
    ensures
        func.ensures((pair.0,), r.0),
        func.ensures((pair.1,), r.1),
{
    (func(pair.0), func(pair.1))
}

/// A pair of present values, or nothing where either half is missing.
pub fn lift_pair<T>(pair: (Option<T>, Option<T>)) -> (r: Option<(T, T)>)
    ensures
        r == (match pair {
            (Some(first), Some(second)) => Some((first, second)),
            _ => None,
        }),
{
    let (first, second) = pair;
    match (first, second) {
        (Some(v1), Some(v2)) => Some((v1, v2)),
        _ => None,
    }
}

} // verus!
