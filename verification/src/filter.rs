//! The candidate filter: a triple (x, y, z) is admissible when x, y, z are
//! positive and distinct in y, z, and all nine pairwise sums and differences
//! of the triple (including x itself) are congruent to 1 mod 24.  This is a
//! cheap necessary condition for all eight combinations being odd perfect
//! squares, used to prune the search space before the expensive square test.

use vstd::prelude::*;

verus! {

/// The nine mod-24 congruences on the sums and differences of (x, y, z).
/// Callers only rely on this for 0 <= y + z <= x, where every term is
/// non-negative.
pub open spec fn spec_mod24_valid(x: int, y: int, z: int) -> bool {
    &&& (x + y) % 24 == 1
    &&& (x - y - z) % 24 == 1
    &&& (x + z) % 24 == 1
    &&& (x - y + z) % 24 == 1
    &&& x % 24 == 1
    &&& (x + y - z) % 24 == 1
    &&& (x - z) % 24 == 1
    &&& (x + y + z) % 24 == 1
    &&& (x - y) % 24 == 1
}

/// A triple the enumerator hands on for square testing: positive entries,
/// y and z distinct, and the mod-24 necessary conditions.
pub open spec fn spec_admissible(x: int, y: int, z: int) -> bool {
    &&& x > 0
    &&& y > 0
    &&& z > 0
    &&& y != z
    &&& spec_mod24_valid(x, y, z)
}

/// `spec_admissible` on a concrete triple.
pub open spec fn adm(t: (u64, u64, u64)) -> bool {
    spec_admissible(t.0 as int, t.1 as int, t.2 as int)
}

/// Decides the nine mod-24 congruences.  The sums are computed in u128 so
/// that no intermediate value can overflow.
pub fn all_valid(trip: (u64, u64, u64)) -> (r: bool)
    requires
        trip.1 + trip.2 <= trip.0,
    ensures
        r == spec_mod24_valid(trip.0 as int, trip.1 as int, trip.2 as int),
{
    let (x, y, z) = trip;
    let xw = x as u128;
    let yw = y as u128;
    let zw = z as u128;
    (xw + yw) % 24 == 1 && (xw - yw - zw) % 24 == 1 && (xw + zw) % 24 == 1
        && (xw - yw + zw) % 24 == 1 && xw % 24 == 1 && (xw + yw - zw) % 24 == 1
        && (xw - zw) % 24 == 1 && (xw + yw + zw) % 24 == 1 && (xw - yw) % 24 == 1
}

/// Decides full admissibility: positivity, distinctness, and the mod-24
/// conditions.
pub fn is_admissible(trip: (u64, u64, u64)) -> (r: bool)
    requires
        trip.1 + trip.2 <= trip.0,
    ensures
        r == adm(trip),
{
    let (x, y, z) = trip;
    x > 0 && y > 0 && z > 0 && y != z && all_valid(trip)
}

} // verus!
