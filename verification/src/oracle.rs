//! The square oracle: decides whether an integer is a perfect square,
//! rejecting early on a 24-periodic residue condition and a residue-mod-64
//! bit mask before confirming with an exact integer square root.
//!
//! [`test_squares`] applies the oracle to the eight signed combinations of a
//! triple (x, y, z); a combination that would be negative is not a square.

use vstd::prelude::*;

verus! {

/// The square of an integer, named so it can serve as a quantifier trigger.
pub open spec fn sq(r: int) -> int {
    r * r
}

/// `v` is a perfect square.
pub open spec fn spec_is_square(v: int) -> bool {
    exists|r: int| 0 <= r && sq(r) == v
}

/// Largest `r` with `r * r <= n`.
pub fn isqrt(n: u64) -> (r: u64)
    ensures
        (r as int) * (r as int) <= n as int,
        (n as int) < (r as int + 1) * (r as int + 1),
        r <= 0xFFFF_FFFFu64,
{
    let mut lo: u64 = 0;
    let mut hi: u64 = 0x1_0000_0000;
    while lo + 1 < hi
        invariant
            lo < hi,
            hi <= 0x1_0000_0000,
            (lo as int) * (lo as int) <= n as int,
            (n as int) < (hi as int) * (hi as int),
        decreases hi - lo,
    {
        let mid = lo + (hi - lo) / 2;
        proof {
            assert((mid as int) * (mid as int) <= 0x1_0000_0000_0000_0000int) by (nonlinear_arith)
                requires
                    0 <= mid as int <= 0x1_0000_0000int,
            ;
        }
        if (mid as u128) * (mid as u128) <= n as u128 {
            lo = mid;
        } else {
            hi = mid;
        }
    }
    lo
}

/// Bit `63 - v` is set for each residue `v` that an odd perfect square can
/// have mod 64, so `(GOOD_MASK << (n & 63)) & (1 << 63) == 0` rejects `n`.
pub const GOOD_MASK: u64 = 0xC840C04048404040;

/// An odd square is 1 mod 8, and mod 64 it is one of eight residues; the
/// mask has the corresponding bits set, so the mask test cannot reject an
/// odd perfect square.
proof fn lemma_mask_sound(n: u64, r: u64)
    requires
        n % 2 == 1,
        n as int == (r as int) * (r as int),
    ensures
        (GOOD_MASK << (n & 63)) & 0x8000_0000_0000_0000u64 != 0,
{
    let ri = r as int;
    let ni = n as int;
    // r is odd, else n would be even
    assert(r % 2 == 1) by {
        if r % 2 == 0 {
            let h = ri / 2;
            vstd::arithmetic::div_mod::lemma_fundamental_div_mod(ri, 2);
            assert(ri == 2 * h);
            assert((2 * h) * (2 * h) == (2 * h * h) * 2) by (nonlinear_arith);
            vstd::arithmetic::div_mod::lemma_mod_multiples_basic(2 * h * h, 2);
            assert(ni % 2 == 0);
        }
    }
    // the residue of r * r mod 64 is decided by r mod 32
    let q = ri / 32;
    let m = ri % 32;
    vstd::arithmetic::div_mod::lemma_fundamental_div_mod(ri, 32);
    assert(ri == 32 * q + m);
    assert((32 * q + m) * (32 * q + m) == 64 * (16 * q * q + q * m) + m * m)
        by (nonlinear_arith);
    assert(ni % 64 == (m * m) % 64) by {
        vstd::arithmetic::div_mod::lemma_mod_multiples_vanish(16 * q * q + q * m, m * m, 64);
    }
    // r odd means m odd
    assert(m % 2 == 1) by {
        assert(ri % 2 == (32 * q + m) % 2);
        assert((32 * q + m) % 2 == m % 2) by {
            vstd::arithmetic::div_mod::lemma_mod_multiples_vanish(16 * q, m, 2);
        }
        assert(r % 2 == 1);
        assert(ri % 2 == 1);
    }
    // the sixteen odd residues mod 32 give eight square residues mod 64
    assert(0 <= m < 32) by {
        vstd::arithmetic::div_mod::lemma_mod_bound(ri, 32);
    }
    assert(m == 1 || m == 3 || m == 5 || m == 7 || m == 9 || m == 11 || m == 13
        || m == 15 || m == 17 || m == 19 || m == 21 || m == 23 || m == 25
        || m == 27 || m == 29 || m == 31) by {
        vstd::arithmetic::div_mod::lemma_fundamental_div_mod(m, 2);
    }
    assert((m * m) % 64 == 1 || (m * m) % 64 == 9 || (m * m) % 64 == 17
        || (m * m) % 64 == 25 || (m * m) % 64 == 33 || (m * m) % 64 == 41
        || (m * m) % 64 == 49 || (m * m) % 64 == 57) by (nonlinear_arith)
        requires
            m == 1 || m == 3 || m == 5 || m == 7 || m == 9 || m == 11 || m == 13
                || m == 15 || m == 17 || m == 19 || m == 21 || m == 23 || m == 25
                || m == 27 || m == 29 || m == 31,
    ;
    assert(n & 63 == n % 64) by (bit_vector);
    assert(ni % 64 == (n % 64) as int);
    let v = n % 64;
    assert(v == 1 || v == 9 || v == 17 || v == 25 || v == 33 || v == 41
        || v == 49 || v == 57);
    assert(v == 1 ==> (GOOD_MASK << v) & 0x8000_0000_0000_0000u64 != 0) by (bit_vector);
    assert(v == 9 ==> (GOOD_MASK << v) & 0x8000_0000_0000_0000u64 != 0) by (bit_vector);
    assert(v == 17 ==> (GOOD_MASK << v) & 0x8000_0000_0000_0000u64 != 0) by (bit_vector);
    assert(v == 25 ==> (GOOD_MASK << v) & 0x8000_0000_0000_0000u64 != 0) by (bit_vector);
    assert(v == 33 ==> (GOOD_MASK << v) & 0x8000_0000_0000_0000u64 != 0) by (bit_vector);
    assert(v == 41 ==> (GOOD_MASK << v) & 0x8000_0000_0000_0000u64 != 0) by (bit_vector);
    assert(v == 49 ==> (GOOD_MASK << v) & 0x8000_0000_0000_0000u64 != 0) by (bit_vector);
    assert(v == 57 ==> (GOOD_MASK << v) & 0x8000_0000_0000_0000u64 != 0) by (bit_vector);
}

/// Accepts exactly the perfect squares congruent to 1 mod 24: a residue
/// pre-check, then the mod-64 mask, then exact confirmation by integer
/// square root.
pub fn is_valid_square(n: u64) -> (r: bool)
    ensures
        r == (n % 24 == 1 && spec_is_square(n as int)),
{
    if n % 24 != 1 {
        return false;
    }
    assert(n % 2 == 1) by (bit_vector)
        requires
            n % 24 == 1,
    ;
    assert(n & 63 < 64) by (bit_vector);
    if (GOOD_MASK << (n & 63)) & 0x8000_0000_0000_0000u64 == 0 {
        proof {
            if spec_is_square(n as int) {
                let s = choose|s: int| 0 <= s && sq(s) == n as int;
                assert(s <= u64::MAX as int) by (nonlinear_arith)
                    requires
                        0 <= s,
                        s * s == n as int,
                        n as int <= u64::MAX as int,
                ;
                lemma_mask_sound(n, s as u64);
            }
        }
        return false;
    }
    let root = isqrt(n);
    let hit = root * root == n;
    proof {
        if hit {
            assert(sq(root as int) == n as int);
            assert(spec_is_square(n as int));
        }
        if !hit && spec_is_square(n as int) {
            let s = choose|s: int| 0 <= s && sq(s) == n as int;
            let ri = root as int;
            if s <= ri {
                assert(s * s <= ri * ri) by (nonlinear_arith)
                    requires
                        0 <= s,
                        s <= ri,
                ;
            } else {
                assert((ri + 1) * (ri + 1) <= s * s) by (nonlinear_arith)
                    requires
                        0 <= ri,
                        ri + 1 <= s,
                ;
            }
            assert(false);
        }
    }
    hit
}

/// A combination value passes when it is non-negative, 1 mod 24, and a
/// perfect square.
pub open spec fn combo_ok(v: int) -> bool {
    v >= 0 && v % 24 == 1 && spec_is_square(v)
}

/// All eight signed combinations of the triple pass the oracle.
pub open spec fn spec_test_squares(x: int, y: int, z: int) -> bool {
    &&& combo_ok(x + y)
    &&& combo_ok(x - y - z)
    &&& combo_ok(x + z)
    &&& combo_ok(x - y + z)
    &&& combo_ok(x + y - z)
    &&& combo_ok(x - z)
    &&& combo_ok(x + y + z)
    &&& combo_ok(x - y)
}

/// Tests the eight combinations of a delivered triple.  A combination that
/// would be negative cannot be a square, so such triples are rejected
/// outright.
pub fn test_squares(trip: (u64, u64, u64)) -> (r: bool)
    requires
        trip.0 + trip.1 + trip.2 <= u64::MAX,
    ensures
        r == spec_test_squares(trip.0 as int, trip.1 as int, trip.2 as int),
{
    let (x, y, z) = trip;
    if y + z > x {
        return false;
    }
    is_valid_square(x + y) && is_valid_square(x - y - z) && is_valid_square(x + z)
        && is_valid_square(x - y + z) && is_valid_square(x + y - z)
        && is_valid_square(x - z) && is_valid_square(x + y + z)
        && is_valid_square(x - y)
}

} // verus!
