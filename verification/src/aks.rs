//! An AKS-style primality heuristic over u64: a perfect-power check, a
//! search for a base whose multiplicative order exceeds the squared bit
//! length, trial division up to that base, and a final
//! binomial-coefficient residue test.
//!
//! The helpers — exponentiation, multiplicative order, gcd, totient and
//! the modular factorial products — carry exact contracts, and the
//! top-level test is proved complete on primes: every prime is accepted.
//! On composites the early stages decide even numbers and perfect powers
//! exactly; what survives them answers for the residue test, whose verdict
//! is specified as the computation it performs.

use vstd::prelude::*;
use vstd::arithmetic::power::{
    pow, lemma_pow0, lemma_pow1, lemma0_pow, lemma_pow_strictly_increases,
    lemma_pow_increases, lemma_pow_multiplies, lemma_pow_positive,
    lemma_square_is_pow2,
};
use vstd::arithmetic::div_mod::{
    lemma_add_mod_noop, lemma_basic_div, lemma_fundamental_div_mod,
    lemma_mod_multiples_basic, lemma_mod_self_0, lemma_mul_mod_noop_general,
    lemma_small_mod,
};
use crate::oracle::{isqrt, sq};

verus! {

/// Euclid's recursion.
pub open spec fn spec_gcd(a: nat, b: nat) -> nat
    decreases b,
{
    if b == 0 {
        a
    } else {
        spec_gcd(b, a % b)
    }
}

/// `num` is the m-th power of a.
pub open spec fn is_pow_of(num: u64, a: nat, m: nat) -> bool {
    pow(a as int, m) == num as int
}

/// `num` is a perfect power: a^m for some a >= 2, m >= 2.
pub open spec fn perf_pow(num: u64) -> bool {
    exists|a: nat, m: nat| 2 <= a && 2 <= m && #[trigger] is_pow_of(num, a, m)
}

/// The left fold of `(res * k) % m` over k in s..=e, starting from 1.
pub open spec fn prod_mod(s: int, e: int, m: int) -> int
    decreases e + 1 - s,
{
    if e < s {
        1
    } else {
        (prod_mod(s, e - 1, m) * e) % m
    }
}

/// One step of the binomial residue test at index k.
pub open spec fn step_ok(num: u64, k: u64) -> bool {
    let d = prod_mod(1, k as int, num as int);
    &&& d != 0
    &&& (prod_mod(num as int - k as int + 1, num as int, num as int) / d) % (num as int)
        == 0
}

/// A power of a base raised to itself stays divisible by the base.
proof fn lemma_pow_self_mod(b: u64, k: nat)
    requires
        b >= 1,
        k >= 1,
    ensures
        pow(b as int, k) % (b as int) == 0,
{
    reveal(pow);
    assert(pow(b as int, k) == (b as int) * pow(b as int, (k - 1) as nat));
    lemma_pow_positive(b as int, (k - 1) as nat);
    lemma_mod_multiples_basic(pow(b as int, (k - 1) as nat), b as int);
    vstd::arithmetic::mul::lemma_mul_is_commutative(b as int,
        pow(b as int, (k - 1) as nat));
}

/// The gcd with 2 decides parity.
proof fn lemma_gcd_two(n: u64)
    requires
        n >= 1,
    ensures
        spec_gcd(n as nat, 2) == if n % 2 == 0 {
            2nat
        } else {
            1nat
        },
{
    if n % 2 == 0 {
        assert(spec_gcd(n as nat, 2) == spec_gcd(2, 0));
    } else {
        assert(spec_gcd(n as nat, 2) == spec_gcd(2, 1));
        assert(spec_gcd(2, 1) == spec_gcd(1, 0));
    }
}

/// d divides n.
pub open spec fn divides(d: int, n: int) -> bool {
    n % d == 0
}

/// n is prime: at least 2 and without a divisor strictly between 1 and n.
pub open spec fn spec_prime(n: int) -> bool {
    n >= 2 && forall|d: int| 1 < d < n ==> !(#[trigger] divides(d, n))
}

/// An integer linear combination, named so a quantifier can range over it.
pub open spec fn lin_comb(x: int, y: int, a: int, b: int) -> int {
    x * a + y * b
}

/// The gcd of a positive number is positive.
proof fn lemma_gcd_pos(a: nat, b: nat)
    requires
        a >= 1,
    ensures
        spec_gcd(a, b) >= 1,
    decreases b,
{
    if b != 0 {
        lemma_gcd_pos(b, a % b);
    }
}

/// The gcd divides both of its arguments.
proof fn lemma_gcd_divides(a: nat, b: nat)
    requires
        a >= 1,
    ensures
        spec_gcd(a, b) >= 1,
        divides(spec_gcd(a, b) as int, a as int),
        divides(spec_gcd(a, b) as int, b as int),
    decreases b,
{
    lemma_gcd_pos(a, b);
    let g = spec_gcd(a, b) as int;
    if b == 0 {
        lemma_mod_self_0(a as int);
        lemma_small_mod(0, a);
    } else {
        lemma_gcd_divides(b, a % b);
        let q = a as int / b as int;
        lemma_fundamental_div_mod(a as int, b as int);
        lemma_small_mod(0, g as nat);
        lemma_mul_mod_noop_general(b as int, q, g);
        assert((b as int * q) % g == 0);
        lemma_add_mod_noop(b as int * q, (a % b) as int, g);
        assert(divides(g, a as int));
    }
}

/// Bezout: some integer combination of a and b equals their gcd.
proof fn lemma_bezout(a: nat, b: nat)
    requires
        a >= 1,
    ensures
        exists|x: int, y: int| #[trigger] lin_comb(x, y, a as int, b as int)
            == spec_gcd(a, b),
    decreases b,
{
    if b == 0 {
        assert(lin_comb(1, 0, a as int, b as int) == spec_gcd(a, b));
    } else {
        lemma_bezout(b, a % b);
        let (x0, y0) = choose|x0: int, y0: int|
            #[trigger] lin_comb(x0, y0, b as int, (a % b) as int) == spec_gcd(b, a % b);
        lemma_fundamental_div_mod(a as int, b as int);
        let q = a as int / b as int;
        assert(x0 * (b as int) + y0 * ((a % b) as int) == spec_gcd(b, a % b) as int);
        assert(y0 * (a as int) + (x0 - y0 * q) * (b as int) == spec_gcd(a, b) as int)
            by (nonlinear_arith)
            requires
                x0 * (b as int) + y0 * ((a % b) as int) == spec_gcd(a, b) as int,
                a as int == (b as int) * q + ((a % b) as int),
        ;
        assert(lin_comb(y0, x0 - y0 * q, a as int, b as int) == spec_gcd(a, b));
    }
}

/// A divisor of a positive number is at most that number.
proof fn lemma_divisor_le(d: int, n: int)
    requires
        1 <= d,
        1 <= n,
        divides(d, n),
    ensures
        d <= n,
{
    if d > n {
        lemma_small_mod(n as nat, d as nat);
    }
}

/// Euclid's lemma: a prime dividing a product divides one of the factors.
proof fn lemma_prime_divides_product(p: int, a: int, b: int)
    requires
        spec_prime(p),
        0 <= a,
        0 <= b,
        divides(p, a * b),
        !divides(p, a),
    ensures
        divides(p, b),
{
    lemma_small_mod(0, p as nat);
    if a == 0 {
        assert(divides(p, a));
        assert(false);
    }
    lemma_gcd_divides(p as nat, a as nat);
    let g = spec_gcd(p as nat, a as nat) as int;
    lemma_divisor_le(g, p);
    assert(divides(g, p));
    if g == p {
        assert(divides(p, a));
        assert(false);
    }
    assert(g == 1);
    lemma_bezout(p as nat, a as nat);
    let (x, y) = choose|x: int, y: int| #[trigger] lin_comb(x, y, p, a)
        == spec_gcd(p as nat, a as nat);
    assert(x * p + y * a == 1);
    assert(b == (b * x) * p + y * (a * b)) by (nonlinear_arith)
        requires
            x * p + y * a == 1,
    ;
    lemma_mod_multiples_basic(b * x, p);
    lemma_mul_mod_noop_general(y, a * b, p);
    lemma_add_mod_noop((b * x) * p, y * (a * b), p);
    assert(divides(p, b));
}

/// The folded product stays within its modulus.
proof fn lemma_prod_mod_range(s: int, e: int, m: int)
    requires
        m >= 2,
    ensures
        0 <= prod_mod(s, e, m) < m,
{
    if e >= s {
        vstd::arithmetic::div_mod::lemma_mod_bound(prod_mod(s, e - 1, m) * e, m);
    }
}

/// Below a prime modulus, the folded factorial never vanishes.
proof fn lemma_prod_mod_nonzero(p: int, k: int)
    requires
        spec_prime(p),
        0 <= k < p,
    ensures
        prod_mod(1, k, p) != 0,
    decreases k,
{
    if k >= 1 {
        lemma_prod_mod_nonzero(p, k - 1);
        let d = prod_mod(1, k - 1, p);
        lemma_prod_mod_range(1, k - 1, p);
        lemma_small_mod(d as nat, p as nat);
        lemma_small_mod(k as nat, p as nat);
        if (d * k) % p == 0 {
            lemma_prime_divides_product(p, d, k);
            assert(false);
        }
    }
}

/// For a prime modulus every binomial residue step passes: the falling
/// factorial product includes the prime itself and folds to zero, and its
/// divisor is invertible.
proof fn lemma_prime_step_ok(num: u64, k: u64)
    requires
        spec_prime(num as int),
        1 <= k < num,
    ensures
        step_ok(num, k),
{
    lemma_prod_mod_nonzero(num as int, k as int);
    let s = num as int - k as int + 1;
    let top = prod_mod(s, num as int - 1, num as int);
    assert(prod_mod(s, num as int, num as int) == (top * (num as int)) % (num as int));
    lemma_mod_multiples_basic(top, num as int);
    let d = prod_mod(1, k as int, num as int);
    lemma_prod_mod_range(1, k as int, num as int);
    lemma_basic_div(0, d);
    lemma_small_mod(0, num as nat);
}

/// A prime is not a perfect power.
proof fn lemma_prime_not_perf_pow(num: u64)
    requires
        spec_prime(num as int),
        num >= 3,
    ensures
        !perf_pow(num),
{
    if perf_pow(num) {
        let (a, m) = choose|a: nat, m: nat| 2 <= a && 2 <= m
            && #[trigger] is_pow_of(num, a, m);
        reveal(pow);
        assert(pow(a as int, m) == (a as int) * pow(a as int, (m - 1) as nat));
        lemma_pow_positive(a as int, (m - 1) as nat);
        lemma_mod_multiples_basic(pow(a as int, (m - 1) as nat), a as int);
        vstd::arithmetic::mul::lemma_mul_is_commutative(a as int,
            pow(a as int, (m - 1) as nat));
        assert(divides(a as int, num as int));
        lemma_pow_increases(a, 2, m);
        lemma_square_is_pow2(a as int);
        assert((a as int) * (a as int) > a as int) by (nonlinear_arith)
            requires
                2 <= a as int,
        ;
        assert(1 < a as int && (a as int) < num as int);
        assert(false);
    }
}

/// Raising both sides: the power function is monotone in its base.
proof fn lemma_pow_base_mono(a: nat, b: nat, e: nat)
    requires
        a <= b,
    ensures
        pow(a as int, e) <= pow(b as int, e),
    decreases e,
{
    reveal(pow);
    if e > 0 {
        lemma_pow_base_mono(a, b, (e - 1) as nat);
        if a == 0 {
            lemma0_pow(e);
            if b == 0 {
                lemma0_pow(e);
            } else {
                lemma_pow_positive(b as int, e);
            }
        } else {
            lemma_pow_positive(a as int, (e - 1) as nat);
            lemma_pow_positive(b as int, (e - 1) as nat);
            assert(pow(a as int, e) == (a as int) * pow(a as int, (e - 1) as nat));
            assert(pow(b as int, e) == (b as int) * pow(b as int, (e - 1) as nat));
            assert((a as int) * pow(a as int, (e - 1) as nat)
                <= (b as int) * pow(b as int, (e - 1) as nat)) by (nonlinear_arith)
                requires
                    0 <= (a as int) && (a as int) <= (b as int),
                    pow(a as int, (e - 1) as nat) <= pow(b as int, (e - 1) as nat),
                    0 < pow(b as int, (e - 1) as nat),
                    0 < pow(a as int, (e - 1) as nat),
            ;
        }
    }
}

/// Binary exponentiation with an overflow cap: Some(v) when the power fits
/// in u64, None when it exceeds it.
fn pow_capped(b: u64, e: u16) -> (r: Option<u64>)
    ensures
        match r {
            Some(v) => v as int == pow(b as int, e as nat),
            None => pow(b as int, e as nat) > u64::MAX as int,
        },
{
    if b == 0 {
        if e == 0 {
            proof {
                lemma_pow0(0);
            }
            return Some(1);
        }
        proof {
            lemma0_pow(e as nat);
        }
        return Some(0);
    }
    let mut res: u64 = 1;
    let mut base: u64 = b;
    let mut exp: u16 = e;
    while exp > 0
        invariant
            base >= 1,
            res >= 1,
            pow(b as int, e as nat) == (res as int) * pow(base as int, exp as nat),
        decreases exp,
    {
        let ghost res0 = res as int;
        let ghost base0 = base as int;
        let ghost exp0 = exp;
        proof {
            lemma_pow_positive(base as int, exp as nat);
            lemma_mul_u64_fits_u128(res, base);
            lemma_mul_u64_fits_u128(base, base);
            lemma_pow_base_self_le_gen(base as int, exp as nat);
        }
        if exp & 1 == 1 {
            let wide = (res as u128) * (base as u128);
            if wide > u64::MAX as u128 {
                proof {
                    assert(pow(b as int, e as nat) > u64::MAX as int) by (nonlinear_arith)
                        requires
                            pow(b as int, e as nat) == res0 * pow(base0, exp0 as nat),
                            base0 <= pow(base0, exp0 as nat),
                            1 <= res0,
                            1 <= base0,
                            res0 * base0 > u64::MAX as int,
                    ;
                }
                return None;
            }
            res = wide as u64;
            proof {
                assert(1 <= res as int) by (nonlinear_arith)
                    requires
                        res as int == res0 * base0,
                        1 <= res0,
                        1 <= base0,
                ;
            }
        }
        exp = exp >> 1;
        proof {
            assert(exp == exp0 / 2 && (exp0 & 1 == 1 ==> exp0 == 2 * (exp0 / 2) + 1)
                && (exp0 & 1 != 1 ==> exp0 == 2 * (exp0 / 2))) by (bit_vector)
                requires
                    exp == exp0 >> 1,
            ;
        }
        if exp > 0 {
            let wide = (base as u128) * (base as u128);
            if wide > u64::MAX as u128 {
                proof {
                    lemma_square_is_pow2(base0);
                    lemma_pow_increases(base as nat, 2, exp0 as nat);
                    assert(pow(b as int, e as nat) > u64::MAX as int) by (nonlinear_arith)
                        requires
                            pow(b as int, e as nat) == res0 * pow(base0, exp0 as nat),
                            1 <= res0,
                            base0 * base0 <= pow(base0, exp0 as nat),
                            base0 * base0 > u64::MAX as int,
                            0 < pow(base0, exp0 as nat),
                    ;
                }
                return None;
            }
            base = wide as u64;
            proof {
                assert(base >= 1) by (nonlinear_arith)
                    requires
                        base as int == base0 * base0,
                        1 <= base0,
                ;
                lemma_square_is_pow2(base0);
                lemma_pow_multiplies(base0, 2, exp as nat);
                assert(pow(base as int, exp as nat) == pow(base0, (2 * exp) as nat));
                lemma_pow_positive(base0, exp as nat);
                if exp0 & 1 == 1 {
                    assert(pow(base0, exp0 as nat)
                        == base0 * pow(base0, (exp0 - 1) as nat)) by {
                        reveal(pow);
                    }
                    assert((2 * exp) as nat == (exp0 - 1) as nat);
                    assert(pow(b as int, e as nat)
                        == (res as int) * pow(base as int, exp as nat)) by (nonlinear_arith)
                        requires
                            pow(b as int, e as nat) == res0 * pow(base0, exp0 as nat),
                            pow(base0, exp0 as nat) == base0 * pow(base as int, exp as nat),
                            res as int == res0 * base0,
                    ;
                } else {
                    assert((2 * exp) as nat == exp0 as nat);
                }
            }
        } else {
            proof {
                lemma_pow0(base0);
                lemma_pow1(base0);
                if exp0 & 1 == 1 {
                    assert(exp0 == 1);
                } else {
                    assert(false);
                }
            }
        }
    }
    proof {
        lemma_pow0(base as int);
    }
    Some(res)
}

/// The product of two u64 values fits in u128.
proof fn lemma_mul_u64_fits_u128(x: u64, y: u64)
    ensures
        (x as int) * (y as int) <= 0xFFFF_FFFF_FFFF_FFFE_0000_0000_0000_0001int,
{
    assert((x as int) * (y as int) <= 0xFFFF_FFFF_FFFF_FFFE_0000_0000_0000_0001int)
        by (nonlinear_arith)
        requires
            0 <= (x as int) && (x as int) <= 0xFFFF_FFFF_FFFF_FFFFint,
            0 <= (y as int) && (y as int) <= 0xFFFF_FFFF_FFFF_FFFFint,
    ;
}

/// A base of at least one is at most its own power for positive exponents.
proof fn lemma_pow_base_self_le_gen(b: int, e: nat)
    requires
        b >= 1,
        e >= 1,
    ensures
        b <= pow(b, e),
    decreases e,
{
    reveal(pow);
    if e == 1 {
        lemma_pow1(b);
    } else {
        lemma_pow_base_self_le_gen(b, (e - 1) as nat);
        lemma_pow_positive(b, (e - 1) as nat);
        assert(pow(b, e) == b * pow(b, (e - 1) as nat));
        assert(b * 1 <= b * pow(b, (e - 1) as nat)) by (nonlinear_arith)
            requires
                b >= 1,
                1 <= pow(b, (e - 1) as nat),
        ;
    }
}

/// Binary exponentiation; defined exactly where the power fits in u64.
pub fn fast_exp(num: u64, pow_e: u16) -> (r: u64)
    requires
        pow(num as int, pow_e as nat) <= u64::MAX as int,
    ensures
        r as int == pow(num as int, pow_e as nat),
{
    match pow_capped(num, pow_e) {
        Some(v) => v,
        None => {
            proof {
                assert(false);
            }
            0
        },
    }
}

/// The floor of the base-2 logarithm: 2^r <= num < 2^(r + 1).
fn ilog2(num: u64) -> (r: u16)
    requires
        num >= 1,
    ensures
        pow(2, r as nat) <= num as int,
        (num as int) < pow(2, (r + 1) as nat),
        r < 64,
{
    let mut r: u16 = 0;
    let mut t: u64 = num;
    proof {
        lemma_pow0(2);
    }
    while t >= 2
        invariant
            1 <= t,
            r < 64,
            (t as int) * pow(2, r as nat) <= num as int,
            (num as int) < (t as int + 1) * pow(2, r as nat),
        decreases t,
    {
        proof {
            reveal(pow);
            lemma_pow_positive(2, r as nat);
            assert(pow(2, (r + 1) as nat) == 2 * pow(2, r as nat));
            lemma_fundamental_div_mod(t as int, 2);
            assert((t as int / 2) * pow(2, (r + 1) as nat)
                <= (t as int) * pow(2, r as nat)) by (nonlinear_arith)
                requires
                    pow(2, (r + 1) as nat) == 2 * pow(2, r as nat),
                    t as int == 2 * (t as int / 2) + t as int % 2,
                    0 <= t as int % 2,
                    0 < pow(2, r as nat),
            ;
            assert((t as int + 1) * pow(2, r as nat)
                <= (t as int / 2 + 1) * pow(2, (r + 1) as nat)) by (nonlinear_arith)
                requires
                    pow(2, (r + 1) as nat) == 2 * pow(2, r as nat),
                    t as int == 2 * (t as int / 2) + t as int % 2,
                    t as int % 2 < 2,
                    0 < pow(2, r as nat),
            ;
            if r >= 63 {
                assert(pow(2, 63) == 0x8000_0000_0000_0000) by {
                    vstd::arithmetic::power2::lemma2_to64();
                    vstd::arithmetic::power2::lemma2_to64_rest();
                    vstd::arithmetic::power2::lemma_pow2(63);
                }
                assert((t as int) * pow(2, 63) >= 2 * 0x8000_0000_0000_0000int)
                    by (nonlinear_arith)
                    requires
                        t as int >= 2,
                        pow(2, 63) == 0x8000_0000_0000_0000int,
                ;
                assert(false);
            }
        }
        t = t / 2;
        r = r + 1;
    }
    proof {
        reveal(pow);
        lemma_pow_positive(2, r as nat);
        assert(pow(2, (r + 1) as nat) == 2 * pow(2, r as nat));
    }
    r
}

/// Whether `num` is a perfect power a^m with a, m >= 2, by binary search
/// on the base for each candidate exponent.
fn is_perf_pow(num: u64) -> (r: bool)
    requires
        num >= 3,
    ensures
        r == perf_pow(num),
{
    let n = ilog2(num);
    let nb = n + 1;
    // num < 2^nb
    let mut m: u16 = 2;
    while m < nb
        invariant
            2 <= m,
            nb <= 64,
            nb == n + 1,
            n < 64,
            num >= 3,
            pow(2, nb as nat) > num as int,
            forall|a: nat, m2: nat|
                2 <= a && 2 <= m2 < m ==> !is_pow_of(num, a, m2),
        decreases nb - m,
    {
        proof {
            lemma_fundamental_div_mod(n as int, m as int);
            vstd::arithmetic::div_mod::lemma_mod_bound(n as int, m as int);
            assert(n as int / (m as int) <= 31) by (nonlinear_arith)
                requires
                    0 <= n as int,
                    (n as int) < 64,
                    2 <= m as int,
                    (m as int) * (n as int / (m as int)) + n as int % (m as int)
                        == n as int,
                    0 <= n as int % (m as int),
            ;
        }
        let shift = n / m + 1;
        let mut lo: u64 = 1;
        let mut hi: u64 = 1u64 << (shift as u64);
        proof {
            assert(hi == pow(2, shift as nat)) by {
                lemma_shift_is_pow2(shift as u64);
            }
            assert(pow(2, shift as nat) > 1) by {
                lemma_pow_strictly_increases(2, 0, shift as nat);
                lemma_pow0(2);
            }
            lemma_pow_multiplies(2, shift as nat, m as nat);
            // (n / m + 1) * m >= n + 1
            lemma_fundamental_div_mod(n as int, m as int);
            assert((shift as int) * (m as int) >= n as int + 1) by (nonlinear_arith)
                requires
                    n as int == (m as int) * (n as int / m as int) + n as int % m as int,
                    0 <= n as int % (m as int) && n as int % (m as int) < (m as int),
                    shift as int == n as int / m as int + 1,
                    m as int >= 2,
            ;
            lemma_pow_increases(2, (n + 1) as nat, (shift * m) as nat);
            lemma_pow_strictly_increases(2, n as nat, (n + 1) as nat);
            assert(pow(hi as int, m as nat) > num as int);
            lemma_pow1(1int);
            assert(pow(1int, m as nat) == 1) by {
                vstd::arithmetic::power::lemma1_pow(m as nat);
            }
        }
        while lo + 1 < hi
            invariant
                1 <= lo < hi,
                2 <= m,
                num >= 3,
                pow(lo as int, m as nat) < num as int,
                pow(hi as int, m as nat) > num as int,
            decreases hi - lo,
        {
            let mid = lo + (hi - lo) / 2;
            match pow_capped(mid, m) {
                Some(v) => {
                    if v == num {
                        proof {
                            assert(is_pow_of(num, mid as nat, m as nat));
                        }
                        return true;
                    } else if v < num {
                        lo = mid;
                    } else {
                        hi = mid;
                    }
                },
                None => {
                    hi = mid;
                },
            }
        }
        proof {
            assert(hi == lo + 1);
            assert forall|a: nat| 2 <= a implies !is_pow_of(num, a, m as nat) by {
                if a <= lo as nat {
                    lemma_pow_base_mono(a, lo as nat, m as nat);
                } else {
                    lemma_pow_base_mono(hi as nat, a, m as nat);
                }
            }
        }
        m = m + 1;
    }
    proof {
        assert forall|a: nat, m2: nat| 2 <= a && 2 <= m2 implies !is_pow_of(num, a, m2) by {
            if m2 >= nb as nat {
                lemma_pow_base_mono(2, a, m2);
                lemma_pow_increases(2, nb as nat, m2);
            }
        }
    }
    false
}

/// A left shift of one is the corresponding power of two.
proof fn lemma_shift_is_pow2(s: u64)
    requires
        s < 64,
    ensures
        (1u64 << s) as int == pow(2, s as nat),
{
    vstd::bits::lemma_u64_pow2_no_overflow(s as nat);
    vstd::bits::lemma_u64_shl_is_mul(1u64, s);
    vstd::arithmetic::power2::lemma_pow2(s as nat);
}

/// The least k in [1, base] with num^k = 1 mod base, or u64::MAX when no
/// such k exists in that range (in particular when num shares a factor
/// with base).
fn get_mult_order(num: u64, base: u64) -> (r: u64)
    requires
        2 <= base < u64::MAX,
    ensures
        r != u64::MAX ==> 1 <= r <= base
            && pow(num as int, r as nat) % (base as int) == 1
            && forall|k: nat| 1 <= k < r ==> #[trigger] pow(num as int, k) % (base as int)
                != 1,
        r == u64::MAX ==> forall|k: nat| 1 <= k <= base ==> #[trigger] pow(num as int, k)
            % (base as int) != 1,
{
    let nm = num % base;
    let mut acc: u64 = 1;
    let mut k: u64 = 0;
    proof {
        lemma_pow0(num as int);
        vstd::arithmetic::div_mod::lemma_small_mod(1, base as nat);
    }
    while k < base
        invariant
            2 <= base < u64::MAX,
            nm == num % base,
            k <= base,
            acc < base,
            acc as int == pow(num as int, k as nat) % (base as int),
            forall|j: nat| 1 <= j <= k ==> #[trigger] pow(num as int, j) % (base as int)
                != 1,
        decreases base - k,
    {
        let ghost k0 = k as nat;
        k = k + 1;
        proof {
            lemma_mul_u64_fits_u128(acc, nm);
        }
        let wide = (acc as u128) * (nm as u128) % (base as u128);
        proof {
            reveal(pow);
            assert(pow(num as int, (k0 + 1) as nat)
                == (num as int) * pow(num as int, k0));
            lemma_mul_mod_noop_general(num as int, pow(num as int, k0), base as int);
            assert(((num as int % base as int) * (pow(num as int, k0) % base as int))
                % (base as int) == ((num as int) * pow(num as int, k0)) % (base as int));
            assert(wide == ((nm as int) * (acc as int)) % (base as int));
        }
        acc = wide as u64;
        if acc == 1 {
            return k;
        }
    }
    u64::MAX
}

/// Euclid's algorithm.
fn get_gcd(a: u64, b: u64) -> (r: u64)
    ensures
        r as nat == spec_gcd(a as nat, b as nat),
{
    let mut x = a;
    let mut y = b;
    while y != 0
        invariant
            spec_gcd(x as nat, y as nat) == spec_gcd(a as nat, b as nat),
        decreases y,
    {
        let c = y;
        y = x % y;
        x = c;
    }
    x
}

/// The count of k in 1..upto coprime to num.
pub open spec fn count_coprimes(num: nat, upto: nat) -> nat
    decreases upto,
{
    if upto <= 1 {
        0
    } else {
        count_coprimes(num, (upto - 1) as nat) + if spec_gcd(num, (upto - 1) as nat) == 1 {
            1nat
        } else {
            0nat
        }
    }
}

/// Euler's totient by counting coprime residues below num.
fn totient(num: u64) -> (r: u64)
    ensures
        r as nat == count_coprimes(num as nat, num as nat),
{
    let mut count: u64 = 0;
    let mut k: u64 = 1;
    if num == 0 {
        return 0;
    }
    while k < num
        invariant
            1 <= k <= num,
            count as nat == count_coprimes(num as nat, k as nat),
            count < k,
        decreases num - k,
    {
        if get_gcd(num, k) == 1 {
            count = count + 1;
        }
        k = k + 1;
    }
    count
}

/// The factorial of num, folded mod m.
fn mod_fact(num: u64, m: u64) -> (r: u64)
    requires
        m >= 1,
    ensures
        r as int == prod_mod(1, num as int, m as int),
{
    let mut res: u64 = 1;
    let mut k: u64 = 0;
    while k < num
        invariant
            m >= 1,
            k <= num,
            res as int == prod_mod(1, k as int, m as int),
        decreases num - k,
    {
        k = k + 1;
        proof {
            lemma_mul_u64_fits_u128(res, k);
        }
        res = ((res as u128) * (k as u128) % (m as u128)) as u64;
    }
    res
}

/// The product of s..=e, folded mod m.
fn part_mod_fact(s: u64, e: u64, m: u64) -> (r: u64)
    requires
        m >= 1,
    ensures
        r as int == prod_mod(s as int, e as int, m as int),
{
    let mut res: u64 = 1;
    if s > e {
        return 1;
    }
    let mut k: u64 = s;
    loop
        invariant_except_break
            m >= 1,
            s <= k <= e,
            res as int == prod_mod(s as int, k as int - 1, m as int),
        ensures
            res as int == prod_mod(s as int, e as int, m as int),
        decreases e - k,
    {
        proof {
            lemma_mul_u64_fits_u128(res, k);
        }
        res = ((res as u128) * (k as u128) % (m as u128)) as u64;
        if k == e {
            break;
        }
        k = k + 1;
    }
    res
}

/// The binomial residue test: every index below `last` must pass
/// [`step_ok`].
fn last_step(num: u64, last: u64) -> (r: bool)
    requires
        1 <= num,
        last <= num,
    ensures
        r == forall|k: u64| 1 <= k < last ==> #[trigger] step_ok(num, k),
{
    let mut k: u64 = 1;
    while k < last
        invariant
            1 <= k,
            k <= last || last == 0,
            last <= num,
            1 <= num,
            forall|j: u64| 1 <= j < k ==> #[trigger] step_ok(num, j),
        decreases last - k,
    {
        let d = mod_fact(k, num);
        if d == 0 {
            proof {
                assert(!step_ok(num, k));
            }
            return false;
        }
        let p = part_mod_fact(num - k + 1, num, num);
        if p / d % num != 0 {
            proof {
                assert(!step_ok(num, k));
            }
            return false;
        }
        proof {
            assert(step_ok(num, k));
        }
        k = k + 1;
    }
    true
}

/// What a number that reaches and passes the final residue test
/// satisfies: st is the integer square root of its totient, il the floor
/// of its base-2 logarithm, lb their product clamped to the number itself,
/// and every residue step below lb passes.
pub open spec fn residue_verdict(num: u64, st: u64, il: u64, lb: u64) -> bool {
    &&& sq(st as int) <= count_coprimes(num as nat, num as nat) as int
    &&& (count_coprimes(num as nat, num as nat) as int) < sq(st as int + 1)
    &&& pow(2, il as nat) <= num as int
    &&& (num as int) < pow(2, (il + 1) as nat)
    &&& lb as int == if (st as int) * (il as int) <= num as int {
        (st as int) * (il as int)
    } else {
        num as int
    }
    &&& forall|k: u64| 1 <= k < lb ==> #[trigger] step_ok(num, k)
}

/// The primality test.  Every prime is accepted; inputs below 2, even
/// numbers and perfect powers are rejected.  Any other accepted number
/// was either found prime by exhaustive trial division or passed every
/// step of the residue test up to its bound ([`residue_verdict`]).  That
/// residue shortcut is a numeric necessary check, not a sufficient one:
/// rejection of every remaining composite is not among the guarantees
/// below, and a composite that passes the residue steps would be
/// accepted.
pub fn aks(num: u64) -> (r: bool)
    requires
        num < u64::MAX,
    ensures
        num < 2 ==> !r,
        num == 2 ==> r,
        num >= 3 && perf_pow(num) ==> !r,
        num >= 3 && num % 2 == 0 ==> !r,
        spec_prime(num as int) ==> r,
        r ==> num == 2 || spec_prime(num as int) || (num % 2 == 1 && !perf_pow(num)
            && exists|st: u64, il: u64, lb: u64| #[trigger] residue_verdict(num, st, il,
                lb)),
{
    if num == 2 {
        return true;
    }
    if num < 2 {
        return false;
    }
    if is_perf_pow(num) {
        proof {
            if spec_prime(num as int) {
                lemma_prime_not_perf_pow(num);
            }
        }
        return false;
    }
    let il = ilog2(num);
    proof {
        assert((il as int) * (il as int) < 4096) by (nonlinear_arith)
            requires
                0 <= (il as int) && (il as int) < 64,
        ;
    }
    let b2 = (il as u64) * (il as u64);
    let mut base: u64 = 2;
    let mut r_found: u64 = 0;
    let mut found = false;
    while !found && base <= num
        invariant
            2 <= base <= num,
            num >= 3,
            num < u64::MAX,
            b2 < 4096,
            base > 2 ==> num % 2 == 1,
            found ==> 2 <= r_found <= num && num % 2 == 1,
        decreases num - base, (if found { 0int } else { 1int }),
    {
        let g = get_gcd(num, base);
        if g > 1 && g < num {
            proof {
                if spec_prime(num as int) {
                    lemma_gcd_divides(num as nat, base as nat);
                    assert(divides(g as int, num as int));
                    assert(false);
                }
            }
            return false;
        }
        proof {
            if base == 2 {
                lemma_gcd_two(num);
                if num % 2 == 0 {
                    assert(g == 2);
                    assert(1 < g < num);
                }
                assert(num % 2 == 1);
            }
        }
        let ord = get_mult_order(num, base);
        if ord > b2 {
            r_found = base;
            found = true;
        } else {
            proof {
                if base == num {
                    assert forall|k: nat| 1 <= k <= base implies #[trigger] pow(
                        num as int,
                        k,
                    ) % (base as int) != 1 by {
                        lemma_pow_self_mod(num, k);
                    }
                    assert(ord == u64::MAX);
                    assert(ord > b2);
                }
            }
            base = base + 1;
        }
    }
    proof {
        assert(found);
    }
    let lim = if r_found < num - 1 {
        r_found
    } else {
        num - 1
    };
    let mut d: u64 = 2;
    while d < lim
        invariant
            2 <= d,
            d <= lim || lim < 2,
            lim < num,
            num >= 3,
            num % 2 == 1,
            forall|j: u64| 2 <= j < d ==> !(#[trigger] divides(j as int, num as int)),
        decreases lim - d,
    {
        if num % d == 0 {
            proof {
                if spec_prime(num as int) {
                    assert(divides(d as int, num as int));
                    assert(false);
                }
            }
            return false;
        }
        d = d + 1;
    }
    if num <= r_found {
        proof {
            // the trial division ran all the way to num - 1, and num - 1
            // itself leaves remainder 1, so num has no proper divisor
            assert(lim == num - 1);
            assert(spec_prime(num as int)) by {
                assert forall|dd: int| 1 < dd < num as int
                    implies !divides(dd, num as int) by {
                    if dd < num as int - 1 {
                        let j = dd as u64;
                        assert(2 <= j && j < d);
                        assert(!divides(j as int, num as int));
                    } else {
                        vstd::arithmetic::div_mod::lemma_mod_multiples_vanish(
                            1, 1, num as int - 1);
                        lemma_small_mod(1, (num - 1) as nat);
                        assert((num as int) % (num as int - 1) == 1);
                    }
                }
            }
        }
        return true;
    }
    let t = totient(num);
    let st = isqrt(t);
    proof {
        assert((st as int) * (il as int) < 0x1_0000_0000_0000_0000int)
            by (nonlinear_arith)
            requires
                0 <= (st as int) && (st as int) <= 0xFFFF_FFFFint,
                0 <= (il as int) && (il as int) < 64,
        ;
    }
    let mut last = st * (il as u64);
    if last > num {
        last = num;
    }
    let verdict = last_step(num, last);
    proof {
        if spec_prime(num as int) {
            assert forall|k: u64| 1 <= k < last implies #[trigger] step_ok(num, k) by {
                lemma_prime_step_ok(num, k);
            }
            assert(verdict);
        }
        if verdict {
            assert(residue_verdict(num, st, il as u64, last));
        }
    }
    verdict
}

} // verus!
