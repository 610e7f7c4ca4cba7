//! Integer arithmetic primitives for the fixed-point statistics.
//!
//! Two-decimal quantities (money, percentages, scores) are held as integers
//! scaled by 100. Every division that produces such a quantity rounds half
//! away from zero, so each stored figure is an exact function of its inputs.
use vstd::prelude::*;
use vstd::arithmetic::div_mod::lemma_div_is_ordered_by_denominator;
use vstd::arithmetic::div_mod::lemma_div_nonincreasing;
use vstd::arithmetic::div_mod::lemma_fundamental_div_mod;
use vstd::arithmetic::div_mod::lemma_div_pos_is_pos;

verus! {

/// Absolute value of a mathematical integer.
pub open spec fn abs_int(n: int) -> int {
    if n < 0 {
        -n
    } else {
        n
    }
}

/// Quotient of `n / d` rounded half away from zero, for a positive divisor.
pub open spec fn round_div(n: int, d: int) -> int
    recommends
        d > 0,
{
    let m = abs_int(n);
    let q = m / d;
    let r = m % d;
    let mag = if 2 * r >= d {
        q + 1
    } else {
        q
    };
    if n < 0 {
        -mag
    } else {
        mag
    }
}

/// A rounded quotient of a bounded non-negative numerator stays within the
/// same bound.
pub proof fn lemma_round_div_le(n: int, d: int, c: int)
    requires
        d > 0,
        0 <= n <= c * d,
    ensures
        0 <= round_div(n, d) <= c,
{
    lemma_div_pos_is_pos(n, d);
    lemma_fundamental_div_mod(n, d);
    let q = n / d;
    let r = n % d;
    assert(q <= c) by (nonlinear_arith)
        requires
            d > 0,
            n <= c * d,
            n == d * q + r,
            r >= 0,
    ;
    if q == c {
        assert(r == n - d * c);
        assert(r <= 0) by (nonlinear_arith)
            requires
                n <= c * d,
                r == n - d * c,
        ;
        assert(r == 0);
    }
}

/// The magnitude of a rounded quotient never exceeds the numerator's.
pub proof fn lemma_round_div_mag(n: int, d: int)
    requires
        d > 0,
    ensures
        abs_int(round_div(n, d)) <= abs_int(n),
{
    let m = abs_int(n);
    let q = m / d;
    let r = m % d;
    lemma_div_nonincreasing(m, d);
    lemma_div_pos_is_pos(m, d);
    if 2 * r >= d {
        if d == 1 {
            assert(r == 0);
        } else {
            lemma_div_is_ordered_by_denominator(m, 2, d);
            lemma_fundamental_div_mod(m, d);
            assert(m >= 1) by (nonlinear_arith)
                requires
                    r >= 1,
                    d >= 2,
                    m == d * (m / d) + r,
                    m / d >= 0,
            ;
            assert(m / 2 <= m - 1) by {
                assert(m == 2 * (m / 2) + (m % 2));
            };
        }
    }
}

/// A rounded quotient of a numerator bounded by `c` times the denominator
/// stays within `c` on both sides.
pub proof fn lemma_round_div_abs_le(n: int, d: int, c: int)
    requires
        d > 0,
        abs_int(n) <= c * d,
    ensures
        -c <= round_div(n, d) <= c,
{
    lemma_round_div_le(abs_int(n), d, c);
    assert(round_div(abs_int(n), d) == if n < 0 {
        -round_div(n, d)
    } else {
        round_div(n, d)
    });
}

/// Executable form of [`round_div`] on 128-bit integers.
pub fn round_div_i128(n: i128, d: i128) -> (r: i128)
    requires
        d > 0,
        n > i128::MIN,
        2 * d <= i128::MAX,
    ensures
        r == round_div(n as int, d as int),
        abs_int(r as int) <= abs_int(n as int),
{
    let neg = n < 0;
    let m: i128 = if neg {
        -n
    } else {
        n
    };
    proof {
        lemma_div_nonincreasing(m as int, d as int);
        lemma_div_is_ordered_by_denominator(m as int, 1, d as int);
    }
    let q: i128 = m / d;
    let rem: i128 = m % d;
    let mag: i128 = if 2 * rem >= d {
        proof {
            if d == 1 {
                assert(rem == 0);
            } else {
                lemma_div_is_ordered_by_denominator(m as int, 2, d as int);
                lemma_fundamental_div_mod(m as int, d as int);
                lemma_div_pos_is_pos(m as int, d as int);
                assert(m >= 1) by (nonlinear_arith)
                    requires
                        rem >= 1,
                        d >= 2,
                        m as int == d as int * (m as int / d as int) + rem as int,
                        m as int / d as int >= 0,
                ;
                assert(m as int / 2 <= m - 1) by {
                    assert(m as int == 2 * (m as int / 2) + (m as int % 2));
                };
            }
        }
        q + 1
    } else {
        q
    };
    assert(mag <= m);
    if neg {
        -mag
    } else {
        mag
    }
}

} // verus!
