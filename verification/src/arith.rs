//! Shared integer arithmetic: floor/ceiling/truncating division on wide
//! integers, powers of ten, and the pixel clamp. All pixel mappings are
//! computed exactly over `i128` and described by the spec functions here.
use vstd::prelude::*;
use vstd::arithmetic::div_mod::{
    lemma_div_is_ordered, lemma_div_multiples_vanish, lemma_fundamental_div_mod,
    lemma_fundamental_div_mod_converse,
};

verus! {

/// Saturates a mathematical integer into the `i32` pixel range.
pub open spec fn clamp_i32(x: int) -> int {
    if x < i32::MIN as int {
        i32::MIN as int
    } else if x > i32::MAX as int {
        i32::MAX as int
    } else {
        x
    }
}

/// Floor of the rational `n / d`, for `d != 0`. For a positive divisor the
/// Euclidean quotient is already the floor; a negative divisor is normalised.
pub open spec fn floor_ratio(n: int, d: int) -> int {
    if d > 0 {
        n / d
    } else {
        (-n) / (-d)
    }
}

/// Ceiling of the rational `n / d`, for `d > 0`.
pub open spec fn ceil_ratio(n: int, d: int) -> int {
    (n + d - 1) / d
}

/// The rational `n / d` rounded toward zero, for `d != 0`.
pub open spec fn trunc_ratio(n: int, d: int) -> int {
    let q = abs_int(n) / abs_int(d);
    if (n < 0) == (d < 0) {
        q
    } else {
        -q
    }
}

/// Absolute value.
pub open spec fn abs_int(x: int) -> int {
    if x < 0 {
        -x
    } else {
        x
    }
}

/// `10^k`.
pub open spec fn pow10(k: nat) -> int
    decreases k,
{
    if k == 0 {
        1
    } else {
        10 * pow10((k - 1) as nat)
    }
}

pub proof fn lemma_pow10_pos(k: nat)
    ensures
        pow10(k) >= 1,
    decreases k,
{
    if k > 0 {
        lemma_pow10_pos((k - 1) as nat);
    }
}

pub proof fn lemma_pow10_increases(j: nat, k: nat)
    requires
        j <= k,
    ensures
        pow10(j) <= pow10(k),
    decreases k,
{
    lemma_pow10_pos(j);
    if j < k {
        lemma_pow10_increases(j, (k - 1) as nat);
        lemma_pow10_pos((k - 1) as nat);
    }
}

pub proof fn lemma_pow10_adds(j: nat, k: nat)
    ensures
        pow10(j + k) == pow10(j) * pow10(k),
    decreases j,
{
    if j > 0 {
        lemma_pow10_adds((j - 1) as nat, k);
        assert(10 * (pow10((j - 1) as nat) * pow10(k)) == (10 * pow10((j - 1) as nat)) * pow10(k))
            by (nonlinear_arith);
    }
}

/// A concrete ceiling for the powers of ten this crate computes at run time.
pub proof fn lemma_pow10_36_value()
    ensures
        pow10(36) == 1000000000000000000000000000000000000,
{
    reveal_with_fuel(pow10, 40);
}

/// Division with a positive divisor, rounding toward negative infinity,
/// computed without overflow for any `n > i128::MIN`.
pub fn floor_div_i128(n: i128, d: i128) -> (r: i128)
    requires
        d > 0,
        n > i128::MIN,
    ensures
        r as int == n as int / d as int,
{
    if n >= 0 {
        let q = n / d;
        q
    } else {
        let q = (-n) / d;
        let r = if (-n) % d == 0 {
            -q
        } else {
            -q - 1
        };
        proof {
            lemma_fundamental_div_mod((-n) as int, d as int);
            let qq = (-n) as int / d as int;
            let rr = (-n) as int % d as int;
            assert(n as int == d as int * (-qq) + (-rr)) by (nonlinear_arith)
                requires
                    (-n) as int == d as int * qq + rr,
                    n as int > i128::MIN,
            ;
            if rr == 0 {
                lemma_div_multiples_vanish(-qq, d as int);
            } else {
                assert(n as int == (-qq - 1) * (d as int) + (d as int - rr)) by (nonlinear_arith)
                    requires
                        n as int == d as int * (-qq) + (-rr),
                ;
                lemma_fundamental_div_mod_converse(n as int, d as int, -qq - 1, d as int - rr);
            }
        }
        r
    }
}

/// Division with a positive divisor, rounding toward positive infinity.
pub fn ceil_div_i128(n: i128, d: i128) -> (r: i128)
    requires
        d > 0,
        i128::MIN < n,
        n + d - 1 <= i128::MAX,
    ensures
        r as int == ceil_ratio(n as int, d as int),
{
    floor_div_i128(n - 1 + d, d)
}

/// Division rounding toward zero, the rounding a cast from a wider
/// numeric domain to an integer type performs.
pub fn trunc_div_i128(n: i128, d: i128) -> (r: i128)
    requires
        d != 0,
        i128::MIN < n,
        i128::MIN < d,
    ensures
        r as int == trunc_ratio(n as int, d as int),
{
    let nn = if n >= 0 {
        n
    } else {
        -n
    };
    let dd = if d >= 0 {
        d
    } else {
        -d
    };
    let q = nn / dd;
    proof {
        lemma_div_is_ordered(0, nn as int, dd as int);
    }
    if (n < 0) == (d < 0) {
        q
    } else {
        -q
    }
}

/// `10^k` as a wide integer, for exponents that fit it.
pub fn pow10_i128(k: u32) -> (r: i128)
    requires
        k <= 36,
    ensures
        r as int == pow10(k as nat),
        r >= 1,
{
    let mut i: u32 = 0;
    let mut acc: i128 = 1;
    while i < k
        invariant
            i <= k,
            k <= 36,
            acc as int == pow10(i as nat),
            1 <= acc,
        decreases k - i,
    {
        proof {
            lemma_pow10_increases((i + 1) as nat, 36nat);
            lemma_pow10_36_value();
            assert(pow10((i + 1) as nat) == 10 * pow10(i as nat));
        }
        acc = acc * 10;
        i = i + 1;
    }
    acc
}

/// Quotients with a positive divisor are ordered with their numerators.
pub proof fn lemma_floor_div_ordered(n1: int, n2: int, d: int)
    requires
        n1 <= n2,
        d > 0,
    ensures
        n1 / d <= n2 / d,
{
    lemma_div_is_ordered(n1, n2, d);
}

/// Dividing by a positive divisor moves the value toward zero.
pub proof fn lemma_floor_div_shrinks(x: int, f: int)
    requires
        f >= 1,
    ensures
        x >= 0 ==> 0 <= x / f <= x,
        x < 0 ==> x <= x / f <= 0,
{
    lemma_floor_div_bounds(x, f);
    if x >= 0 {
        lemma_floor_div_ordered(0, x, f);
        if x / f > x {
            assert(f * (x / f) >= x / f) by (nonlinear_arith)
                requires
                    f >= 1,
                    x / f > 0,
            ;
        }
    } else {
        lemma_floor_div_ordered(x, 0, f);
        assert(f * x <= x) by (nonlinear_arith)
            requires
                f >= 1,
                x < 0,
        ;
        lemma_floor_div_ordered(f * x, x, f);
        lemma_div_multiples_vanish(x, f);
    }
}

/// The ceiling quotient lies between zero and the numerator.
pub proof fn lemma_ceil_div_shrinks(lo: int, f: int)
    requires
        f >= 1,
    ensures
        lo >= 0 ==> 0 <= ceil_ratio(lo, f) <= lo,
        lo < 0 ==> lo <= ceil_ratio(lo, f) <= 0,
{
    let c = ceil_ratio(lo, f);
    assert((f - 1) / f == 0) by {
        lemma_fundamental_div_mod_converse(f - 1, f, 0, f - 1);
    }
    if lo >= 0 {
        lemma_floor_div_ordered(f - 1, lo + f - 1, f);
        assert(lo + f - 1 <= f * lo + f - 1) by (nonlinear_arith)
            requires
                f >= 1,
                lo >= 0,
        ;
        assert((f * lo + f - 1) / f == lo) by {
            assert(f * lo + f - 1 == lo * f + (f - 1)) by (nonlinear_arith);
            lemma_fundamental_div_mod_converse(f * lo + f - 1, f, lo, f - 1);
        }
        lemma_floor_div_ordered(lo + f - 1, f * lo + f - 1, f);
    } else {
        lemma_floor_div_ordered(lo + f - 1, f - 1, f);
        assert(f * lo + f - 1 <= lo + f - 1) by (nonlinear_arith)
            requires
                f >= 1,
                lo < 0,
        ;
        assert((f * lo + f - 1) / f == lo) by {
            assert(f * lo + f - 1 == lo * f + (f - 1)) by (nonlinear_arith);
            lemma_fundamental_div_mod_converse(f * lo + f - 1, f, lo, f - 1);
        }
        lemma_floor_div_ordered(f * lo + f - 1, lo + f - 1, f);
    }
}

/// The standard bracketing of an integer around its floored quotient.
pub proof fn lemma_floor_div_bounds(n: int, d: int)
    requires
        d > 0,
    ensures
        d * (n / d) <= n < d * (n / d) + d,
        n - d < d * (n / d),
{
    lemma_fundamental_div_mod(n, d);
    assert(0 <= n % d < d) by {
        vstd::arithmetic::div_mod::lemma_mod_bound(n, d);
    }
}

} // verus!
