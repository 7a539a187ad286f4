//! Signed fixed-point scalar arithmetic with 16 fractional bits.
//!
//! A scalar is an `i64` holding `value * SCALE`. Every operation saturates to
//! the `i64` range instead of overflowing, and division truncates toward zero.
//! The spec functions `fadd`, `fsub`, `fneg`, `fmul`, `fdiv`, `fsqrt` and
//! `fpow` state each executable operation exactly, over `int`.

use vstd::prelude::*;

verus! {

/// Fixed-point representation of 1.0: values carry 16 fractional bits.
pub const SCALE: i64 = 65536;

/// Absolute value over int.
pub open spec fn iabs(a: int) -> int {
    if a < 0 {
        -a
    } else {
        a
    }
}

/// Truncating (round toward zero) division, as the machine performs it.
/// Meaningful only for b != 0.
pub open spec fn tdiv(a: int, b: int) -> int {
    if (a < 0) != (b < 0) {
        -(iabs(a) / iabs(b))
    } else {
        iabs(a) / iabs(b)
    }
}

/// Saturation of an unbounded integer to the i64 range.
pub open spec fn clip(a: int) -> int {
    if a > i64::MAX as int {
        i64::MAX as int
    } else if a < i64::MIN as int {
        i64::MIN as int
    } else {
        a
    }
}

/// Saturating fixed-point addition.
pub open spec fn fadd(a: int, b: int) -> int {
    clip(a + b)
}

/// Saturating fixed-point subtraction.
pub open spec fn fsub(a: int, b: int) -> int {
    clip(a - b)
}

/// Saturating negation (the one saturating case is -i64::MIN).
pub open spec fn fneg(a: int) -> int {
    clip(-a)
}

/// Saturating fixed-point multiplication: (a * b) / SCALE, truncated.
pub open spec fn fmul(a: int, b: int) -> int {
    clip(tdiv(a * b, SCALE as int))
}

/// Saturating fixed-point division: (a * SCALE) / b, truncated.
/// Meaningful only for b != 0.
pub open spec fn fdiv(a: int, b: int) -> int {
    clip(tdiv(a * SCALE, b))
}

/// Floor of the square root of a natural number.
pub open spec fn sqrt_floor(n: nat) -> nat
    decreases n,
{
    if n == 0 {
        0
    } else {
        let s = sqrt_floor((n - 1) as nat);
        if (s + 1) * (s + 1) <= n {
            s + 1
        } else {
            s
        }
    }
}

/// Fixed-point square root: for a >= 0 the largest fixed-point value whose
/// square (as a real) is at most a; 0 for negative input.
pub open spec fn fsqrt(a: int) -> int {
    if a < 0 {
        0
    } else {
        clip(sqrt_floor((a * SCALE) as nat) as int)
    }
}

/// Fixed-point power with a natural exponent: fpow(b, 0) == 1.0 (SCALE).
pub open spec fn fpow(b: int, e: nat) -> int
    decreases e,
{
    if e == 0 {
        SCALE as int
    } else {
        fmul(b, fpow(b, (e - 1) as nat))
    }
}

proof fn lemma_mul_sign(a: int, b: int)
    by (nonlinear_arith)
    ensures
        a * b < 0 ==> ((a < 0) != (b < 0)),
        ((a < 0) != (b < 0)) && a != 0 && b != 0 ==> a * b < 0,
        (a == 0 || b == 0) ==> a * b == 0,
{
}

proof fn lemma_abs_mul(a: int, b: int)
    ensures
        iabs(a * b) == iabs(a) * iabs(b),
{
    lemma_mul_sign(a, b);
    if a >= 0 && b >= 0 {
        assert(a * b >= 0) by (nonlinear_arith)
            requires
                a >= 0 && b >= 0,
        ;
    } else if a >= 0 && b < 0 {
        assert(a * b <= 0 && -(a * b) == a * (-b)) by (nonlinear_arith)
            requires
                a >= 0 && b < 0,
        ;
    } else if a < 0 && b >= 0 {
        assert(a * b <= 0 && -(a * b) == (-a) * b) by (nonlinear_arith)
            requires
                a < 0 && b >= 0,
        ;
    } else {
        assert(a * b >= 0 && a * b == (-a) * (-b)) by (nonlinear_arith)
            requires
                a < 0 && b < 0,
        ;
    }
}

/// Magnitude of an i64, exact even for i64::MIN.
fn abs_mag(a: i64) -> (r: u64)
    ensures
        r as int == iabs(a as int),
{
    if a >= 0 {
        a as u64
    } else if a == i64::MIN {
        9223372036854775808u64
    } else {
        (-a) as u64
    }
}

/// Reassembles a sign and a magnitude into a saturated i64.
fn from_mag(neg: bool, m: u128) -> (r: i64)
    ensures
        r as int == clip(
            if neg {
                -(m as int)
            } else {
                m as int
            },
        ),
{
    if neg {
        if m >= 9223372036854775808u128 {
            i64::MIN
        } else {
            -((m as u64) as i64)
        }
    } else {
        if m > 9223372036854775807u128 {
            i64::MAX
        } else {
            m as i64
        }
    }
}

/// Saturating addition of two fixed-point scalars.
pub fn fx_add(a: i64, b: i64) -> (r: i64)
    ensures
        r as int == fadd(a as int, b as int),
{
    let s: i128 = a as i128 + b as i128;
    if s > i64::MAX as i128 {
        i64::MAX
    } else if s < i64::MIN as i128 {
        i64::MIN
    } else {
        s as i64
    }
}

/// Saturating subtraction of two fixed-point scalars.
pub fn fx_sub(a: i64, b: i64) -> (r: i64)
    ensures
        r as int == fsub(a as int, b as int),
{
    let s: i128 = a as i128 - b as i128;
    if s > i64::MAX as i128 {
        i64::MAX
    } else if s < i64::MIN as i128 {
        i64::MIN
    } else {
        s as i64
    }
}

/// Saturating negation.
pub fn fx_neg(a: i64) -> (r: i64)
    ensures
        r as int == fneg(a as int),
{
    if a == i64::MIN {
        i64::MAX
    } else {
        -a
    }
}

/// Saturating fixed-point multiplication.
pub fn fx_mul(a: i64, b: i64) -> (r: i64)
    ensures
        r as int == fmul(a as int, b as int),
{
    let neg: bool = (a < 0) != (b < 0);
    let ma: u128 = abs_mag(a) as u128;
    let mb: u128 = abs_mag(b) as u128;
    proof {
        assert(ma * mb <= 170141183460469231731687303715884105728int) by (nonlinear_arith)
            requires
                ma <= 9223372036854775808u128 && mb <= 9223372036854775808u128,
        ;
    }
    let q: u128 = (ma * mb) / 65536u128;
    proof {
        lemma_abs_mul(a as int, b as int);
        lemma_mul_sign(a as int, b as int);
        assert(ma * mb == iabs((a as int) * (b as int)));
        assert(q as int == iabs((a as int) * (b as int)) / (SCALE as int));
    }
    from_mag(neg, q)
}

/// Saturating fixed-point division; the divisor must be nonzero.
pub fn fx_div(a: i64, b: i64) -> (r: i64)
    requires
        b != 0,
    ensures
        r as int == fdiv(a as int, b as int),
{
    let neg: bool = (a < 0) != (b < 0);
    let ma: u128 = abs_mag(a) as u128 * 65536u128;
    let mb: u128 = abs_mag(b) as u128;
    let q: u128 = ma / mb;
    proof {
        lemma_abs_mul(a as int, SCALE as int);
        lemma_mul_sign(a as int, SCALE as int);
        assert(ma == iabs((a as int) * (SCALE as int)));
        assert(q as int == iabs((a as int) * (SCALE as int)) / iabs(b as int));
        assert(((a as int) * (SCALE as int) < 0) == ((a as int) < 0)) by {
            lemma_mul_sign(a as int, SCALE as int);
        }
    }
    from_mag(neg, q)
}

proof fn lemma_sqrt_floor_bounds(n: nat)
    ensures
        sqrt_floor(n) * sqrt_floor(n) <= n,
        n < (sqrt_floor(n) + 1) * (sqrt_floor(n) + 1),
    decreases n,
{
    if n == 0 {
        assert(sqrt_floor(0) == 0);
        assert((sqrt_floor(n) + 1) * (sqrt_floor(n) + 1) == 1) by (nonlinear_arith)
            requires
                sqrt_floor(n) == 0,
        ;
    } else {
        lemma_sqrt_floor_bounds((n - 1) as nat);
        let s = sqrt_floor((n - 1) as nat);
        assert(sqrt_floor(n) == if (s + 1) * (s + 1) <= n {
            s + 1
        } else {
            s
        });
        if (s + 1) * (s + 1) <= n {
            assert(sqrt_floor(n) == s + 1);
            assert(n - 1 < (s + 1) * (s + 1));
            assert(n == (s + 1) * (s + 1));
            assert(((s + 2) as int) * ((s + 2) as int) == ((s + 1) as int) * ((s + 1) as int) + 2
                * (s as int) + 3) by (nonlinear_arith);
            assert(n < (s + 2) * (s + 2));
            assert(n < (sqrt_floor(n) + 1) * (sqrt_floor(n) + 1));
        } else {
            assert(sqrt_floor(n) == s);
            assert(s * s <= n - 1 < n);
            assert(n < (sqrt_floor(n) + 1) * (sqrt_floor(n) + 1));
        }
    }
}

proof fn lemma_sqrt_unique(n: nat, r: nat)
    requires
        r * r <= n,
        n < (r + 1) * (r + 1),
    ensures
        r == sqrt_floor(n),
{
    lemma_sqrt_floor_bounds(n);
    let s = sqrt_floor(n);
    if r < s {
        assert(false) by (nonlinear_arith)
            requires
                r < s && s * s <= n && n < (r + 1) * (r + 1),
        ;
    } else if s < r {
        assert(false) by (nonlinear_arith)
            requires
                s < r && r * r <= n && n < (s + 1) * (s + 1),
        ;
    }
}

/// Floor square root of a u128, by binary search.
fn isqrt(n: u128) -> (r: u64)
    ensures
        r as nat == sqrt_floor(n as nat),
{
    let mut lo: u128 = 0;
    let mut hi: u128 = 18446744073709551616u128;
    proof {
        assert((hi as int) * (hi as int) > n as int) by (nonlinear_arith)
            requires
                hi == 18446744073709551616u128 && n <= u128::MAX,
        ;
    }
    while lo + 1 < hi
        invariant
            lo < hi,
            hi <= 18446744073709551616u128,
            (lo as int) * (lo as int) <= n as int,
            (n as int) < (hi as int) * (hi as int),
        decreases hi - lo,
    {
        let mid: u128 = lo + (hi - lo) / 2;
        proof {
            assert((mid as int) * (mid as int) < 340282366920938463463374607431768211455int) by (nonlinear_arith)
                requires
                    mid < 18446744073709551616u128,
            ;
        }
        if mid * mid <= n {
            lo = mid;
        } else {
            hi = mid;
        }
    }
    proof {
        lemma_sqrt_unique(n as nat, lo as nat);
    }
    lo as u64
}

/// Fixed-point square root (0 for negative input).
pub fn fx_sqrt(a: i64) -> (r: i64)
    ensures
        r as int == fsqrt(a as int),
{
    if a < 0 {
        0
    } else {
        let n: u128 = (a as u128) * 65536u128;
        let s: u64 = isqrt(n);
        proof {
            lemma_sqrt_floor_bounds(n as nat);
            assert(s as int <= i64::MAX as int) by (nonlinear_arith)
                requires
                    (s as int) * (s as int) <= n as int && n <= 604462909807314587353088u128 && s
                        >= 0,
            ;
        }
        s as i64
    }
}

/// Fixed-point power with a natural exponent.
pub fn fx_pow(b: i64, e: u32) -> (r: i64)
    ensures
        r as int == fpow(b as int, e as nat),
{
    let mut r: i64 = SCALE;
    let mut i: u32 = 0;
    while i < e
        invariant
            i <= e,
            r as int == fpow(b as int, i as nat),
        decreases e - i,
    {
        r = fx_mul(b, r);
        i = i + 1;
    }
    r
}

} // verus!
