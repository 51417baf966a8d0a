//! Fixed-point arithmetic helpers shared by the whole engine.
//!
//! A quantity of one world unit (or one radian, or a unit factor such as a
//! cosine) is stored as the integer [`FP_ONE`]. Callers that need real
//! trigonometry produce fixed-point values once, at the edge; everything in
//! here is exact integer arithmetic.

use vstd::prelude::*;
use vstd::arithmetic::div_mod::{lemma_mod_add_multiples_vanish, lemma_mod_sub_multiples_vanish};

verus! {

/// Fixed-point scale: the integer that stands for 1.0.
pub const FP_ONE: i64 = 1024;

/// Pi in fixed-point radians: the nearest integer to pi * FP_ONE.
pub const PI_FP: i64 = 3217;

/// A full turn (2 * pi) in fixed-point radians.
pub const TWO_PI_FP: i64 = 6434;

/// Magnitudes accepted by [`wrap_angle`]; generous enough for any angle the
/// engine accumulates, small enough that shifting by a turn cannot overflow.
pub const MAX_ANGLE_FP: i64 = 0x4000_0000_0000;

/// The integer square root of `n`: the largest `r` with `r * r <= n`,
/// defined by counting up from zero.
pub open spec fn sqrt_floor(n: nat) -> nat
    decreases n,
{
    if n == 0 {
        0
    } else {
        let r = sqrt_floor((n - 1) as nat);
        if (r + 1) * (r + 1) <= n {
            r + 1
        } else {
            r
        }
    }
}

/// The defining property of [`sqrt_floor`]: it is the floor of the real
/// square root.
pub proof fn lemma_sqrt_floor_bounds(n: nat)
    ensures
        sqrt_floor(n) * sqrt_floor(n) <= n,
        n < (sqrt_floor(n) + 1) * (sqrt_floor(n) + 1),
    decreases n,
{
    if n > 0 {
        lemma_sqrt_floor_bounds((n - 1) as nat);
        let r = sqrt_floor((n - 1) as nat);
        assert(r * r <= n - 1);
        assert(n - 1 < (r + 1) * (r + 1));
        if (r + 1) * (r + 1) <= n {
            assert(sqrt_floor(n) == r + 1);
            assert(sqrt_floor(n) * sqrt_floor(n) <= n) by (nonlinear_arith)
                requires sqrt_floor(n) == r + 1, (r + 1) * (r + 1) <= n;
            assert(n < (sqrt_floor(n) + 1) * (sqrt_floor(n) + 1)) by (nonlinear_arith)
                requires sqrt_floor(n) == r + 1, n <= (r + 1) * (r + 1);
        } else {
            assert(sqrt_floor(n) == r);
            assert(sqrt_floor(n) * sqrt_floor(n) <= n) by (nonlinear_arith)
                requires sqrt_floor(n) == r, r * r <= n;
            assert(n < (sqrt_floor(n) + 1) * (sqrt_floor(n) + 1)) by (nonlinear_arith)
                requires sqrt_floor(n) == r, n < (r + 1) * (r + 1);
        }
    } else {
        assert(sqrt_floor(n) == 0);
        assert(sqrt_floor(n) * sqrt_floor(n) <= n) by (nonlinear_arith)
            requires n == 0, sqrt_floor(n) == 0;
        assert(n < (sqrt_floor(n) + 1) * (sqrt_floor(n) + 1)) by (nonlinear_arith)
            requires n == 0, sqrt_floor(n) == 0;
    }
}

/// No two distinct integers both satisfy the square-root bounds.
pub proof fn lemma_sqrt_floor_unique(n: nat, r: nat)
    requires
        r * r <= n,
        n < (r + 1) * (r + 1),
    ensures
        r == sqrt_floor(n),
{
    lemma_sqrt_floor_bounds(n);
    let s = sqrt_floor(n);
    if r < s {
        assert((r + 1) * (r + 1) <= s * s) by (nonlinear_arith)
            requires r + 1 <= s;
    }
    if s < r {
        assert((s + 1) * (s + 1) <= r * r) by (nonlinear_arith)
            requires s + 1 <= r;
    }
}

/// Integer square root by binary search.
pub fn isqrt(n: u64) -> (r: u64)
    ensures
        r == sqrt_floor(n as nat),
        r * r <= n < (r + 1) * (r + 1),
{
    let mut lo: u64 = 0;
    let mut hi: u64 = 0x1_0000_0000;
    assert((hi as int) * (hi as int) == 0x1_0000_0000_0000_0000);
    while lo + 1 < hi
        invariant
            (lo as int) * (lo as int) <= n as int,
            (n as int) < (hi as int) * (hi as int),
            lo < hi <= 0x1_0000_0000,
        decreases hi - lo,
    {
        let mid: u64 = lo + (hi - lo) / 2;
        assert((mid as int) * (mid as int) <= 0x1_0000_0000_0000_0000) by (nonlinear_arith)
            requires mid <= 0x1_0000_0000;
        if (mid as u128) * (mid as u128) <= n as u128 {
            lo = mid;
        } else {
            hi = mid;
        }
    }
    proof {
        lemma_sqrt_floor_unique(n as nat, lo as nat);
    }
    lo
}

/// A fixed-point angle normalized into `[-PI_FP, PI_FP]` by whole turns.
pub open spec fn wrap_spec(a: int) -> int
    decreases
            (if a >= 0 {
                a
            } else {
                -a
            }),
{
    if a > PI_FP {
        wrap_spec(a - TWO_PI_FP)
    } else if a < -PI_FP {
        wrap_spec(a + TWO_PI_FP)
    } else {
        a
    }
}

/// The normalized angle lies in the principal interval and differs from the
/// original by whole turns.
pub proof fn lemma_wrap_spec_bounds(a: int)
    ensures
        -PI_FP <= wrap_spec(a) <= PI_FP,
        (a - wrap_spec(a)) % (TWO_PI_FP as int) == 0,
    decreases
            (if a >= 0 {
                a
            } else {
                -a
            }),
{
    if a > PI_FP {
        lemma_wrap_spec_bounds(a - TWO_PI_FP);
        lemma_mod_add_multiples_vanish(a - TWO_PI_FP - wrap_spec(a - TWO_PI_FP), TWO_PI_FP as int);
    } else if a < -PI_FP {
        lemma_wrap_spec_bounds(a + TWO_PI_FP);
        lemma_mod_sub_multiples_vanish(a + TWO_PI_FP - wrap_spec(a + TWO_PI_FP), TWO_PI_FP as int);
    }
}

/// Normalizes a fixed-point angle into `[-PI_FP, PI_FP]` by whole turns.
pub fn wrap_angle(a: i64) -> (r: i64)
    requires
        -MAX_ANGLE_FP <= a <= MAX_ANGLE_FP,
    ensures
        r == wrap_spec(a as int),
        -PI_FP <= r <= PI_FP,
{
    let mut r = a;
    while r > PI_FP
        invariant
            -MAX_ANGLE_FP <= r <= MAX_ANGLE_FP,
            wrap_spec(r as int) == wrap_spec(a as int),
        decreases r + PI_FP,
    {
        r = r - TWO_PI_FP;
    }
    while r < -PI_FP
        invariant
            -MAX_ANGLE_FP <= r <= PI_FP,
            wrap_spec(r as int) == wrap_spec(a as int),
        decreases PI_FP - r,
    {
        r = r + TWO_PI_FP;
    }
    r
}

} // verus!
