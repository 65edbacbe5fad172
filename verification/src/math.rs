//! Basic verified arithmetic helpers: greatest common divisor and
//! integer square root.

use vstd::prelude::*;

verus! {

/// Greatest common divisor of two natural numbers, by the Euclidean
/// recurrence.
pub open spec fn gcd_nat(a: nat, b: nat) -> nat
    decreases b,
{
    if b == 0 {
        a
    } else {
        gcd_nat(b, a % b)
    }
}

/// Greatest common divisor of the absolute values of `a` and `b`.
///
/// `i64::MIN` is excluded because its absolute value does not fit in
/// an `i64`.
pub fn gcd(a: i64, b: i64) -> (r: i64)
    requires
        a > i64::MIN,
        b > i64::MIN,
    ensures
        0 <= r,
        r == gcd_nat(vstd::math::abs(a as int), vstd::math::abs(b as int)),
{
    let mut x: u64 = if a >= 0 { a as u64 } else { (-a) as u64 };
    let mut y: u64 = if b >= 0 { b as u64 } else { (-b) as u64 };
    while y != 0
        invariant
            x < 0x8000_0000_0000_0000u64,
            y < 0x8000_0000_0000_0000u64,
            gcd_nat(x as nat, y as nat) == gcd_nat(
                vstd::math::abs(a as int),
                vstd::math::abs(b as int),
            ),
        decreases y,
    {
        let t = y;
        y = x % y;
        x = t;
    }
    x as i64
}

/// Floor of the square root of a natural number.
pub open spec fn sqrt_floor(n: nat) -> nat
    decreases n,
{
    if n == 0 {
        0
    } else {
        let r = sqrt_floor((n - 1) as nat);
        if (r + 1) * (r + 1) <= n {
            r + 1
        } else {
            r
        }
    }
}

/// `sqrt_floor(n)` is the unique natural whose square is at most `n`
/// while the next square exceeds `n`.
pub proof fn lemma_sqrt_floor_bounds(n: nat)
    ensures
        sqrt_floor(n) * sqrt_floor(n) <= n,
        n < (sqrt_floor(n) + 1) * (sqrt_floor(n) + 1),
    decreases n,
{
    if n > 0 {
        lemma_sqrt_floor_bounds((n - 1) as nat);
        let r = sqrt_floor((n - 1) as nat);
        assert(sqrt_floor(n) == if (r + 1) * (r + 1) <= n {
            r + 1
        } else {
            r
        });
        if (r + 1) * (r + 1) <= n {
            assert((r + 1) * (r + 1) < (r + 2) * (r + 2)) by (nonlinear_arith)
                requires
                    r >= 0,
            ;
            assert(sqrt_floor(n) == r + 1);
            assert(sqrt_floor(n) * sqrt_floor(n) == (r + 1) * (r + 1));
            assert((sqrt_floor(n) + 1) * (sqrt_floor(n) + 1) == (r + 2) * (r + 2));
        } else {
            assert(sqrt_floor(n) == r);
            assert(sqrt_floor(n) * sqrt_floor(n) == r * r);
            assert((sqrt_floor(n) + 1) * (sqrt_floor(n) + 1) == (r + 1) * (r + 1));
        }
    } else {
        assert(sqrt_floor(n) == 0);
        assert(n < (sqrt_floor(n) + 1) * (sqrt_floor(n) + 1)) by (nonlinear_arith)
            requires
                n == 0,
                sqrt_floor(n) == 0,
        ;
    }
}

/// Any natural satisfying the floor-square-root characterisation is
/// `sqrt_floor(n)`.
pub proof fn lemma_sqrt_floor_unique(n: nat, r: nat)
    requires
        r * r <= n,
        n < (r + 1) * (r + 1),
    ensures
        sqrt_floor(n) == r,
{
    lemma_sqrt_floor_bounds(n);
    let s = sqrt_floor(n);
    if s < r {
        assert(false) by (nonlinear_arith)
            requires
                s < r,
                r * r <= n,
                n < (s + 1) * (s + 1),
                s >= 0,
                r >= 0,
        ;
    }
    if r < s {
        assert(false) by (nonlinear_arith)
            requires
                r < s,
                s * s <= n,
                n < (r + 1) * (r + 1),
                s >= 0,
                r >= 0,
        ;
    }
}

/// Floor of the square root, by bisection on the answer.
///
/// The argument is capped at `2^126` so that the initial upper
/// bisection bound `2^63 + 1` can be squared without overflowing
/// `u128`.
pub fn isqrt(n: u128) -> (r: u128)
    requires
        n <= 85070591730234615865843651857942052864u128,
    ensures
        r as nat == sqrt_floor(n as nat),
        (r as int) * (r as int) <= n as int,
        (n as int) < ((r as int) + 1) * ((r as int) + 1),
        r <= 9223372036854775808u128,
{
    let mut lo: u128 = 0;
    let mut hi: u128 = 9223372036854775809u128;
    while lo + 1 < hi
        invariant
            lo < hi <= 9223372036854775809u128,
            (lo as int) * (lo as int) <= n as int,
            (n as int) < (hi as int) * (hi as int),
        decreases hi - lo,
    {
        let mid = lo + (hi - lo) / 2;
        proof {
            assert((mid as int) * (mid as int) <= 85070591730234615865843651857942052864int)
                by (nonlinear_arith)
                requires
                    0 <= mid as int <= 9223372036854775808int,
            ;
        }
        if mid * mid <= n {
            lo = mid;
        } else {
            hi = mid;
        }
    }
    proof {
        lemma_sqrt_floor_unique(n as nat, lo as nat);
    }
    lo
}

} // verus!
