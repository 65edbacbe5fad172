//! Exact fractions.
//!
//! Indicator and forecast results that are not integral (means,
//! percentage changes, regression predictions) are returned as a
//! numerator/denominator pair instead of being rounded, so their
//! contracts can state the exact value.

use vstd::prelude::*;

verus! {

/// An exact fraction `num / den`. Every function of this crate that
/// returns a `Ratio` keeps `den > 0`.
#[derive(Clone, Copy, Debug, PartialEq, Eq, Structural)]
pub struct Ratio {
    pub num: i128,
    pub den: i128,
}

/// A fraction is well formed when its denominator is positive.
pub open spec fn ratio_wf(r: Ratio) -> bool {
    r.den > 0
}

/// The fraction `n / d`, as a spec-level value.
pub open spec fn ratio_of(n: int, d: int) -> Ratio {
    Ratio { num: n as i128, den: d as i128 }
}

/// The fraction `n / d` with the sign moved into the numerator, so
/// that the denominator is non-negative.
pub open spec fn signed_ratio_of(n: int, d: int) -> Ratio {
    if d >= 0 {
        ratio_of(n, d)
    } else {
        ratio_of(-n, -d)
    }
}

/// `a <= b` as fractions; meaningful when both denominators are
/// positive.
pub open spec fn ratio_le(a: Ratio, b: Ratio) -> bool {
    a.num * b.den <= b.num * a.den
}

impl Ratio {
    /// The integer `n`, as a fraction.
    pub fn from_int(n: i64) -> (r: Ratio)
        ensures
            r == ratio_of(n as int, 1),
    {
        Ratio { num: n as i128, den: 1 }
    }
}

} // verus!
