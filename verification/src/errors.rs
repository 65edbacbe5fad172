//! Error taxonomy of the engine.

use vstd::prelude::*;

verus! {

/// The defined failures of the engine. Indicator functions prefer
/// defined fallback values (neutral RSI, last-value SMA, zero
/// momentum) over errors; only malformed input, a singular regression
/// system, and a zero momentum base price surface as errors.
#[derive(Clone, Copy, Debug, PartialEq, Eq, Structural)]
pub enum EngineError {
    /// A parameter outside its documented domain (a zero candle
    /// period).
    InvalidArgument,
    /// An empty series where a value is required.
    InvalidInput,
    /// The regression's normal equations are singular (a one-point
    /// window).
    DegenerateRegression,
    /// A percentage change relative to a historical price of zero.
    DivisionByZero,
}

} // verus!
