//! Failure cases of tick lookups and trade simulation.
//!
//! Tick-set failures carry the in-flight trade state so a caller can fetch
//! more tick data and resume; math failures are fatal for the call.
use vstd::prelude::*;

verus! {

use crate::states::{TradeState, TradeStateV};

/// A bitmap word that was never fetched.
#[derive(Debug)]
pub enum WordError {
    NotTried,
}

/// The tick set ran out upward or downward, or a needed tick's liquidity
/// value was never loaded.
#[derive(Debug)]
pub enum TickError {
    Overflow(TradeState),
    Underflow(TradeState),
    Unavailable(TradeState),
}

/// Checked fixed-point arithmetic failed: overflow, underflow, or a zero
/// divisor.
#[derive(Debug)]
pub enum MathError {
    A(TradeState),
}

/// Any way a trade simulation can fail.
#[derive(Debug)]
pub enum TradeError {
    Tick(TickError),
    Math(MathError),
    V2,
}

/// Ghost image of a simulation failure: the variant and the snapshot it
/// carries.
pub ghost enum TradeErrorV {
    Overflow(TradeStateV),
    Underflow(TradeStateV),
    Unavailable(TradeStateV),
    Math(TradeStateV),
    V2,
}

impl View for TradeError {
    type V = TradeErrorV;

    open spec fn view(&self) -> TradeErrorV {
        match self {
            TradeError::Tick(TickError::Overflow(s)) => TradeErrorV::Overflow(s@),
            TradeError::Tick(TickError::Underflow(s)) => TradeErrorV::Underflow(s@),
            TradeError::Tick(TickError::Unavailable(s)) => TradeErrorV::Unavailable(s@),
            TradeError::Math(MathError::A(s)) => TradeErrorV::Math(s@),
            TradeError::V2 => TradeErrorV::V2,
        }
    }
}

impl From<TickError> for TradeError {
    fn from(value: TickError) -> (r: Self) {
        TradeError::Tick(value)
    }
}

impl vstd::std_specs::convert::FromSpecImpl<TickError> for TradeError {
    open spec fn obeys_from_spec() -> bool {
        true
    }

    open spec fn from_spec(value: TickError) -> TradeError {
        TradeError::Tick(value)
    }
}

impl From<MathError> for TradeError {
    fn from(value: MathError) -> (r: Self) {
        TradeError::Math(value)
    }
}

impl vstd::std_specs::convert::FromSpecImpl<MathError> for TradeError {
    open spec fn obeys_from_spec() -> bool {
        true
    }

    open spec fn from_spec(value: MathError) -> TradeError {
        TradeError::Math(value)
    }
}

} // verus!
