//! Fetched bitmap words and per-tick data, keyed by word position and tick.
use vstd::prelude::*;

verus! {

use crate::u256::U256;

/// The bitmap words fetched for one pool, keyed by word position.
pub struct PoolWords {
    pub words: Vec<(i16, TicksBitMap)>,
}

/// One fetched word and the per-tick data known inside it.
pub struct TicksBitMap {
    pub bitmap: U256,
    pub ticks: Vec<(i32, TickData)>,
}

/// What is known about one initialized tick.
#[derive(Clone, Copy, Debug, PartialEq, Eq, Structural)]
pub struct TickData {
    pub liquidity_net: Option<i128>,
}

} // verus!
