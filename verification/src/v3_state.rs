//! Mirrored state of one concentrated-liquidity pool, tick index included.
use vstd::prelude::*;

verus! {

use crate::u256::U256;
use crate::ticks::Ticks;

/// Current tick, Q96 square-root price, in-range liquidity, and the known
/// initialized ticks of the pool.
#[derive(Debug)]
pub struct V3State {
    pub tick: i32,
    pub ticks: Ticks,
    pub liquidity: U256,
    pub x96price: U256,
}

} // verus!
