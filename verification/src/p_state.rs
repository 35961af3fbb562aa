//! Mutable protocol-specific pool snapshots as carried in the registry.
use vstd::prelude::*;

verus! {

use crate::u256::U256;

pub enum AnyPoolState {
    V2(V2State),
    V3(V3State),
}

/// Concentrated-liquidity snapshot: tick, Q96 square-root price, in-range
/// liquidity.
pub struct V3State {
    pub tick: i32,
    pub x96price: U256,
    pub liquidity: u128,
}

/// Constant-product snapshot: the two reserves.
#[derive(Clone, Copy, Debug, PartialEq, Eq, Structural)]
pub struct V2State {
    pub r0: u128,
    pub r1: u128,
}

} // verus!
