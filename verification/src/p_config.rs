//! Immutable configuration of a pool, per protocol generation.
use vstd::prelude::*;

verus! {

use crate::id_address::Address;

/// The structured key identifying a singleton-variant pool: its hash is the
/// pool id the chain reports events under.
pub struct PoolKey {
    pub currency0: Address,
    pub currency1: Address,
    pub fee: u32,
    pub tick_spacing: i32,
    pub hooks: Address,
}

pub enum AnyPoolConfig {
    V2(V2Config),
    V3(V3Config),
    V4(V4Config),
}

pub struct V2Config {
    pub name: String,
    pub fee: u32,
    pub token0: Address,
    pub token1: Address,
}

pub struct V3Config {
    pub name: String,
    pub fee: u32,
    pub tick_spacing: i32,
    pub token0: Address,
    pub token1: Address,
}

#[derive(Clone, Copy, Debug, PartialEq, Eq, Structural)]
pub struct V4Config {
    pub fee: u32,
    pub tick_spacing: i32,
    pub hooks: Address,
    pub token0: Address,
    pub token1: Address,
}

impl V4Config {
    /// The structured pool key this configuration hashes to.
    pub fn to_key(&self) -> (r: PoolKey)
        ensures
            r.currency0 == self.token0,
            r.currency1 == self.token1,
            r.fee == self.fee,
            r.tick_spacing == self.tick_spacing,
            r.hooks == self.hooks,
    {
        PoolKey {
            currency0: self.token0,
            currency1: self.token1,
            fee: self.fee,
            tick_spacing: self.tick_spacing,
            hooks: self.hooks,
        }
    }
}

impl From<PoolKey> for V4Config {
    fn from(value: PoolKey) -> (r: Self) {
        Self {
            token0: value.currency0,
            token1: value.currency1,
            fee: value.fee,
            tick_spacing: value.tick_spacing,
            hooks: value.hooks,
        }
    }
}

impl vstd::std_specs::convert::FromSpecImpl<PoolKey> for V4Config {
    open spec fn obeys_from_spec() -> bool {
        true
    }

    open spec fn from_spec(value: PoolKey) -> V4Config {
        V4Config {
            token0: value.currency0,
            token1: value.currency1,
            fee: value.fee,
            tick_spacing: value.tick_spacing,
            hooks: value.hooks,
        }
    }
}

} // verus!
