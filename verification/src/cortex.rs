//! Static knowledge loaded at startup: partially resolved pools, exchanges
//! and tokens, and the node endpoints per chain.
use vstd::prelude::*;

verus! {

use crate::id_address::Address;
use crate::d_any::{DexId, V2Fees, V3Fees};
use crate::p_config::{V2Config, V3Config, V4Config};
use crate::p_state::{V2State, V3State};
use crate::t_any::AnyTokenShape;

/// A constant-product pool whose configuration or state may still be
/// unresolved.
pub struct PartialV2Pool {
    pub chain: u64,
    pub address: Address,
    pub config: Option<V2Config>,
    pub state: Option<V2State>,
}

/// A concentrated-liquidity pool whose configuration or state may still be
/// unresolved.
pub struct PartialV3Pool {
    pub chain: u64,
    pub address: Address,
    pub config: Option<V3Config>,
    pub state: Option<V3State>,
}

/// A singleton-variant pool whose configuration or state may still be
/// unresolved.
pub struct PartialV4Pool {
    pub chain: u64,
    pub address: Address,
    pub config: Option<V4Config>,
    pub state: Option<V3State>,
}

pub struct PartialV2Dex {
    pub chain: u64,
    pub address: Address,
    pub id: Option<DexId>,
    pub fees: Option<V2Fees>,
}

pub struct PartialV3Dex {
    pub chain: u64,
    pub address: Address,
    pub id: Option<DexId>,
    pub fees: Option<V3Fees>,
}

pub struct PartialV4Dex {
    pub chain: u64,
    pub state_view: Address,
    pub id: Option<DexId>,
}

pub enum AnyPartialPool {
    V2(PartialV2Pool),
    V3(PartialV3Pool),
    V4(PartialV4Pool),
}

/// A quoting caller's appraisal of a pool, stamped with when it was made
/// (seconds since the epoch).
pub struct PoolEvaluation {
    timestamp: u64,
    idk: u128,
}

/// Everything the process knows statically, decomposed from configuration.
pub struct Cortex {
    pub tokens: Vec<AnyTokenShape>,
    pub v2_pools: Vec<PartialV2Pool>,
    pub v3_pools: Vec<PartialV3Pool>,
    pub v4_pools: Vec<PartialV4Pool>,
    pub v2_dexes: Vec<PartialV2Dex>,
    pub v3_dexes: Vec<PartialV3Dex>,
    pub v4_dexes: Vec<PartialV4Dex>,
    pub http_providers_urls: Vec<(u64, Vec<String>)>,
    pub ws_providers_urls: Vec<(u64, Vec<String>)>,
}

} // verus!
