//! Exchange deployments and their fee schedules.
use vstd::prelude::*;

verus! {

use crate::id_address::Address;

pub enum AnyDexShape {
    V2(FullV2Dex),
    V3(FullV3Dex),
    V4(FullV4Dex),
}

/// Constant-product fee schedule: one rate for volatile pairs and an
/// optional one for stable pairs, in hundredths of a basis point.
pub struct V2Fees {
    pub crypto: u32,
    pub stable: Option<u32>,
}

/// Concentrated-liquidity fee tiers, in hundredths of a basis point.
pub struct V3Fees {
    pub tiers: Vec<u32>,
}

#[derive(Clone, Copy, Debug, Eq, PartialEq, Hash, Structural)]
pub enum DexId {
    Uniswap,
    Sushiswap,
    Pancake,
    Curve,
    Balancer,
    Unknown,
}

pub struct FullV2Dex {
    pub chain: u64,
    pub address: Address,
    pub id: DexId,
    pub fees: V2Fees,
}

pub struct FullV3Dex {
    pub chain: u64,
    pub address: Address,
    pub id: DexId,
    pub fees: V3Fees,
}

pub struct FullV4Dex {
    pub chain: u64,
    pub address: Address,
    pub id: DexId,
}

} // verus!
