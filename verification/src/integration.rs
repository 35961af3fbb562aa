//! Decomposition of configuration input into the registry's shapes.
use vstd::prelude::*;

verus! {

use crate::d_any::DexId;
use crate::cortex::{PartialV2Pool, PartialV3Pool, PartialV4Pool, PartialV2Dex, PartialV3Dex,
    PartialV4Dex};

/// The exchange family a configuration name stands for; unrecognized names
/// map to `Unknown`.
pub fn dex_id_from_string(string: String) -> (r: DexId)
    ensures
        r == (if string@ == "uniswap"@ {
            DexId::Uniswap
        } else if string@ == "sushiswap"@ {
            DexId::Sushiswap
        } else if string@ == "pancake"@ {
            DexId::Pancake
        } else if string@ == "curve"@ {
            DexId::Curve
        } else if string@ == "balancer"@ {
            DexId::Balancer
        } else {
            DexId::Unknown
        }),
{
    if string == "uniswap".to_owned() {
        DexId::Uniswap
    } else if string == "sushiswap".to_owned() {
        DexId::Sushiswap
    } else if string == "pancake".to_owned() {
        DexId::Pancake
    } else if string == "curve".to_owned() {
        DexId::Curve
    } else if string == "balancer".to_owned() {
        DexId::Balancer
    } else {
        DexId::Unknown
    }
}

/// Pools of a chain's configuration, split by protocol generation.
pub struct DecomposePoolsReturn {
    pub v2_pools: Vec<PartialV2Pool>,
    pub v3_pools: Vec<PartialV3Pool>,
    pub v4_pools: Vec<PartialV4Pool>,
}

/// Exchanges of a chain's configuration, split by protocol generation.
pub struct DecomposeDexesReturn {
    pub v2_dexes: Vec<PartialV2Dex>,
    pub v3_dexes: Vec<PartialV3Dex>,
    pub v4_dexes: Vec<PartialV4Dex>,
}

} // verus!
