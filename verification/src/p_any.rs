//! Fully resolved pools: identity, configuration and state all known.
use vstd::prelude::*;

verus! {

use crate::id_address::Address;
use crate::p_config::{V2Config, V3Config, V4Config};
use crate::p_state::{V2State, V3State};

pub enum AnyPoolShape {
    V2(FullV2Pool),
    V3(FullV3Pool),
    V4(FullV4Pool),
}

pub struct FullV2Pool {
    pub chain: u64,
    pub address: Address,
    pub config: V2Config,
    pub state: V2State,
}

pub struct FullV3Pool {
    pub chain: u64,
    pub address: Address,
    pub config: V3Config,
    pub state: V3State,
}

pub struct FullV4Pool {
    pub chain: u64,
    pub address: Address,
    pub config: V4Config,
    pub state: V3State,
}

} // verus!
