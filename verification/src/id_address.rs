//! Identities of pools across chains.
//!
//! A constant-product or concentrated-liquidity pool is addressed by its
//! chain id and 160-bit contract address; the singleton variant by the chain
//! id and a 256-bit pool-key hash.
use vstd::prelude::*;

verus! {

/// A 160-bit contract address, split as `hi * 2^128 + lo` with `hi < 2^32`.
#[derive(Clone, Copy, Debug, PartialEq, Eq, Hash, Structural)]
pub struct Address {
    pub hi: u32,
    pub lo: u128,
}

/// A 256-bit hash, split as `hi * 2^128 + lo`.
#[derive(Clone, Copy, Debug, PartialEq, Eq, Hash, Structural)]
pub struct B256 {
    pub hi: u128,
    pub lo: u128,
}

/// A pool identity keyed by contract address.
#[derive(Clone, Copy, Debug, PartialEq, Eq, Hash, Structural)]
pub struct IdAddress {
    pub id: u64,
    pub address: Address,
}

/// A pool identity keyed by pool-key hash.
#[derive(Clone, Copy, Debug, PartialEq, Eq, Hash, Structural)]
pub struct IdKey {
    pub id: u64,
    pub key: B256,
}

} // verus!
