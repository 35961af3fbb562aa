//! The identity a pool is addressed by, per protocol generation.
use vstd::prelude::*;

verus! {

use crate::id_address::{IdAddress, B256};

#[derive(Clone, Copy, Debug, PartialEq, Eq, Structural)]
pub enum AnyPoolKey {
    V2(IdAddress),
    V3(IdAddress),
    V4(u64, B256),
}

} // verus!
