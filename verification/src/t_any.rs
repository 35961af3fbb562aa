//! Token shapes known to the registry.
use vstd::prelude::*;

verus! {

use crate::id_address::Address;

pub enum AnyTokenShape {
    ECR20(u64, ECR20Shape),
}

/// A token symbol as read from configuration and as normalized.
pub struct TokenSymbol {
    pub raw: String,
    pub symbol: String,
}

pub struct IsStable(pub bool);

pub enum TokenKind {
    Native,
    Wrapped,
    Derivative,
    Stable,
    Lp,
    Unknown,
}

pub struct ECR20Shape {
    pub address: Address,
    pub symbol: TokenSymbol,
    pub kind: TokenKind,
}

} // verus!
