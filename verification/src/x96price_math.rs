//! Price updates in Q96 fixed point for amounts that stay inside one tick
//! segment.
use vstd::prelude::*;

verus! {

use vstd::arithmetic::power2::pow2;
use crate::u256::{U256, u256_limit};

/// The next square-root price after `amount` of token0 is applied to
/// liquidity `liq` at price `cur`: solve the fixed-point reciprocal relation
/// `L<<96 / (L<<96 / sqrtP +- amount)`, failing on any overflow, zero
/// divisor, or underflow of the checked steps.
pub open spec fn price_from0_of(amount: nat, liq: nat, cur: nat, add: bool) -> Option<nat> {
    let q96l = liq * pow2(96);
    if q96l >= u256_limit() {
        None
    } else if cur == 0 {
        None
    } else {
        let scaled = q96l / cur;
        if add {
            if scaled + amount >= u256_limit() {
                None
            } else if scaled + amount == 0 {
                None
            } else {
                Some(q96l / (scaled + amount))
            }
        } else {
            if scaled < amount {
                None
            } else if scaled - amount == 0 {
                None
            } else {
                Some(q96l / ((scaled - amount) as nat))
            }
        }
    }
}

/// The next square-root price after `amount` of token1 is applied: a linear
/// Q96 shift of the current price by `amount<<96 / L`.
pub open spec fn price_from1_of(amount: nat, liq: nat, cur: nat, add: bool) -> Option<nat> {
    let dy = amount * pow2(96);
    if dy >= u256_limit() {
        None
    } else if liq == 0 {
        None
    } else {
        let delta = dy / liq;
        if add {
            if cur + delta >= u256_limit() {
                None
            } else {
                Some(cur + delta)
            }
        } else {
            if cur < delta {
                None
            } else {
                Some((cur - delta) as nat)
            }
        }
    }
}

/// Given an amount of token0 and liquidity, compute the next square-root
/// price by the reciprocal fixed-point relation.
pub fn compute_price_from0(amount: &U256, available_liquidity: &U256, current_sqrt_price: &U256, add: bool) -> (r:
    Option<U256>)
    ensures
        match r {
            Some(v) => price_from0_of(amount@, available_liquidity@, current_sqrt_price@, add)
                == Some(v@),
            None => price_from0_of(amount@, available_liquidity@, current_sqrt_price@, add)
                is None,
        },
{
    let q96_l = match available_liquidity.shl_checked(96) {
        Some(v) => v,
        None => {
            return None;
        },
    };
    let scaled_liquidity = match q96_l.checked_div(current_sqrt_price) {
        Some(v) => v,
        None => {
            return None;
        },
    };
    let denominator = if add {
        match scaled_liquidity.checked_add(amount) {
            Some(v) => v,
            None => {
                return None;
            },
        }
    } else {
        match scaled_liquidity.checked_sub(amount) {
            Some(v) => v,
            None => {
                return None;
            },
        }
    };
    match q96_l.checked_div(&denominator) {
        Some(v) => Some(v),
        None => None,
    }
}

/// Given an amount of token1 and liquidity, compute the next square-root
/// price by a linear Q96 shift.
pub fn compute_price_from1(amount: &U256, available_liquidity: &U256, current_sqrt_price: &U256, add: bool) -> (r:
    Option<U256>)
    ensures
        match r {
            Some(v) => price_from1_of(amount@, available_liquidity@, current_sqrt_price@, add)
                == Some(v@),
            None => price_from1_of(amount@, available_liquidity@, current_sqrt_price@, add)
                is None,
        },
{
    let dy_q96 = match amount.shl_checked(96) {
        Some(v) => v,
        None => {
            return None;
        },
    };
    let delta_sqrt = match dy_q96.checked_div(available_liquidity) {
        Some(v) => v,
        None => {
            return None;
        },
    };
    if add {
        match current_sqrt_price.checked_add(&delta_sqrt) {
            Some(v) => Some(v),
            None => None,
        }
    } else {
        match current_sqrt_price.checked_sub(&delta_sqrt) {
            Some(v) => Some(v),
            None => None,
        }
    }
}

/// Apply a signed liquidity-net value to the current in-range liquidity.
pub fn update_liquidity(current_liquidity: U256, liquidity_net: i128) -> (r: Option<U256>)
    requires
        liquidity_net > i128::MIN,
    ensures
        match r {
            Some(v) => if liquidity_net < 0 {
                current_liquidity@ >= (-liquidity_net) as nat && v@ == current_liquidity@ - (
                -liquidity_net) as nat
            } else {
                current_liquidity@ + liquidity_net < u256_limit() && v@ == current_liquidity@
                    + liquidity_net
            },
            None => if liquidity_net < 0 {
                current_liquidity@ < (-liquidity_net) as nat
            } else {
                current_liquidity@ + liquidity_net >= u256_limit()
            },
        },
{
    if liquidity_net < 0 {
        let abs_net = U256::from_u128((-liquidity_net) as u128);
        current_liquidity.checked_sub(&abs_net)
    } else {
        let pos_net = U256::from_u128(liquidity_net as u128);
        current_liquidity.checked_add(&pos_net)
    }
}

} // verus!
