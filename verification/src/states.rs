//! Working state of one trade simulation.
use vstd::prelude::*;

verus! {

use crate::u256::U256;
use crate::ticks::Tick;
use crate::id_address::Address;

/// Ghost image of a `TradeStep`.
pub ghost struct TradeStepV {
    pub amount_possible: nat,
    pub next_tick: Tick,
    pub next_tick_index: int,
    pub next_price: nat,
    pub delta: nat,
}

/// Ghost image of a `TradeState`.
pub ghost struct TradeStateV {
    pub fee_amount: nat,
    pub amount_in: nat,
    pub amount_out: nat,
    pub liquidity: nat,
    pub x96price: nat,
    pub tick: int,
    pub remaining: nat,
    pub from0: bool,
    pub step: TradeStepV,
}

/// Scratch values for the tick currently being crossed.
#[derive(Debug)]
pub struct TradeStep {
    pub amount_possible: U256,
    pub next_tick: Tick,
    pub next_tick_index: usize,
    pub next_price: U256,
    pub delta: U256,
}

/// The full working state of a simulation call; error variants carry a
/// snapshot of it for diagnosis and resumption.
#[derive(Debug)]
pub struct TradeState {
    pub fee_amount: U256,
    pub amount_in: U256,
    pub amount_out: U256,
    pub liquidity: U256,
    pub x96price: U256,
    pub tick: i32,
    pub remaining: U256,
    pub from0: bool,
    pub step: TradeStep,
}

/// The summary of a finished trade against a known pool.
#[derive(Debug)]
pub struct TradeReceipt {
    pub fee: u32,
    pub fee_amount: U256,
    pub token0: Address,
    pub token1: Address,
    pub pool: Address,
    pub from0: bool,
    pub amount_in: U256,
    pub amount_out: U256,
}

impl View for TradeStep {
    type V = TradeStepV;

    open spec fn view(&self) -> TradeStepV {
        TradeStepV {
            amount_possible: self.amount_possible@,
            next_tick: self.next_tick,
            next_tick_index: self.next_tick_index as int,
            next_price: self.next_price@,
            delta: self.delta@,
        }
    }
}

impl View for TradeState {
    type V = TradeStateV;

    open spec fn view(&self) -> TradeStateV {
        TradeStateV {
            fee_amount: self.fee_amount@,
            amount_in: self.amount_in@,
            amount_out: self.amount_out@,
            liquidity: self.liquidity@,
            x96price: self.x96price@,
            tick: self.tick as int,
            remaining: self.remaining@,
            from0: self.from0,
            step: self.step@,
        }
    }
}

impl TradeStep {
    /// The empty scratch state a simulation starts from.
    pub fn start_value() -> (r: TradeStep)
        ensures
            r@.amount_possible == 0,
            r@.next_tick == (Tick { tick: 0, liquidity_net: None }),
            r@.next_tick_index == 0,
            r@.next_price == 0,
            r@.delta == 0,
    {
        TradeStep {
            amount_possible: U256::zero(),
            next_tick: Tick { tick: 0, liquidity_net: None },
            next_tick_index: 0,
            next_price: U256::zero(),
            delta: U256::zero(),
        }
    }
}

impl Clone for TradeStep {
    fn clone(&self) -> (r: Self)
        ensures
            r@ == self@,
    {
        TradeStep {
            amount_possible: self.amount_possible.clone(),
            next_tick: self.next_tick,
            next_tick_index: self.next_tick_index,
            next_price: self.next_price.clone(),
            delta: self.delta.clone(),
        }
    }
}

impl Clone for TradeState {
    fn clone(&self) -> (r: Self)
        ensures
            r@ == self@,
    {
        TradeState {
            fee_amount: self.fee_amount.clone(),
            amount_in: self.amount_in.clone(),
            amount_out: self.amount_out.clone(),
            liquidity: self.liquidity.clone(),
            x96price: self.x96price.clone(),
            tick: self.tick,
            remaining: self.remaining.clone(),
            from0: self.from0,
            step: self.step.clone(),
        }
    }
}

} // verus!
