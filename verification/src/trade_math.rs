//! Trade simulation against a concentrated-liquidity pool.
//!
//! A simulation starts by charging the fee, then repeatedly locates the next
//! initialized tick in the trade direction, consumes liquidity up to it, and
//! either finishes inside the current segment or crosses the tick and
//! continues. Tick-set exhaustion and missing tick data are recoverable
//! through `retry`; arithmetic failures are fatal for the call.
use vstd::prelude::*;

verus! {

use vstd::arithmetic::power2::pow2;
use crate::u256::{U256, u256_limit};
use crate::ticks::{Tick, Ticks, has_tick, index_of_tick, insertion_point, sorted_unique};
use crate::states::{TradeState, TradeStep, TradeStateV, TradeStepV};
use crate::err::{TickError, MathError, TradeError, TradeErrorV};
use crate::v3_state::V3State;
use crate::tick_math::{price_from_tick, tick_from_price, tick_of_price, price_of_tick,
    tick_in_range};
use crate::x96price_math::{compute_price_from0, compute_price_from1, price_from0_of,
    price_from1_of};
use crate::limbs::{nat_of, mul_limbs, divrem_limbs, fits_limbs, trim_limbs, pow2_limbs,
    lemma_pow2_values};

/// The fee charged up front: `floor(amount_in * fee / 1_000_000)`.
pub open spec fn fee_amount_of(amount_in: nat, fee: nat) -> nat {
    (amount_in * fee) / 1000000
}

/// The most input the pool can take before fully crossing to `next_price`:
/// for token0 input, `L * (next - cur) / 2^96`; for token1 input,
/// `L * (cur - next) / (cur * next) * 2^96`. `None` on a backwards segment,
/// a zero or overflowing denominator, or a result beyond 256 bits.
pub open spec fn delta_of(from0: bool, l: nat, c: nat, n: nat) -> Option<nat> {
    if from0 {
        if n < c {
            None
        } else {
            let q = (l * ((n - c) as nat)) / pow2(96);
            if q < u256_limit() {
                Some(q)
            } else {
                None
            }
        }
    } else {
        if c < n {
            None
        } else if c * n >= u256_limit() {
            None
        } else if c * n == 0 {
            None
        } else {
            let q = ((l * ((c - n) as nat)) / (c * n)) * pow2(96);
            if q < u256_limit() {
                Some(q)
            } else {
                None
            }
        }
    }
}

/// The position of the next candidate tick in the trade direction, or `None`
/// when the known tick list ends before one is found.
pub open spec fn next_index_of(s: Seq<Tick>, t: int, from0: bool) -> Option<int> {
    if has_tick(s, t) {
        let i = index_of_tick(s, t);
        if from0 {
            if i + 1 >= s.len() {
                None
            } else {
                Some(i + 1)
            }
        } else {
            if i == 0 {
                None
            } else {
                Some(i - 1)
            }
        }
    } else {
        let i = insertion_point(s, t);
        if from0 {
            if i >= s.len() {
                None
            } else {
                Some(i)
            }
        } else {
            if i == 0 {
                None
            } else {
                Some(i - 1)
            }
        }
    }
}

/// Every loaded liquidity-net value can be negated without overflow.
pub open spec fn nets_valid(s: Seq<Tick>) -> bool {
    forall|i: int|
        0 <= i < s.len() ==> (#[trigger] s[i].liquidity_net matches Some(n) ==> n > i128::MIN)
}

/// Resume a trade whose tick data has been extended, from the exact state the
/// failed call handed back.
pub fn retry(trade_state: TradeState, ticks: &Ticks) -> (r: Result<TradeState, TradeError>)
    requires
        nets_valid(ticks@),
    ensures
        match r {
            Ok(out) => out@.remaining == 0 && out@.amount_in == trade_state@.amount_in
                && out@.fee_amount == trade_state@.fee_amount && out@.from0 == trade_state@.from0
                && out@.amount_out >= trade_state@.amount_out && trade_loop_spec(
                trade_state@,
                ticks@,
            ) == Ok::<TradeStateV, TradeErrorV>(out@),
            Err(e) => trade_loop_spec(trade_state@, ticks@) == Err::<TradeStateV, TradeErrorV>(
                e@,
            ),
        },
        sorted_unique(ticks@),
        one_segment_outcome(trade_state@, ticks@) matches Some(f) ==> (r matches Ok(out) && out@
            == f),
{
    trade_loop(trade_state, ticks)
}

/// The working state a simulation starts from, when setup succeeds: the fee
/// charged, the tick derived from the pool price and found in the tick set.
pub open spec fn started_state(pool: V3State, fee: u32, amount_in: nat, from0: bool) -> Option<
    TradeStateV,
> {
    if amount_in * fee >= u256_limit() {
        None
    } else if fee_amount_of(amount_in, fee as nat) > amount_in {
        None
    } else if tick_of_price(pool.x96price@) is None {
        None
    } else if !has_tick(pool.ticks@, tick_of_price(pool.x96price@)->Some_0) {
        None
    } else {
        Some(
            TradeStateV {
                fee_amount: fee_amount_of(amount_in, fee as nat),
                amount_in: amount_in,
                amount_out: 0,
                liquidity: pool.liquidity@,
                x96price: pool.x96price@,
                tick: tick_of_price(pool.x96price@)->Some_0,
                remaining: (amount_in - fee_amount_of(amount_in, fee as nat)) as nat,
                from0: from0,
                step: TradeStepV {
                    amount_possible: 0,
                    next_tick: Tick { tick: 0, liquidity_net: None },
                    next_tick_index: 0,
                    next_price: 0,
                    delta: 0,
                },
            },
        )
    }
}

/// Simulate consuming `amount_in` against the pool: charge the fee, then run
/// the stepping loop to completion.
pub fn trade(pool: &V3State, fee: u32, amount_in: U256, from0: bool) -> (r: Result<
    TradeState,
    TradeError,
>)
    requires
        fee < 0x1000000,
        nets_valid(pool.ticks@),
    ensures
        match r {
            Ok(out) => out@.remaining == 0 && out@.amount_in == amount_in@ && out@.fee_amount
                == fee_amount_of(amount_in@, fee as nat) && out@.from0 == from0,
            Err(_) => true,
        },
        ({
            match started_state(*pool, fee, amount_in@, from0) {
                Some(init) => (match r {
                    Ok(out) => trade_loop_spec(init, pool.ticks@) == Ok::<
                        TradeStateV,
                        TradeErrorV,
                    >(out@),
                    Err(e) => trade_loop_spec(init, pool.ticks@) == Err::<
                        TradeStateV,
                        TradeErrorV,
                    >(e@),
                }) && (one_segment_outcome(init, pool.ticks@) matches Some(f) ==> (
                r matches Ok(out) && out@ == f)),
                None => r is Err,
            }
        }),
{
    let ghost started = started_state(*pool, fee, amount_in@, from0);
    let trade_state = match trade_start(pool, fee, amount_in, from0) {
        Ok(ts) => ts,
        Err(e) => {
            proof {
                assert(started is None);
            }
            return Err(e);
        },
    };
    proof {
        assert(started == Some(trade_state@));
    }
    trade_loop(trade_state, &pool.ticks)
}

/// The working state a simulation is born with, before the fee is charged.
pub open spec fn start_base(pool: V3State, amount_in: nat, from0: bool) -> TradeStateV {
    TradeStateV {
        fee_amount: 0,
        amount_in: amount_in,
        amount_out: 0,
        liquidity: pool.liquidity@,
        x96price: pool.x96price@,
        tick: pool.tick as int,
        remaining: amount_in,
        from0: from0,
        step: TradeStepV {
            amount_possible: 0,
            next_tick: Tick { tick: 0, liquidity_net: None },
            next_tick_index: 0,
            next_price: 0,
            delta: 0,
        },
    }
}

/// Set up the working state: charge the fee, derive the current tick from
/// the pool price, and check that tick is in the known set.
pub fn trade_start(pool: &V3State, fee: u32, amount_in: U256, from0: bool) -> (r: Result<
    TradeState,
    TradeError,
>)
    requires
        fee < 0x1000000,
    ensures
        match r {
            Ok(ts) => amount_in@ * fee < u256_limit() && fee_amount_of(amount_in@, fee as nat)
                <= amount_in@ && tick_of_price(pool.x96price@) is Some && has_tick(
                pool.ticks@,
                tick_of_price(pool.x96price@)->Some_0,
            ) && ts@ == (TradeStateV {
                fee_amount: fee_amount_of(amount_in@, fee as nat),
                amount_in: amount_in@,
                amount_out: 0,
                liquidity: pool.liquidity@,
                x96price: pool.x96price@,
                tick: tick_of_price(pool.x96price@)->Some_0,
                remaining: (amount_in@ - fee_amount_of(amount_in@, fee as nat)) as nat,
                from0: from0,
                step: TradeStepV {
                    amount_possible: 0,
                    next_tick: Tick { tick: 0, liquidity_net: None },
                    next_tick_index: 0,
                    next_price: 0,
                    delta: 0,
                },
            }),
            Err(TradeError::Math(MathError::A(snap))) => ({
                let base = start_base(*pool, amount_in@, from0);
                &&& (amount_in@ * fee >= u256_limit() || fee_amount_of(amount_in@, fee as nat)
                    > amount_in@ || tick_of_price(pool.x96price@) is None)
                &&& ((amount_in@ * fee >= u256_limit() || fee_amount_of(amount_in@, fee as nat)
                    > amount_in@) ==> snap@ == base)
                &&& (amount_in@ * fee < u256_limit() && fee_amount_of(amount_in@, fee as nat)
                    <= amount_in@ ==> snap@ == (TradeStateV {
                    fee_amount: fee_amount_of(amount_in@, fee as nat),
                    remaining: (amount_in@ - fee_amount_of(amount_in@, fee as nat)) as nat,
                    ..base
                }))
            }),
            Err(TradeError::Tick(TickError::Overflow(snap))) => ({
                let base = start_base(*pool, amount_in@, from0);
                let t = tick_of_price(pool.x96price@)->Some_0;
                &&& tick_of_price(pool.x96price@) is Some
                &&& !has_tick(pool.ticks@, t)
                &&& snap@ == (TradeStateV {
                    fee_amount: fee_amount_of(amount_in@, fee as nat),
                    remaining: (amount_in@ - fee_amount_of(amount_in@, fee as nat)) as nat,
                    tick: t,
                    step: TradeStepV {
                        next_tick: Tick { tick: snap.step.next_tick.tick, liquidity_net: None },
                        ..base.step
                    },
                    ..base
                })
                &&& snap@.step.next_tick.tick == t
            }),
            Err(_) => false,
        },
{
    let mut trade_state = TradeState {
        fee_amount: U256::zero(),
        remaining: amount_in.clone(),
        amount_out: U256::zero(),
        x96price: pool.x96price.clone(),
        liquidity: pool.liquidity.clone(),
        amount_in: amount_in.clone(),
        tick: pool.tick,
        from0,
        step: TradeStep::start_value(),
    };
    let fee_u = U256::from_u128(fee as u128);
    let scaled = match amount_in.checked_mul(&fee_u) {
        Some(v) => v,
        None => {
            return Err(TradeError::Math(MathError::A(trade_state)));
        },
    };
    let million = U256::from_u128(1000000);
    let fee_amount = match scaled.checked_div(&million) {
        Some(v) => v,
        None => {
            proof {
                assert(false);
            }
            return Err(TradeError::Math(MathError::A(trade_state)));
        },
    };
    let remaining = match amount_in.checked_sub(&fee_amount) {
        Some(v) => v,
        None => {
            return Err(TradeError::Math(MathError::A(trade_state)));
        },
    };
    trade_state.remaining = remaining;
    trade_state.fee_amount = fee_amount;
    let tick = match tick_from_price(pool.x96price.clone()) {
        Some(t) => t,
        None => {
            return Err(TradeError::Math(MathError::A(trade_state)));
        },
    };
    trade_state.tick = tick;
    match pool.ticks.get_tick(tick) {
        Ok(_) => Ok(trade_state),
        Err(_) => {
            trade_state.step.next_tick.tick = trade_state.tick;
            Err(TradeError::Tick(TickError::Overflow(trade_state)))
        },
    }
}

/// Locate the next candidate tick in the trade direction, its price, and the
/// most input the current segment can take.
pub fn step_start(trade_state: &mut TradeState, ticks: &Ticks) -> (r: Result<(), TradeError>)
    ensures
        sorted_unique(ticks@),
        match r {
            Ok(()) => ({
                let idx = next_index_of(ticks@, old(trade_state)@.tick, old(trade_state)@.from0);
                &&& idx is Some
                &&& 0 <= idx->Some_0 < ticks@.len()
                &&& ({
                    let ntk = ticks@[idx->Some_0];
                    &&& ntk.liquidity_net is Some
                    &&& tick_in_range(ntk.tick as int)
                    &&& delta_of(
                        old(trade_state)@.from0,
                        old(trade_state)@.liquidity,
                        old(trade_state)@.x96price,
                        price_of_tick(ntk.tick as int),
                    ) is Some
                    &&& final(trade_state)@ == (TradeStateV {
                        step: TradeStepV {
                            amount_possible: delta_of(
                                old(trade_state)@.from0,
                                old(trade_state)@.liquidity,
                                old(trade_state)@.x96price,
                                price_of_tick(ntk.tick as int),
                            )->Some_0,
                            next_tick: ntk,
                            next_tick_index: idx->Some_0,
                            next_price: price_of_tick(ntk.tick as int),
                            delta: old(trade_state)@.step.delta,
                        },
                        ..old(trade_state)@
                    })
                    &&& has_tick(ticks@, ntk.tick as int)
                    &&& (old(trade_state)@.from0 ==> ntk.tick > old(trade_state)@.tick)
                    &&& (!old(trade_state)@.from0 ==> ntk.tick < old(trade_state)@.tick)
                })
            }),
            Err(TradeError::Tick(TickError::Overflow(snap))) => old(trade_state)@.from0
                && next_index_of(ticks@, old(trade_state)@.tick, true) is None && final(trade_state)@ == old(trade_state)@ && snap@ == old(trade_state)@,
            Err(TradeError::Tick(TickError::Underflow(snap))) => !old(trade_state)@.from0
                && next_index_of(ticks@, old(trade_state)@.tick, false) is None && final(trade_state)@ == old(trade_state)@ && snap@ == old(trade_state)@,
            Err(TradeError::Tick(TickError::Unavailable(snap))) => ({
                let idx = next_index_of(ticks@, old(trade_state)@.tick, old(trade_state)@.from0);
                &&& idx is Some
                &&& ticks@[idx->Some_0].liquidity_net is None
                &&& final(trade_state)@ == (TradeStateV {
                    step: TradeStepV {
                        next_tick_index: idx->Some_0,
                        next_tick: ticks@[idx->Some_0],
                        ..old(trade_state)@.step
                    },
                    ..old(trade_state)@
                })
                &&& snap@ == final(trade_state)@
            }),
            Err(TradeError::Math(MathError::A(snap))) => ({
                let idx = next_index_of(ticks@, old(trade_state)@.tick, old(trade_state)@.from0);
                let stepped = TradeStateV {
                    step: TradeStepV {
                        next_tick_index: idx->Some_0,
                        next_tick: ticks@[idx->Some_0],
                        ..old(trade_state)@.step
                    },
                    ..old(trade_state)@
                };
                &&& idx is Some
                &&& ticks@[idx->Some_0].liquidity_net is Some
                &&& (!tick_in_range(ticks@[idx->Some_0].tick as int) || delta_of(
                    old(trade_state)@.from0,
                    old(trade_state)@.liquidity,
                    old(trade_state)@.x96price,
                    price_of_tick(ticks@[idx->Some_0].tick as int),
                ) is None)
                &&& (!tick_in_range(ticks@[idx->Some_0].tick as int) ==> final(trade_state)@
                    == stepped && snap@ == stepped)
                &&& (tick_in_range(ticks@[idx->Some_0].tick as int) ==> final(trade_state)@ == (
                TradeStateV {
                    step: TradeStepV {
                        next_price: price_of_tick(ticks@[idx->Some_0].tick as int),
                        ..stepped.step
                    },
                    ..stepped
                }) && snap@ == final(trade_state)@)
            }),
            Err(_) => false,
        },
{
    let n = ticks.len();
    let idx = match ticks.get_tick_index(trade_state.tick) {
        Ok(i) => {
            if trade_state.from0 {
                if i + 1 >= n {
                    return Err(TradeError::Tick(TickError::Overflow(trade_state.clone())));
                }
                i + 1
            } else {
                if i == 0 {
                    return Err(TradeError::Tick(TickError::Underflow(trade_state.clone())));
                }
                i - 1
            }
        },
        Err(i) => {
            if trade_state.from0 {
                if i >= n {
                    return Err(TradeError::Tick(TickError::Overflow(trade_state.clone())));
                }
                i
            } else {
                if i == 0 {
                    return Err(TradeError::Tick(TickError::Underflow(trade_state.clone())));
                }
                i - 1
            }
        },
    };
    trade_state.step.next_tick_index = idx;
    let ntk = match ticks.get(idx) {
        Some(t) => *t,
        None => {
            proof {
                assert(false);
            }
            return Err(TradeError::Tick(TickError::Overflow(trade_state.clone())));
        },
    };
    trade_state.step.next_tick = ntk;
    if ntk.liquidity_net.is_none() {
        return Err(TradeError::Tick(TickError::Unavailable(trade_state.clone())));
    }
    let next_price = match price_from_tick(ntk.tick) {
        Some(p) => p,
        None => {
            return Err(TradeError::Math(MathError::A(trade_state.clone())));
        },
    };
    trade_state.step.next_price = next_price;
    let possible = match get_delta(
        trade_state.from0,
        &trade_state.liquidity,
        &trade_state.x96price,
        &trade_state.step.next_price,
    ) {
        Some(d) => d,
        None => {
            return Err(TradeError::Math(MathError::A(trade_state.clone())));
        },
    };
    trade_state.step.amount_possible = possible;
    Ok(())
}

/// The most input the current segment can take before fully crossing to
/// `next_price`, computed in widened precision and narrowed with an explicit
/// check.
pub fn get_delta(from0: bool, liquidity: &U256, current_price: &U256, next_price: &U256) -> (r:
    Option<U256>)
    ensures
        match r {
            Some(v) => delta_of(from0, liquidity@, current_price@, next_price@) == Some(v@),
            None => delta_of(from0, liquidity@, current_price@, next_price@) is None,
        },
{
    let l4 = liquidity.to_limbs();
    if from0 {
        let diff = match next_price.checked_sub(current_price) {
            Some(d) => d,
            None => {
                return None;
            },
        };
        let d4 = diff.to_limbs();
        let num = mul_limbs(&l4, &d4);
        let p96 = pow2_limbs(96);
        proof {
            lemma_pow2_values();
            vstd::arithmetic::power2::lemma_pow2_pos(96);
        }
        let (q, rem) = divrem_limbs(&num, &p96);
        proof {
            vstd::arithmetic::div_mod::lemma_fundamental_div_mod_converse(
                nat_of(num@) as int,
                pow2(96) as int,
                nat_of(q@) as int,
                nat_of(rem@) as int,
            );
        }
        if fits_limbs(&q, 4) {
            Some(U256::from_limbs(trim_limbs(&q, 4)))
        } else {
            None
        }
    } else {
        let diff = match current_price.checked_sub(next_price) {
            Some(d) => d,
            None => {
                return None;
            },
        };
        let den = match current_price.checked_mul(next_price) {
            Some(d) => d,
            None => {
                return None;
            },
        };
        if den.is_zero() {
            return None;
        }
        let d4 = diff.to_limbs();
        let num = mul_limbs(&l4, &d4);
        let den4 = den.to_limbs();
        let (q, rem) = divrem_limbs(&num, &den4);
        proof {
            vstd::arithmetic::div_mod::lemma_fundamental_div_mod_converse(
                nat_of(num@) as int,
                den@ as int,
                nat_of(q@) as int,
                nat_of(rem@) as int,
            );
        }
        let p96 = pow2_limbs(96);
        let wide = mul_limbs(&q, &p96);
        if fits_limbs(&wide, 4) {
            Some(U256::from_limbs(trim_limbs(&wide, 4)))
        } else {
            None
        }
    }
}

/// Book the fully crossed segment: add its output, apply the crossed tick's
/// liquidity net in the crossing direction, move to the candidate tick, and
/// consume the segment's input.
pub fn update_state_for_next_step(trade_state: &mut TradeState) -> (r: Result<(), TradeError>)
    requires
        old(trade_state)@.step.next_tick.liquidity_net matches Some(n) ==> n > i128::MIN,
    ensures
        match r {
            Ok(()) => ({
                let t0 = old(trade_state)@;
                let out2 = t0.amount_out + t0.step.delta;
                let liq2 = crossed_liquidity_of(t0);
                &&& out2 < u256_limit()
                &&& t0.remaining >= t0.step.amount_possible
                &&& final(trade_state)@ == (TradeStateV {
                    amount_out: out2 as nat,
                    liquidity: liq2,
                    tick: t0.step.next_tick.tick as int,
                    x96price: t0.step.next_price,
                    remaining: (t0.remaining - t0.step.amount_possible) as nat,
                    ..t0
                })
            }),
            Err(TradeError::Math(MathError::A(snap))) => ({
                let t0 = old(trade_state)@;
                &&& (t0.amount_out + t0.step.delta >= u256_limit() || t0.remaining
                    < t0.step.amount_possible)
                &&& (t0.amount_out + t0.step.delta >= u256_limit() ==> final(trade_state)@ == t0
                    && snap@ == t0)
                &&& (t0.amount_out + t0.step.delta < u256_limit() ==> final(trade_state)@ == (
                TradeStateV {
                    amount_out: (t0.amount_out + t0.step.delta) as nat,
                    liquidity: crossed_liquidity_of(t0),
                    tick: t0.step.next_tick.tick as int,
                    x96price: t0.step.next_price,
                    ..t0
                }) && snap@ == final(trade_state)@)
            }),
            Err(_) => false,
        },
{
    let out2 = match trade_state.amount_out.checked_add(&trade_state.step.delta) {
        Some(v) => v,
        None => {
            return Err(TradeError::Math(MathError::A(trade_state.clone())));
        },
    };
    trade_state.amount_out = out2;
    match trade_state.step.next_tick.liquidity_net {
        Some(net) => {
            let newliq = if trade_state.from0 {
                if net > 0 {
                    trade_state.liquidity.saturating_add(&U256::from_u128(net as u128))
                } else {
                    trade_state.liquidity.saturating_sub(&U256::from_u128((-net) as u128))
                }
            } else {
                if net < 0 {
                    trade_state.liquidity.saturating_add(&U256::from_u128((-net) as u128))
                } else {
                    trade_state.liquidity.saturating_sub(&U256::from_u128(net as u128))
                }
            };
            trade_state.liquidity = newliq;
        },
        None => {},
    }
    trade_state.tick = trade_state.step.next_tick.tick;
    trade_state.x96price = trade_state.step.next_price.clone();
    let rem2 = match trade_state.remaining.checked_sub(&trade_state.step.amount_possible) {
        Some(v) => v,
        None => {
            return Err(TradeError::Math(MathError::A(trade_state.clone())));
        },
    };
    trade_state.remaining = rem2;
    Ok(())
}

/// The in-range liquidity after crossing the candidate tick: its signed net
/// is applied as-is when moving up and with the opposite sign when moving
/// down, saturating at the range ends.
pub open spec fn crossed_liquidity_of(t0: TradeStateV) -> nat {
    match t0.step.next_tick.liquidity_net {
        Some(net) => {
            let up = if t0.from0 {
                net > 0
            } else {
                net < 0
            };
            let mag = if net >= 0 {
                net as nat
            } else {
                (-net) as nat
            };
            if up {
                if t0.liquidity + mag < u256_limit() {
                    (t0.liquidity + mag) as nat
                } else {
                    (u256_limit() - 1) as nat
                }
            } else {
                if t0.liquidity >= mag {
                    (t0.liquidity - mag) as nat
                } else {
                    0
                }
            }
        },
        None => t0.liquidity,
    }
}

/// Finish inside the current segment: solve the exact new price for the
/// remaining input, book the output of the move from the old price to that
/// solved price, and end the trade.
pub fn handle_non_crossing_step(trade_state: &mut TradeState) -> (r: Result<(), TradeError>)
    ensures
        match r {
            Ok(()) => ({
                let t0 = old(trade_state)@;
                let np = if t0.from0 {
                    price_from0_of(t0.remaining, t0.liquidity, t0.x96price, true)
                } else {
                    price_from1_of(t0.remaining, t0.liquidity, t0.x96price, true)
                };
                let d2 = delta_of(t0.from0, t0.liquidity, np->Some_0, t0.x96price)->Some_0;
                &&& np is Some
                &&& delta_of(t0.from0, t0.liquidity, np->Some_0, t0.x96price) is Some
                &&& t0.amount_out + d2 < u256_limit()
                &&& final(trade_state)@ == (TradeStateV {
                    amount_out: (t0.amount_out + d2) as nat,
                    remaining: 0,
                    x96price: np->Some_0,
                    step: TradeStepV { delta: d2, ..t0.step },
                    ..t0
                })
            }),
            Err(TradeError::Math(MathError::A(snap))) => ({
                let t0 = old(trade_state)@;
                let np = if t0.from0 {
                    price_from0_of(t0.remaining, t0.liquidity, t0.x96price, true)
                } else {
                    price_from1_of(t0.remaining, t0.liquidity, t0.x96price, true)
                };
                let d2o = if np is Some {
                    delta_of(t0.from0, t0.liquidity, np->Some_0, t0.x96price)
                } else {
                    None
                };
                &&& (np is None || d2o is None || t0.amount_out + d2o->Some_0 >= u256_limit())
                &&& ((np is None || d2o is None) ==> final(trade_state)@ == t0 && snap@ == t0)
                &&& (np is Some && d2o is Some ==> final(trade_state)@ == (TradeStateV {
                    step: TradeStepV { delta: d2o->Some_0, ..t0.step },
                    ..t0
                }) && snap@ == final(trade_state)@)
            }),
            Err(_) => false,
        },
{
    let new_price = if trade_state.from0 {
        match compute_price_from0(
            &trade_state.remaining,
            &trade_state.liquidity,
            &trade_state.x96price,
            true,
        ) {
            Some(p) => p,
            None => {
                return Err(TradeError::Math(MathError::A(trade_state.clone())));
            },
        }
    } else {
        match compute_price_from1(
            &trade_state.remaining,
            &trade_state.liquidity,
            &trade_state.x96price,
            true,
        ) {
            Some(p) => p,
            None => {
                return Err(TradeError::Math(MathError::A(trade_state.clone())));
            },
        }
    };
    let delta = match get_delta(
        trade_state.from0,
        &trade_state.liquidity,
        &new_price,
        &trade_state.x96price,
    ) {
        Some(d) => d,
        None => {
            return Err(TradeError::Math(MathError::A(trade_state.clone())));
        },
    };
    trade_state.step.delta = delta;
    let out2 = match trade_state.amount_out.checked_add(&trade_state.step.delta) {
        Some(v) => v,
        None => {
            return Err(TradeError::Math(MathError::A(trade_state.clone())));
        },
    };
    trade_state.amount_out = out2;
    trade_state.remaining = U256::zero();
    trade_state.x96price = new_price;
    Ok(())
}

/// The outcome of a trade that never leaves its first segment: when the
/// remaining input is below the first candidate segment's capacity and every
/// step of finishing inside it succeeds, the whole simulation is that single
/// non-crossing step.
pub open spec fn one_segment_outcome(init: TradeStateV, ticks: Seq<Tick>) -> Option<TradeStateV> {
    if init.remaining == 0 {
        None
    } else {
        match next_index_of(ticks, init.tick, init.from0) {
            None => None,
            Some(idx) => {
                if !(0 <= idx < ticks.len()) {
                    None
                } else {
                    let ntk = ticks[idx];
                    if ntk.liquidity_net is None || !tick_in_range(ntk.tick as int) {
                        None
                    } else {
                        let np = price_of_tick(ntk.tick as int);
                        match delta_of(init.from0, init.liquidity, init.x96price, np) {
                            None => None,
                            Some(d) => {
                                if init.remaining >= d {
                                    None
                                } else {
                                    let fin = if init.from0 {
                                        price_from0_of(
                                            init.remaining,
                                            init.liquidity,
                                            init.x96price,
                                            true,
                                        )
                                    } else {
                                        price_from1_of(
                                            init.remaining,
                                            init.liquidity,
                                            init.x96price,
                                            true,
                                        )
                                    };
                                    if fin is None {
                                        None
                                    } else {
                                        match delta_of(
                                            init.from0,
                                            init.liquidity,
                                            fin->Some_0,
                                            init.x96price,
                                        ) {
                                            None => None,
                                            Some(d2) => {
                                                if init.amount_out + d2 >= u256_limit() {
                                                    None
                                                } else {
                                                    Some(
                                                        TradeStateV {
                                                            amount_out: (init.amount_out
                                                                + d2) as nat,
                                                            remaining: 0,
                                                            x96price: fin->Some_0,
                                                            step: TradeStepV {
                                                                amount_possible: d,
                                                                next_tick: ntk,
                                                                next_tick_index: idx,
                                                                next_price: np,
                                                                delta: d2,
                                                            },
                                                            ..init
                                                        },
                                                    )
                                                }
                                            },
                                        }
                                    }
                                }
                            },
                        }
                    }
                }
            },
        }
    }
}

/// The working state after the candidate tick, its price, and the segment
/// capacity are recorded.
pub open spec fn stepped_state(ts: TradeStateV, ntk: Tick, idx: int, np: nat, d: nat) -> TradeStateV {
    TradeStateV {
        step: TradeStepV {
            amount_possible: d,
            next_tick: ntk,
            next_tick_index: idx,
            next_price: np,
            delta: ts.step.delta,
        },
        ..ts
    }
}

/// The working state after a fully crossed segment is booked.
pub open spec fn crossed_state(ts4: TradeStateV) -> TradeStateV {
    TradeStateV {
        amount_out: (ts4.amount_out + ts4.step.delta) as nat,
        liquidity: crossed_liquidity_of(ts4),
        tick: ts4.step.next_tick.tick as int,
        x96price: ts4.step.next_price,
        remaining: (ts4.remaining - ts4.step.amount_possible) as nat,
        ..ts4
    }
}

/// The whole stepping loop as a function of the starting state and the tick
/// list: consume segments in the trade direction until the remaining input
/// is gone, finishing inside the last segment, or fail exactly as the
/// stepping functions do. Defined over sorted tick lists and in-range ticks,
/// which every `Ticks` value and every working state supplies.
pub open spec fn trade_loop_spec(ts: TradeStateV, ticks: Seq<Tick>) -> Result<
    TradeStateV,
    TradeErrorV,
>
    decreases (if ts.from0 {
        0x100000000int - ts.tick
    } else {
        0x100000000int + ts.tick
    })
        when sorted_unique(ticks) && -0x80000000 <= ts.tick <= 0x7fffffff
        via trade_loop_spec_decreases
{
    if ts.remaining == 0 {
        Ok(ts)
    } else {
        match next_index_of(ticks, ts.tick, ts.from0) {
            None => if ts.from0 {
                Err(TradeErrorV::Overflow(ts))
            } else {
                Err(TradeErrorV::Underflow(ts))
            },
            Some(idx) => {
                let ntk = ticks[idx];
                let ts1 = TradeStateV {
                    step: TradeStepV { next_tick_index: idx, next_tick: ntk, ..ts.step },
                    ..ts
                };
                if ntk.liquidity_net is None {
                    Err(TradeErrorV::Unavailable(ts1))
                } else if !tick_in_range(ntk.tick as int) {
                    Err(TradeErrorV::Math(ts1))
                } else {
                    let np = price_of_tick(ntk.tick as int);
                    let ts2 = TradeStateV {
                        step: TradeStepV { next_price: np, ..ts1.step },
                        ..ts1
                    };
                    match delta_of(ts.from0, ts.liquidity, ts.x96price, np) {
                        None => Err(TradeErrorV::Math(ts2)),
                        Some(d) => {
                            let ts3 = stepped_state(ts, ntk, idx, np, d);
                            if ts.remaining < d {
                                let fin = if ts.from0 {
                                    price_from0_of(ts.remaining, ts.liquidity, ts.x96price, true)
                                } else {
                                    price_from1_of(ts.remaining, ts.liquidity, ts.x96price, true)
                                };
                                if fin is None {
                                    Err(TradeErrorV::Math(ts3))
                                } else {
                                    match delta_of(
                                        ts.from0,
                                        ts.liquidity,
                                        fin->Some_0,
                                        ts.x96price,
                                    ) {
                                        None => Err(TradeErrorV::Math(ts3)),
                                        Some(d2) => {
                                            if ts.amount_out + d2 >= u256_limit() {
                                                Err(
                                                    TradeErrorV::Math(
                                                        TradeStateV {
                                                            step: TradeStepV {
                                                                delta: d2,
                                                                ..ts3.step
                                                            },
                                                            ..ts3
                                                        },
                                                    ),
                                                )
                                            } else {
                                                Ok(
                                                    TradeStateV {
                                                        amount_out: (ts.amount_out + d2) as nat,
                                                        remaining: 0,
                                                        x96price: fin->Some_0,
                                                        step: TradeStepV {
                                                            delta: d2,
                                                            ..ts3.step
                                                        },
                                                        ..ts3
                                                    },
                                                )
                                            }
                                        },
                                    }
                                }
                            } else {
                                let ts4 = TradeStateV {
                                    step: TradeStepV { delta: d, ..ts3.step },
                                    ..ts3
                                };
                                if ts.amount_out + d >= u256_limit() {
                                    Err(TradeErrorV::Math(ts4))
                                } else {
                                    trade_loop_spec(crossed_state(ts4), ticks)
                                }
                            }
                        },
                    }
                }
            },
        }
    }
}

#[via_fn]
proof fn trade_loop_spec_decreases(ts: TradeStateV, ticks: Seq<Tick>) {
    if ts.remaining != 0 {
        match next_index_of(ticks, ts.tick, ts.from0) {
            None => {},
            Some(idx) => {
                if has_tick(ticks, ts.tick) {
                    let i = index_of_tick(ticks, ts.tick);
                    assert(0 <= i < ticks.len() && ticks[i].tick == ts.tick) by {
                        let w = choose|w: int| 0 <= w < ticks.len() && ticks[w].tick == ts.tick;
                    }
                    if ts.from0 {
                        assert(ticks[i].tick < ticks[idx].tick);
                    } else {
                        assert(ticks[idx].tick < ticks[i].tick);
                    }
                } else {
                    crate::ticks::lemma_insertion_point_props(ticks, ts.tick);
                }
            },
        }
    }
}

/// Step until the remaining input is consumed, a segment finishes the trade,
/// or a failure ends it. The tick index strictly advances in the trade
/// direction on every full crossing, so the loop terminates.
pub fn trade_loop(trade_state: TradeState, ticks: &Ticks) -> (r: Result<TradeState, TradeError>)
    requires
        nets_valid(ticks@),
    ensures
        match r {
            Ok(out) => out@.remaining == 0 && out@.amount_in == trade_state@.amount_in
                && out@.fee_amount == trade_state@.fee_amount && out@.from0 == trade_state@.from0
                && out@.amount_out >= trade_state@.amount_out && trade_loop_spec(
                trade_state@,
                ticks@,
            ) == Ok::<TradeStateV, TradeErrorV>(out@),
            Err(e) => trade_loop_spec(trade_state@, ticks@) == Err::<TradeStateV, TradeErrorV>(
                e@,
            ),
        },
        sorted_unique(ticks@),
        one_segment_outcome(trade_state@, ticks@) matches Some(f) ==> (r matches Ok(out) && out@
            == f),
{
    let _len: usize = ticks.len();
    let mut ts = trade_state;
    let ghost init = ts@;
    while !ts.remaining.is_zero()
        invariant_except_break
            nets_valid(ticks@),
            sorted_unique(ticks@),
            init == trade_state@,
            ts@.amount_in == init.amount_in,
            ts@.fee_amount == init.fee_amount,
            ts@.from0 == init.from0,
            ts@.amount_out >= init.amount_out,
            ts@ == init || one_segment_outcome(init, ticks@) is None,
            trade_loop_spec(ts@, ticks@) == trade_loop_spec(init, ticks@),
        ensures
            init == trade_state@,
            sorted_unique(ticks@),
            ts@.remaining == 0,
            ts@.amount_in == init.amount_in,
            ts@.fee_amount == init.fee_amount,
            ts@.from0 == init.from0,
            ts@.amount_out >= init.amount_out,
            one_segment_outcome(init, ticks@) matches Some(f) ==> ts@ == f,
            trade_loop_spec(init, ticks@) == Ok::<TradeStateV, TradeErrorV>(ts@),
        decreases (if ts.from0 {
            0x80000000i64 + i32::MAX as i64 - ts.tick as i64
        } else {
            0x80000000i64 + ts.tick as i64 - i32::MIN as i64
        }),
    {
        let ghost pre = ts@;
        match step_start(&mut ts, ticks) {
            Ok(()) => {},
            Err(e) => {
                proof {
                    if pre == init {
                        assert(one_segment_outcome(init, ticks@) is None);
                    }
                    assert(trade_loop_spec(pre, ticks@) == Err::<TradeStateV, TradeErrorV>(e@));
                }
                return Err(e);
            },
        }
        if ts.remaining.lt(&ts.step.amount_possible) {
            let ghost stepped = ts@;
            match handle_non_crossing_step(&mut ts) {
                Ok(()) => {},
                Err(e) => {
                    proof {
                        if pre == init {
                            assert(one_segment_outcome(init, ticks@) is None);
                        }
                        assert(trade_loop_spec(pre, ticks@) == Err::<TradeStateV, TradeErrorV>(
                            e@,
                        ));
                    }
                    return Err(e);
                },
            }
            proof {
                if pre == init && one_segment_outcome(init, ticks@) is Some {
                    assert(ts@ == one_segment_outcome(init, ticks@)->Some_0);
                }
                assert(trade_loop_spec(pre, ticks@) == Ok::<TradeStateV, TradeErrorV>(ts@));
            }
            break ;
        }
        match get_delta(ts.from0, &ts.liquidity, &ts.x96price, &ts.step.next_price) {
            Some(d) => {
                ts.step.delta = d;
            },
            None => {
                proof {
                    assert(false);
                }
                return Err(TradeError::Math(MathError::A(ts)));
            },
        }
        let ghost crossing = ts@;
        proof {
            if pre == init {
                assert(one_segment_outcome(init, ticks@) is None);
            }
        }
        proof {
            let i = ts@.step.next_tick_index;
            assert(0 <= i < ticks@.len());
            assert(ticks@[i] == ts@.step.next_tick);
        }
        match update_state_for_next_step(&mut ts) {
            Ok(()) => {},
            Err(e) => {
                proof {
                    assert(trade_loop_spec(pre, ticks@) == Err::<TradeStateV, TradeErrorV>(e@));
                }
                return Err(e);
            },
        }
        proof {
            assert(ts@ == crossed_state(crossing));
            assert(trade_loop_spec(pre, ticks@) == trade_loop_spec(ts@, ticks@));
        }
    }
    Ok(ts)
}

} // verus!
