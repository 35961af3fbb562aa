use synapse::err::{MathError, TickError, TradeError};
use synapse::ticks::{Tick, Ticks};
use synapse::tick_math::price_from_tick;
use synapse::trade_math::{get_delta, retry, trade};
use synapse::u256::U256;
use synapse::v3_state::V3State;
use synapse::x96price_math::{compute_price_from0, compute_price_from1, update_liquidity};

fn tk(t: i32, net: Option<i128>) -> Tick {
    Tick { tick: t, liquidity_net: net }
}

fn unit_pool() -> V3State {
    V3State {
        tick: 0,
        ticks: Ticks::new(vec![tk(-60, Some(0)), tk(0, Some(0)), tk(60, Some(0))]),
        liquidity: U256::pow2_value(96),
        x96price: U256::pow2_value(96),
    }
}

#[test]
fn single_segment_trade_consumes_exactly_the_floor_fee() {
    let pool = unit_pool();
    let out = trade(&pool, 3000, U256::from_u128(1000), true).unwrap();
    // floor(1000 * 3000 / 1_000_000) = 3
    assert_eq!(out.fee_amount.to_u128_checked(), Some(3));
    assert!(out.remaining.is_zero());
    assert_eq!(out.amount_in.to_u128_checked(), Some(1000));
    assert!(out.from0);
    // the booked output is the delta of the actual price move: with unit
    // liquidity 2^96 the 997 remaining after the fee move the price by 997,
    // and the segment formula gives exactly that amount back
    assert_eq!(out.amount_out.to_u128_checked(), Some(997));
    assert_eq!(out.tick, 0);
}

#[test]
fn trade_in_the_other_direction_also_finishes() {
    // deep liquidity so the downward segment formula has nonzero capacity
    let pool = V3State {
        tick: -100000,
        ticks: Ticks::new(vec![tk(-100060, Some(0)), tk(-100000, Some(0)), tk(-99940, Some(0))]),
        liquidity: U256::pow2_value(120),
        x96price: price_from_tick(-100000).unwrap(),
    };
    let out = trade(&pool, 500, U256::from_u128(2000), false).unwrap();
    // floor(2000 * 500 / 1_000_000) = 1
    assert_eq!(out.fee_amount.to_u128_checked(), Some(1));
    assert!(out.remaining.is_zero());
}

#[test]
fn fee_overflow_is_a_math_error() {
    let pool = unit_pool();
    let r = trade(&pool, 3000, U256::max_value(), true);
    assert!(matches!(r, Err(TradeError::Math(MathError::A(_)))));
}

#[test]
fn current_tick_outside_the_known_set_overflows() {
    let pool = V3State {
        tick: 0,
        ticks: Ticks::new(vec![tk(120, Some(0))]),
        liquidity: U256::pow2_value(96),
        x96price: U256::pow2_value(96),
    };
    let r = trade(&pool, 3000, U256::from_u128(1000), true);
    assert!(matches!(r, Err(TradeError::Tick(TickError::Overflow(_)))));
}

#[test]
fn running_off_the_low_end_underflows() {
    let pool = V3State {
        tick: 0,
        ticks: Ticks::new(vec![tk(0, Some(0)), tk(60, Some(0))]),
        liquidity: U256::pow2_value(96),
        x96price: U256::pow2_value(96),
    };
    let r = trade(&pool, 3000, U256::from_u128(1000), false);
    assert!(matches!(r, Err(TradeError::Tick(TickError::Underflow(_)))));
}

#[test]
fn unloaded_tick_data_is_recoverable_through_retry() {
    let pool = V3State {
        tick: 0,
        ticks: Ticks::new(vec![tk(0, Some(0)), tk(60, None)]),
        liquidity: U256::pow2_value(96),
        x96price: U256::pow2_value(96),
    };
    let r = trade(&pool, 3000, U256::from_u128(1000), true);
    let snapshot = match r {
        Err(TradeError::Tick(TickError::Unavailable(ts))) => ts,
        _ => panic!("expected the unavailable-tick failure"),
    };
    let refreshed = Ticks::new(vec![tk(0, Some(0)), tk(60, Some(0))]);
    let out = retry(snapshot, &refreshed).unwrap();
    assert!(out.remaining.is_zero());
    assert_eq!(out.fee_amount.to_u128_checked(), Some(3));
}

#[test]
fn segment_capacity_matches_the_q96_formula_moving_up() {
    // L * (next - cur) / 2^96 with L = 5, prices 2^96 and 2^97
    let d = get_delta(
        true,
        &U256::from_u128(5),
        &U256::pow2_value(96),
        &U256::pow2_value(97),
    )
    .unwrap();
    assert_eq!(d.to_u128_checked(), Some(5));
    // a backwards segment has no capacity
    assert!(get_delta(true, &U256::from_u128(5), &U256::pow2_value(97), &U256::pow2_value(96))
        .is_none());
}

#[test]
fn segment_capacity_matches_the_q96_formula_moving_down() {
    // L * (cur - next) / (cur * next) * 2^96 with L = 2^96, cur = 2^80, next = 2^79
    let d = get_delta(
        false,
        &U256::pow2_value(96),
        &U256::pow2_value(80),
        &U256::pow2_value(79),
    )
    .unwrap();
    // 2^96 * 2^79 / 2^159 * 2^96 = 2^112
    assert!(d.eq_u(&U256::pow2_value(112)));
    assert!(get_delta(false, &U256::pow2_value(96), &U256::zero(), &U256::zero()).is_none());
}

#[test]
fn token1_price_update_is_a_linear_shift() {
    // next = cur + amount * 2^96 / L, with amount = 1000, L = 1000: one full unit
    let next = compute_price_from1(
        &U256::from_u128(1000),
        &U256::from_u128(1000),
        &U256::pow2_value(96),
        true,
    )
    .unwrap();
    assert!(next.eq_u(&U256::pow2_value(97)));
    // subtracting below zero fails
    assert!(compute_price_from1(
        &U256::from_u128(1000),
        &U256::from_u128(1000),
        &U256::from_u128(5),
        false
    )
    .is_none());
}

#[test]
fn token0_price_update_solves_the_reciprocal_relation() {
    // L = 2^32, cur = 2^96: L<<96 / cur = 2^32; adding 2^32 halves the price
    let next = compute_price_from0(
        &U256::pow2_value(32),
        &U256::pow2_value(32),
        &U256::pow2_value(96),
        true,
    )
    .unwrap();
    assert!(next.eq_u(&U256::pow2_value(95)));
    // a zero current price has no reciprocal
    assert!(compute_price_from0(
        &U256::from_u128(1),
        &U256::from_u128(1),
        &U256::zero(),
        true
    )
    .is_none());
}

#[test]
fn liquidity_updates_follow_the_sign_of_the_net() {
    let up = update_liquidity(U256::from_u128(100), 25).unwrap();
    assert_eq!(up.to_u128_checked(), Some(125));
    let down = update_liquidity(U256::from_u128(100), -30).unwrap();
    assert_eq!(down.to_u128_checked(), Some(70));
    assert!(update_liquidity(U256::from_u128(10), -11).is_none());
    assert!(update_liquidity(U256::max_value(), 1).is_none());
}

#[test]
fn a_two_segment_trade_crosses_the_first_tick() {
    // liquidity small enough that the first segment cannot absorb the input
    let pool = V3State {
        tick: 0,
        ticks: Ticks::new(vec![tk(-60, Some(0)), tk(0, Some(0)), tk(60, Some(0)), tk(120, Some(0))]),
        liquidity: U256::from_u128(1_000_000_000),
        x96price: U256::pow2_value(96),
    };
    let first_cap = get_delta(
        true,
        &pool.liquidity,
        &pool.x96price,
        &price_from_tick(60).unwrap(),
    )
    .unwrap()
    .to_u128_checked()
    .unwrap();
    let amount = first_cap + 1000;
    let out = trade(&pool, 0, U256::from_u128(amount), true).unwrap();
    assert!(out.remaining.is_zero());
    assert_eq!(out.amount_in.to_u128_checked(), Some(amount));
    assert!(out.tick >= 60);
}
