use synapse::tick_math::{price_from_tick, tick_from_price, MAX_TICK};
use synapse::u256::U256;

#[test]
fn unit_tick_price_is_2_pow_96() {
    let p = price_from_tick(0).unwrap();
    assert!(p.eq_u(&U256::pow2_value(96)));
    // the unit price written out
    let expected = U256::from_limbs(vec![0, 0x1_0000_0000u64, 0, 0]);
    assert!(p.eq_u(&expected));
}

#[test]
fn round_trip_through_price_returns_the_tick() {
    for t in [0i32, 1, -1, 7, 100, -100, 12345, -499999, -887272, 443636, -443636] {
        let p = price_from_tick(t).unwrap();
        assert_eq!(tick_from_price(p), Some(t), "tick {}", t);
    }
}

#[test]
fn price_is_strictly_increasing_in_the_tick() {
    for t in [-887272i32, -100, -1, 0, 1, 99, 12344, 443635, 887270] {
        let a = price_from_tick(t).unwrap();
        let b = price_from_tick(t + 1).unwrap();
        assert!(a.lt(&b), "tick {}", t);
    }
}

#[test]
fn out_of_range_ticks_have_no_price() {
    assert!(price_from_tick(MAX_TICK + 1).is_none());
    assert!(price_from_tick(-MAX_TICK - 1).is_none());
    assert!(price_from_tick(MAX_TICK).is_some());
    assert!(price_from_tick(-MAX_TICK).is_some());
}

#[test]
fn out_of_bounds_prices_have_no_tick() {
    let too_small = U256::from_u128(4295128738);
    assert!(tick_from_price(too_small).is_none());
    let smallest = U256::from_u128(4295128739);
    assert_eq!(tick_from_price(smallest), Some(-887272));
    // the top tick's price is itself outside the accepted range
    let top = price_from_tick(887272).unwrap();
    assert!(tick_from_price(top).is_none());
    assert!(tick_from_price(U256::zero()).is_none());
}

#[test]
fn a_price_inside_a_bracket_maps_to_its_own_tick() {
    // strictly between the prices of ticks 0 and 1: the high candidate's
    // price exceeds the input, so the selection settles on the low side
    let mid = U256::from_u128(79230143168812068355915474952u128);
    assert_eq!(tick_from_price(mid), Some(0));
    for t in [100i32, -100, 12345] {
        let a = price_from_tick(t).unwrap().to_u128_checked().unwrap();
        let b = price_from_tick(t + 1).unwrap().to_u128_checked().unwrap();
        let mid = U256::from_u128((a + b) / 2);
        assert_eq!(tick_from_price(mid), Some(t), "bracket of {}", t);
    }
}

#[test]
fn tick_one_price_matches_the_fixed_point_table() {
    let p = price_from_tick(1).unwrap();
    assert_eq!(p.to_u128_checked(), Some(79232123823359799118286999568u128));
    let m = price_from_tick(-1).unwrap();
    assert_eq!(m.to_u128_checked(), Some(79224201403219477170569942574u128));
}
