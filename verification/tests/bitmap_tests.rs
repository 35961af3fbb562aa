use synapse::bitmap::BitMap;
use synapse::bitmap_math::{
    extract_ticks_from_bitmap, get_pos_from_tick, next_left, next_right, normalize_tick,
    word_index,
};
use synapse::u256::U256;

#[test]
fn word_position_of_tick_120_at_spacing_60_is_zero() {
    // normalized tick = 2; 2 div 256 = 0
    assert_eq!(get_pos_from_tick(120, 60), 0);
}

#[test]
fn normalization_divides_toward_negative_infinity() {
    assert_eq!(normalize_tick(120, 60), 2);
    assert_eq!(normalize_tick(-120, 60), -2);
    assert_eq!(normalize_tick(-130, 60), -3);
    assert_eq!(normalize_tick(59, 60), 0);
    // a negative spacing is accepted too, with Euclidean semantics
    assert_eq!(normalize_tick(120, -60), -2);
    assert_eq!(normalize_tick(-130, -60), 3);
    assert_eq!(normalize_tick(i32::MIN, 2), -1073741824);
    assert_eq!(word_index(255), 0);
    assert_eq!(word_index(256), 1);
    assert_eq!(word_index(-1), -1);
    assert_eq!(word_index(-256), -1);
    assert_eq!(word_index(-257), -2);
    assert_eq!(get_pos_from_tick(-15360, 60), -1);
}

#[test]
fn set_bits_become_ascending_ticks() {
    // bits 0 and 2 set: normalized ticks 0 and 2 of word 0, spacing 60
    let word = U256::from_u128(0b101);
    let ticks = extract_ticks_from_bitmap(&word, 0, 60);
    assert_eq!(ticks, vec![0, 120]);
    let none = extract_ticks_from_bitmap(&U256::zero(), 0, 60);
    assert!(none.is_empty());
    // bit 255 of word -1 is the tick just below zero
    let top = U256::pow2_value(255);
    let ticks2 = extract_ticks_from_bitmap(&top, -1, 60);
    assert_eq!(ticks2, vec![-60]);
}

#[test]
fn neighbour_scans_stop_at_the_nearest_set_bit() {
    let word = U256::from_u128(0b100100); // bits 2 and 5
    assert_eq!(next_left(&word, &5), Some(2));
    assert_eq!(next_left(&word, &2), None);
    assert_eq!(next_right(&word, &2), Some(5));
    assert_eq!(next_right(&word, &5), None);
    // the start position is clamped into the word
    assert_eq!(next_left(&word, &-7), None);
    assert_eq!(next_right(&word, &-7), Some(2));
}

#[test]
fn a_stored_word_reads_back_under_any_spacing() {
    // spacing 2: the slot shift is 0x7fff / 2 for both store and lookup
    let bm = BitMap::new(2, vec![(0i16, U256::from_u128(7))]);
    assert_eq!(bm.get_word_from_pos(0, 2).unwrap().to_u128_checked(), Some(7));
    assert!(bm.get_word_from_pos(1, 2).is_none());
    let bm60 = BitMap::new(60, vec![(-1i16, U256::from_u128(9)), (0i16, U256::from_u128(4))]);
    assert_eq!(bm60.get_word_from_pos(-1, 60).unwrap().to_u128_checked(), Some(9));
    assert_eq!(bm60.get_word_from_pos(0, 60).unwrap().to_u128_checked(), Some(4));
}

#[test]
fn the_word_store_keeps_the_latest_word_per_position() {
    let words = vec![
        (0i16, U256::from_u128(1)),
        (1i16, U256::from_u128(2)),
        (0i16, U256::from_u128(3)),
    ];
    let mut bm = BitMap::new(1, words);
    let w0 = bm.get_word_from_pos(0, 1).unwrap();
    assert_eq!(w0.to_u128_checked(), Some(3));
    let w1 = bm.get_word_from_pos(1, 1).unwrap();
    assert_eq!(w1.to_u128_checked(), Some(2));
    assert!(bm.get_word_from_pos(2, 1).is_none());
    bm.insert(2, U256::from_u128(9), 1);
    assert_eq!(bm.get_word_from_pos(2, 1).unwrap().to_u128_checked(), Some(9));
    assert_eq!(BitMap::pos_to_idx(0, 1), 32767);
    assert_eq!(bm.get_pos_from_tick(120, 60), 0);
}
