use synapse::ticks::{Tick, Ticks};

fn tk(t: i32, net: Option<i128>) -> Tick {
    Tick { tick: t, liquidity_net: net }
}

#[test]
fn construction_sorts_and_deduplicates_last_wins() {
    let ts = Ticks::new(vec![
        tk(30, Some(3)),
        tk(10, Some(1)),
        tk(20, Some(2)),
        tk(10, Some(7)),
    ]);
    assert_eq!(ts.len(), 3);
    assert_eq!(*ts.get(0).unwrap(), tk(10, Some(7)));
    assert_eq!(*ts.get(1).unwrap(), tk(20, Some(2)));
    assert_eq!(*ts.get(2).unwrap(), tk(30, Some(3)));
}

#[test]
fn merge_insert_keeps_order_and_uniqueness_incoming_wins() {
    let mut ts = Ticks::new(vec![tk(0, Some(5)), tk(60, Some(6)), tk(120, Some(7))]);
    ts.insert_ticks(vec![tk(60, Some(66)), tk(-60, Some(4)), tk(180, Some(8))]);
    assert_eq!(ts.len(), 5);
    assert_eq!(*ts.get(0).unwrap(), tk(-60, Some(4)));
    assert_eq!(*ts.get(1).unwrap(), tk(0, Some(5)));
    assert_eq!(*ts.get(2).unwrap(), tk(60, Some(66)));
    assert_eq!(*ts.get(3).unwrap(), tk(120, Some(7)));
    assert_eq!(*ts.get(4).unwrap(), tk(180, Some(8)));
}

#[test]
fn merge_insert_with_empty_batch_changes_nothing() {
    let mut ts = Ticks::new(vec![tk(0, None), tk(60, Some(1))]);
    ts.insert_ticks(vec![]);
    assert_eq!(ts.len(), 2);
    assert_eq!(*ts.get(0).unwrap(), tk(0, None));
}

#[test]
fn binary_search_finds_position_or_insertion_point() {
    let ts = Ticks::new(vec![tk(-60, None), tk(0, None), tk(60, None)]);
    assert_eq!(ts.get_tick_index(0), Ok(1));
    assert_eq!(ts.get_tick_index(-60), Ok(0));
    assert_eq!(ts.get_tick_index(60), Ok(2));
    assert_eq!(ts.get_tick_index(-100), Err(0));
    assert_eq!(ts.get_tick_index(30), Err(2));
    assert_eq!(ts.get_tick_index(100), Err(3));
}

#[test]
fn lookup_returns_the_stored_entry() {
    let ts = Ticks::new(vec![tk(-60, Some(-5)), tk(0, Some(9))]);
    assert_eq!(ts.get_tick(0), Ok(tk(0, Some(9))));
    assert_eq!(ts.get_tick(1), Err(2));
    assert!(ts.get(5).is_none());
}
