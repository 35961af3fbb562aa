use synapse::id_address::{Address, B256, IdAddress, IdKey};
use synapse::master_context::MasterContext;
use synapse::p_state::{V2State, V3State};
use synapse::pool_event::{
    PoolEventTopics, UnifiedPoolEvent, UnifiedPoolEventResponse, V2SwapEvent, V3SwapEvent,
    V4SwapEvent, classify_pool_event, generate_pools_events_map,
};
use synapse::u256::U256;

fn addr(n: u128) -> Address {
    Address { hi: 0, lo: n }
}

fn v2_swap(a: Address, in0: u128, in1: u128, out0: u128, out1: u128) -> V2SwapEvent {
    V2SwapEvent {
        address: a,
        sender: addr(9),
        amount0_in: in0,
        amount1_in: in1,
        amount0_out: out0,
        amount1_out: out1,
        to: addr(10),
    }
}

fn v3_swap(a: Address, tick: i32) -> V3SwapEvent {
    V3SwapEvent {
        address: a,
        sender: addr(9),
        recipient: addr(10),
        amount0: B256 { hi: 0, lo: 0 },
        amount1: B256 { hi: 0, lo: 0 },
        sqrt_price_x96: U256::pow2_value(96),
        liquidity: 777,
        tick,
    }
}

#[test]
fn constant_product_swap_applies_signed_deltas() {
    let mut ctx = MasterContext::new();
    let a = addr(1);
    let key = IdAddress { id: 1, address: a };
    // first event creates the unresolved entry and queues it
    ctx.handle_v2_swap(&v2_swap(a, 1, 0, 0, 1), 1);
    assert_eq!(ctx.pending_v2_reserves(), vec![key]);
    // the refresh resolves the reserves and clears the queue
    ctx.resolve_v2_reserves(key, V2State { r0: 1000, r1: 1000 });
    assert!(ctx.pending_v2_reserves().is_empty());
    // the swap of record: amount0In = 100, amount1Out = 95
    ctx.handle_v2_swap(&v2_swap(a, 100, 0, 0, 95), 1);
    let entry = ctx.get_v2_pool(key).unwrap();
    assert_eq!(entry.state, Some(V2State { r0: 1100, r1: 905 }));
}

#[test]
fn unseen_constant_product_pool_is_queued_once() {
    let mut ctx = MasterContext::new();
    let a = addr(2);
    let key = IdAddress { id: 5, address: a };
    ctx.handle_v2_swap(&v2_swap(a, 1, 0, 0, 1), 5);
    ctx.handle_v2_swap(&v2_swap(a, 2, 0, 0, 2), 5);
    assert_eq!(ctx.pending_v2_reserves(), vec![key]);
    let entry = ctx.get_v2_pool(key).unwrap();
    assert!(entry.state.is_none());
    assert!(entry.config.is_none());
}

#[test]
fn fresh_concentrated_pool_is_created_and_queued_exactly_once() {
    let mut ctx = MasterContext::new();
    let a = addr(3);
    let key = IdAddress { id: 7, address: a };
    ctx.handle_v3_swap(&v3_swap(a, 42), 7);
    ctx.handle_v3_swap(&v3_swap(a, 43), 7);
    // the entry exists, carries the latest event state, and sits in the
    // config-refresh queue exactly once
    assert_eq!(ctx.pending_v3_configs(), vec![key]);
    let entry = ctx.get_v3_pool(key).unwrap();
    let st = entry.state.as_ref().unwrap();
    assert_eq!(st.tick, 43);
    assert_eq!(st.liquidity, 777);
    assert!(st.x96price.eq_u(&U256::pow2_value(96)));
}

#[test]
fn concentrated_swap_overwrites_state_in_place() {
    let mut ctx = MasterContext::new();
    let a = addr(4);
    let key = IdAddress { id: 1, address: a };
    ctx.handle_v3_swap(&v3_swap(a, 1), 1);
    ctx.handle_v3_swap(&v3_swap(a, -5), 1);
    let entry = ctx.get_v3_pool(key).unwrap();
    assert_eq!(entry.state.as_ref().unwrap().tick, -5);
}

#[test]
fn singleton_swap_for_missing_state_uses_the_not_found_queue() {
    let mut ctx = MasterContext::new();
    let id = B256 { hi: 11, lo: 22 };
    let key = IdKey { id: 3, key: id };
    let ev = V4SwapEvent {
        id,
        sender: addr(9),
        amount0: -5,
        amount1: 5,
        sqrt_price_x96: U256::pow2_value(96),
        liquidity: 1,
        tick: 0,
        fee: 500,
    };
    ctx.handle_v4_swap(&ev, 3);
    ctx.handle_v4_swap(&ev, 3);
    assert_eq!(ctx.pending_v4_not_found(), vec![key]);
    // resolving installs state and clears the queue; the next swap updates
    ctx.resolve_v4_state(key, V3State { tick: 0, x96price: U256::pow2_value(96), liquidity: 5 });
    assert!(ctx.pending_v4_not_found().is_empty());
    let ev2 = V4SwapEvent { tick: 9, ..ev };
    ctx.handle_v4_swap(&ev2, 3);
    let entry = ctx.get_v4_pool(key).unwrap();
    assert_eq!(entry.state.as_ref().unwrap().tick, 9);
}

#[test]
fn resolving_a_config_clears_the_pending_queue() {
    let mut ctx = MasterContext::new();
    let a = addr(6);
    let key = IdAddress { id: 4, address: a };
    ctx.handle_v3_swap(&v3_swap(a, 1), 4);
    assert_eq!(ctx.pending_v3_configs(), vec![key]);
    let cfg = synapse::p_config::V3Config {
        name: "pool".to_owned(),
        fee: 3000,
        tick_spacing: 60,
        token0: addr(100),
        token1: addr(101),
    };
    ctx.resolve_v3_config(key, cfg);
    assert!(ctx.pending_v3_configs().is_empty());
    let entry = ctx.get_v3_pool(key).unwrap();
    assert_eq!(entry.config.as_ref().unwrap().fee, 3000);
    // the next swap no longer queues the key
    ctx.handle_v3_swap(&v3_swap(a, 2), 4);
    assert!(ctx.pending_v3_configs().is_empty());
}

#[test]
fn dispatcher_routes_swaps_to_the_registry() {
    let mut ctx = MasterContext::new();
    let a = addr(5);
    let key = IdAddress { id: 2, address: a };
    let rec = UnifiedPoolEventResponse::V3Swap(v3_swap(a, 8));
    rec.handle(&mut ctx, 2);
    assert_eq!(ctx.get_v3_pool(key).unwrap().state.as_ref().unwrap().tick, 8);
    // a kind without a handler leaves the registry untouched
    let noop = UnifiedPoolEventResponse::V2Sync();
    noop.handle(&mut ctx, 2);
    assert_eq!(ctx.pending_v3_configs(), vec![key]);
}

fn topic(n: u128) -> B256 {
    B256 { hi: n, lo: n }
}

fn topics() -> PoolEventTopics {
    PoolEventTopics {
        v2_mint: topic(1),
        v2_burn: topic(2),
        v2_swap: topic(3),
        v2_sync: topic(4),
        v2_approval: topic(5),
        v2_transfer: topic(6),
        v3_mint: topic(7),
        v3_swap: topic(8),
        v3_collect: topic(9),
        v3_burn: topic(10),
        v3_flash: topic(11),
        v4_donate: topic(12),
        v4_initialize: topic(13),
        v4_modify: topic(14),
        v4_swap: topic(15),
    }
}

#[test]
fn signature_hashes_classify_to_their_event_kinds() {
    let map = generate_pools_events_map(&topics());
    assert_eq!(map.len(), 15);
    assert_eq!(classify_pool_event(&map, topic(3)), Some(UnifiedPoolEvent::V2Swap()));
    assert_eq!(classify_pool_event(&map, topic(8)), Some(UnifiedPoolEvent::V3Swap()));
    assert_eq!(classify_pool_event(&map, topic(15)), Some(UnifiedPoolEvent::V4Swap()));
    // an unknown hash is ignored, not an error
    assert_eq!(classify_pool_event(&map, topic(99)), None);
}
