//! Classification of decoded pool log records.
//!
//! A listener resolves a log's first topic — the event signature hash — to
//! one of a closed set of pool event kinds, decodes the payload, and routes
//! the typed record to the registry. Unknown hashes are ignored: a chain may
//! emit unrelated logs on subscribed topics.
use vstd::prelude::*;

verus! {

use crate::id_address::{Address, B256};
use crate::u256::U256;
use crate::master_context::MasterContext;

/// The event kinds the dispatcher recognizes.
#[derive(Clone, Copy, Debug, PartialEq, Eq, Structural)]
pub enum UnifiedPoolEvent {
    V2Mint(),
    V2Burn(),
    V2Swap(),
    V2Sync(),
    V2Approval(),
    V2Transfer(),
    V3Mint(),
    V3Swap(),
    V3Collect(),
    V3Burn(),
    V3Flash(),
    V4Donate(),
    V4Initialize(),
    V4Modify(),
    V4Swap(),
}

/// The signature hashes of the recognized events, as the transport layer
/// computed them from the event signatures.
pub struct PoolEventTopics {
    pub v2_mint: B256,
    pub v2_burn: B256,
    pub v2_swap: B256,
    pub v2_sync: B256,
    pub v2_approval: B256,
    pub v2_transfer: B256,
    pub v3_mint: B256,
    pub v3_swap: B256,
    pub v3_collect: B256,
    pub v3_burn: B256,
    pub v3_flash: B256,
    pub v4_donate: B256,
    pub v4_initialize: B256,
    pub v4_modify: B256,
    pub v4_swap: B256,
}

/// The rows of the dispatch table for a given set of signature hashes.
pub open spec fn pool_events_rows(t: PoolEventTopics) -> Seq<(B256, UnifiedPoolEvent)> {
    seq![
        (t.v2_mint, UnifiedPoolEvent::V2Mint()),
        (t.v2_burn, UnifiedPoolEvent::V2Burn()),
        (t.v2_swap, UnifiedPoolEvent::V2Swap()),
        (t.v2_sync, UnifiedPoolEvent::V2Sync()),
        (t.v2_approval, UnifiedPoolEvent::V2Approval()),
        (t.v2_transfer, UnifiedPoolEvent::V2Transfer()),
        (t.v3_mint, UnifiedPoolEvent::V3Mint()),
        (t.v3_swap, UnifiedPoolEvent::V3Swap()),
        (t.v3_collect, UnifiedPoolEvent::V3Collect()),
        (t.v3_burn, UnifiedPoolEvent::V3Burn()),
        (t.v3_flash, UnifiedPoolEvent::V3Flash()),
        (t.v4_donate, UnifiedPoolEvent::V4Donate()),
        (t.v4_initialize, UnifiedPoolEvent::V4Initialize()),
        (t.v4_modify, UnifiedPoolEvent::V4Modify()),
        (t.v4_swap, UnifiedPoolEvent::V4Swap()),
    ]
}

/// The dispatch table of a listener.
pub struct PoolEvents {
    pub map: Vec<(B256, UnifiedPoolEvent)>,
}

/// Build the dispatch table from signature hash to event kind.
pub fn generate_pools_events_map(topics: &PoolEventTopics) -> (r: Vec<(B256, UnifiedPoolEvent)>)
    ensures
        r@ == pool_events_rows(*topics),
{
    let mut map: Vec<(B256, UnifiedPoolEvent)> = Vec::new();
    map.push((topics.v2_mint, UnifiedPoolEvent::V2Mint()));
    map.push((topics.v2_burn, UnifiedPoolEvent::V2Burn()));
    map.push((topics.v2_swap, UnifiedPoolEvent::V2Swap()));
    map.push((topics.v2_sync, UnifiedPoolEvent::V2Sync()));
    map.push((topics.v2_approval, UnifiedPoolEvent::V2Approval()));
    map.push((topics.v2_transfer, UnifiedPoolEvent::V2Transfer()));
    map.push((topics.v3_mint, UnifiedPoolEvent::V3Mint()));
    map.push((topics.v3_swap, UnifiedPoolEvent::V3Swap()));
    map.push((topics.v3_collect, UnifiedPoolEvent::V3Collect()));
    map.push((topics.v3_burn, UnifiedPoolEvent::V3Burn()));
    map.push((topics.v3_flash, UnifiedPoolEvent::V3Flash()));
    map.push((topics.v4_donate, UnifiedPoolEvent::V4Donate()));
    map.push((topics.v4_initialize, UnifiedPoolEvent::V4Initialize()));
    map.push((topics.v4_modify, UnifiedPoolEvent::V4Modify()));
    map.push((topics.v4_swap, UnifiedPoolEvent::V4Swap()));
    proof {
        assert(map@ =~= pool_events_rows(*topics));
    }
    map
}

/// The kind of the first table row matching a topic, if any.
pub open spec fn classify_spec(rows: Seq<(B256, UnifiedPoolEvent)>, topic: B256) -> Option<
    UnifiedPoolEvent,
>
    decreases rows.len(),
{
    if rows.len() == 0 {
        None
    } else if rows[0].0 == topic {
        Some(rows[0].1)
    } else {
        classify_spec(rows.skip(1), topic)
    }
}

/// Resolve a log's first topic to an event kind; unknown topics resolve to
/// nothing and the log is ignored.
pub fn classify_pool_event(map: &Vec<(B256, UnifiedPoolEvent)>, topic: B256) -> (r: Option<
    UnifiedPoolEvent,
>)
    ensures
        r == classify_spec(map@, topic),
{
    let mut i: usize = 0;
    proof {
        assert(map@.skip(0) =~= map@);
    }
    while i < map.len()
        invariant
            i <= map@.len(),
            classify_spec(map@, topic) == classify_spec(map@.skip(i as int), topic),
        decreases map@.len() - i,
    {
        let (h, kind) = map[i];
        proof {
            assert(map@.skip(i as int)[0] == map@[i as int]);
            assert(map@.skip(i as int).skip(1) =~= map@.skip(i + 1));
        }
        if h == topic {
            return Some(kind);
        }
        i = i + 1;
    }
    proof {
        assert(map@.skip(map@.len() as int) =~= Seq::<(B256, UnifiedPoolEvent)>::empty());
    }
    None
}

/// The signature strings of all recognized pool events, in table order, for
/// building a log filter.
pub fn generate_pool_events() -> (r: Vec<&'static str>)
    ensures
        r@.len() == 15,
        r@[0]@ == "Mint(address,uint256,uint256)"@,
        r@[1]@ == "Burn(address,uint256,uint256,address)"@,
        r@[2]@ == "Swap(address,uint256,uint256,uint256,uint256,address)"@,
        r@[3]@ == "Sync(uint112,uint112)"@,
        r@[4]@ == "Approval(address,address,uint256)"@,
        r@[5]@ == "Transfer(address,address,uint256)"@,
        r@[6]@ == "Mint(address,address,int24,int24,uint128,uint256,uint256)"@,
        r@[7]@ == "Swap(address,address,int256,int256,uint160,uint128,int24)"@,
        r@[8]@ == "Collect(address,address,int24,int24,uint128,uint128)"@,
        r@[9]@ == "Burn(address,int24,int24,uint128,uint256,uint256)"@,
        r@[10]@ == "Flash(address,address,uint256,uint256,uint256,uint256)"@,
        r@[11]@ == "Donate(bytes32,address,uint256,uint256)"@,
        r@[12]@ == "Initialize(bytes32,address,address,uint24,int24,address,uint160,int24)"@,
        r@[13]@ == "ModifyLiquidity(bytes32,address,int24,int24,int256,bytes32)"@,
        r@[14]@ == "Swap(bytes32,address,int128,int128,uint160,uint128,int24,uint24)"@,
{
    let mut r: Vec<&'static str> = Vec::new();
    r.push("Mint(address,uint256,uint256)");
    r.push("Burn(address,uint256,uint256,address)");
    r.push("Swap(address,uint256,uint256,uint256,uint256,address)");
    r.push("Sync(uint112,uint112)");
    r.push("Approval(address,address,uint256)");
    r.push("Transfer(address,address,uint256)");
    r.push("Mint(address,address,int24,int24,uint128,uint256,uint256)");
    r.push("Swap(address,address,int256,int256,uint160,uint128,int24)");
    r.push("Collect(address,address,int24,int24,uint128,uint128)");
    r.push("Burn(address,int24,int24,uint128,uint256,uint256)");
    r.push("Flash(address,address,uint256,uint256,uint256,uint256)");
    r.push("Donate(bytes32,address,uint256,uint256)");
    r.push("Initialize(bytes32,address,address,uint24,int24,address,uint160,int24)");
    r.push("ModifyLiquidity(bytes32,address,int24,int24,int256,bytes32)");
    r.push("Swap(bytes32,address,int128,int128,uint160,uint128,int24,uint24)");
    r
}

/// A chunk of subscribed pool addresses held by one listener.
pub struct Chunk {
    pub addrs: Vec<Address>,
    pub tombstones: Vec<Address>,
    pub id: u32,
}

/// A decoded constant-product swap: the four unsigned amount fields, of
/// which exactly one per token is nonzero for a given direction.
pub struct V2SwapEvent {
    pub address: Address,
    pub sender: Address,
    pub amount0_in: u128,
    pub amount1_in: u128,
    pub amount0_out: u128,
    pub amount1_out: u128,
    pub to: Address,
}

/// A decoded concentrated-liquidity swap, carrying the resulting pool state.
/// The signed 256-bit amount fields are carried raw; the registry does not
/// read them.
pub struct V3SwapEvent {
    pub address: Address,
    pub sender: Address,
    pub recipient: Address,
    pub amount0: B256,
    pub amount1: B256,
    pub sqrt_price_x96: U256,
    pub liquidity: u128,
    pub tick: i32,
}

/// A decoded singleton-variant swap, addressed by pool-key hash.
pub struct V4SwapEvent {
    pub id: B256,
    pub sender: Address,
    pub amount0: i128,
    pub amount1: i128,
    pub sqrt_price_x96: U256,
    pub liquidity: u128,
    pub tick: i32,
    pub fee: u32,
}

/// A decoded record of any recognized pool event; only the swap payloads are
/// carried, the other kinds hold no fields the registry reads.
pub enum UnifiedPoolEventResponse {
    V2Mint(),
    V2Burn(),
    V2Swap(V2SwapEvent),
    V2Sync(),
    V2Approval(),
    V2Transfer(),
    V3Mint(),
    V3Swap(V3SwapEvent),
    V3Collect(),
    V3Burn(),
    V3Flash(),
    V4Donate(),
    V4Initialize(),
    V4Modify(),
    V4Swap(V4SwapEvent),
}

impl UnifiedPoolEventResponse {
    /// Route a decoded record to the registry handler of its kind; kinds
    /// without a handler leave the registry untouched.
    pub fn handle(&self, ctx: &mut MasterContext, chain_id: u64)
        requires
            old(ctx).wf(),
        ensures
            final(ctx).wf(),
            final(ctx)@ == match self {
                UnifiedPoolEventResponse::V2Swap(ev) => crate::master_context::v2_swap_step(
                    old(ctx)@,
                    *ev,
                    chain_id,
                ),
                UnifiedPoolEventResponse::V3Swap(ev) => crate::master_context::v3_swap_step(
                    old(ctx)@,
                    *ev,
                    chain_id,
                ),
                UnifiedPoolEventResponse::V4Swap(ev) => crate::master_context::v4_swap_step(
                    old(ctx)@,
                    *ev,
                    chain_id,
                ),
                _ => old(ctx)@,
            },
    {
        match self {
            UnifiedPoolEventResponse::V2Swap(ev) => ctx.handle_v2_swap(ev, chain_id),
            UnifiedPoolEventResponse::V3Swap(ev) => ctx.handle_v3_swap(ev, chain_id),
            UnifiedPoolEventResponse::V4Swap(ev) => ctx.handle_v4_swap(ev, chain_id),
            _ => {},
        }
    }
}

} // verus!
