//! Off-chain mirror of automated-market-maker pool state: a stream funnel,
//! a pool-state registry fed by decoded on-chain events, and a
//! concentrated-liquidity tick / fixed-point price engine that simulates
//! trades against the mirrored state without a network round trip.
//!
//! The numeric core is built bottom-up: `limbs` proves base-2^64 vector
//! arithmetic, `u256` wraps it into a checked 256-bit integer, `tick_math`
//! converts between tick indices and Q96 square-root prices, and
//! `trade_math` runs the swap simulation over the `ticks` store. The
//! `master_context` registry applies decoded events — classified by
//! `pool_event` and `token_event` — to pool entries and tracks unresolved
//! entries in pending-refresh queues; `receiver_funnel` holds the fan-in
//! decisions of the event stream's owning task.
pub mod limbs;
pub mod u256;
pub mod tick_math;
pub mod ticks;
pub mod id_address;
pub mod states;
pub mod err;
pub mod v3_state;
pub mod x96price_math;
pub mod trade_math;
pub mod bitmap_math;
pub mod bitmap;
pub mod p_config;
pub mod p_state;
pub mod p_ticks;
pub mod p_key;
pub mod p_any;
pub mod d_any;
pub mod t_any;
pub mod cortex;
pub mod integration;
pub mod master_context;
pub mod pool_event;
pub mod receiver_funnel;
pub mod token_event;

