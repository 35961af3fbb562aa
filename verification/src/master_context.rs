//! The pool-state registry: one entry per pool identity, updated in place
//! from decoded events, with pending-refresh queues for entries whose state
//! or configuration is missing.
//!
//! The registry is a sequential structure; callers that share it across
//! listener tasks wrap it in one lock, which keeps every handler's
//! lookup-and-mutate atomic. An identity whose state is unknown sits in
//! exactly one pending queue until a resolver writes the missing data back,
//! and is never enqueued twice.
use vstd::prelude::*;

verus! {

use vstd::wrapping::u128_specs;
use crate::id_address::{Address, IdAddress, IdKey};
use crate::cortex::{PartialV2Pool, PartialV3Pool, PartialV4Pool, AnyPartialPool, PoolEvaluation};
use crate::p_config::{V2Config, V3Config, V4Config};
use crate::p_state::{V2State, V3State};
use crate::pool_event::{V2SwapEvent, V3SwapEvent, V4SwapEvent};

/// Ghost image of a concentrated-liquidity or singleton pool state.
pub ghost struct V3StateV {
    pub tick: int,
    pub x96price: nat,
    pub liquidity: u128,
}

/// Ghost image of a concentrated-liquidity pool configuration.
pub ghost struct V3ConfigV {
    pub name: Seq<char>,
    pub fee: u32,
    pub tick_spacing: i32,
    pub token0: Address,
    pub token1: Address,
}

/// Ghost image of a constant-product pool configuration.
pub ghost struct V2ConfigV {
    pub name: Seq<char>,
    pub fee: u32,
    pub token0: Address,
    pub token1: Address,
}

/// Ghost image of a registry entry, per protocol generation.
pub ghost struct V2EntryV {
    pub chain: u64,
    pub address: Address,
    pub config: Option<V2ConfigV>,
    pub state: Option<V2State>,
}

pub ghost struct V3EntryV {
    pub chain: u64,
    pub address: Address,
    pub config: Option<V3ConfigV>,
    pub state: Option<V3StateV>,
}

pub ghost struct V4EntryV {
    pub chain: u64,
    pub address: Address,
    pub config: Option<V4Config>,
    pub state: Option<V3StateV>,
}

/// Ghost image of the whole registry.
pub ghost struct MasterContextV {
    pub v2: Map<IdAddress, V2EntryV>,
    pub v3: Map<IdAddress, V3EntryV>,
    pub v4: Map<IdKey, V4EntryV>,
    pub v2_queue: Seq<IdAddress>,
    pub v3_queue: Seq<IdAddress>,
    pub v4_queue: Seq<IdKey>,
}

pub open spec fn v3_state_view(s: V3State) -> V3StateV {
    V3StateV { tick: s.tick as int, x96price: s.x96price@, liquidity: s.liquidity }
}

pub open spec fn v2_config_view(c: V2Config) -> V2ConfigV {
    V2ConfigV { name: c.name@, fee: c.fee, token0: c.token0, token1: c.token1 }
}

pub open spec fn v3_config_view(c: V3Config) -> V3ConfigV {
    V3ConfigV {
        name: c.name@,
        fee: c.fee,
        tick_spacing: c.tick_spacing,
        token0: c.token0,
        token1: c.token1,
    }
}

pub open spec fn opt_v2_config_view(c: Option<V2Config>) -> Option<V2ConfigV> {
    match c {
        Some(c) => Some(v2_config_view(c)),
        None => None,
    }
}

pub open spec fn opt_v3_config_view(c: Option<V3Config>) -> Option<V3ConfigV> {
    match c {
        Some(c) => Some(v3_config_view(c)),
        None => None,
    }
}

pub open spec fn v2_entry_view(p: PartialV2Pool) -> V2EntryV {
    V2EntryV {
        chain: p.chain,
        address: p.address,
        config: opt_v2_config_view(p.config),
        state: p.state,
    }
}

pub open spec fn v3_entry_view(p: PartialV3Pool) -> V3EntryV {
    V3EntryV {
        chain: p.chain,
        address: p.address,
        config: opt_v3_config_view(p.config),
        state: match p.state {
            Some(s) => Some(v3_state_view(s)),
            None => None,
        },
    }
}

pub open spec fn v4_entry_view(p: PartialV4Pool) -> V4EntryV {
    V4EntryV {
        chain: p.chain,
        address: p.address,
        config: p.config,
        state: match p.state {
            Some(s) => Some(v3_state_view(s)),
            None => None,
        },
    }
}

/// The association a key-value list stands for; a later pair wins.
pub open spec fn map_of<K, V>(s: Seq<(K, V)>) -> Map<K, V>
    decreases s.len(),
{
    if s.len() == 0 {
        Map::empty()
    } else {
        map_of(s.drop_last()).insert(s.last().0, s.last().1)
    }
}

/// Key-value lists the registry holds never repeat a key.
pub open spec fn unique_keys<K, V>(s: Seq<(K, V)>) -> bool {
    forall|i: int, j: int| 0 <= i < j < s.len() ==> (#[trigger] s[i]).0 != (#[trigger] s[j]).0
}

/// Push a pending identity unless it is already pending.
pub open spec fn enqueue_if_absent<T>(q: Seq<T>, k: T) -> Seq<T> {
    if q.contains(k) {
        q
    } else {
        q.push(k)
    }
}

/// How often an identity sits in a queue.
pub open spec fn count_of<T>(q: Seq<T>, k: T) -> int
    decreases q.len(),
{
    if q.len() == 0 {
        0
    } else {
        count_of(q.drop_last(), k) + if q.last() == k {
            1int
        } else {
            0int
        }
    }
}

/// The constant-product reserves after one swap's deltas, applied with
/// wrap-around at 128 bits.
pub open spec fn v2_delta_state(st: V2State, ev: V2SwapEvent) -> V2State {
    V2State {
        r0: u128_specs::wrapping_sub(
            u128_specs::wrapping_add(st.r0, ev.amount0_in),
            ev.amount0_out,
        ),
        r1: u128_specs::wrapping_sub(
            u128_specs::wrapping_add(st.r1, ev.amount1_in),
            ev.amount1_out,
        ),
    }
}

/// What one constant-product swap does to the registry: reserves move by the
/// event's deltas when state is known; otherwise the entry exists afterwards
/// (created unresolved if need be) and sits in the reserve-refresh queue
/// exactly once.
pub open spec fn v2_swap_step(s: MasterContextV, ev: V2SwapEvent, chain_id: u64) -> MasterContextV {
    let k = IdAddress { id: chain_id, address: ev.address };
    if s.v2.dom().contains(k) {
        let e = s.v2[k];
        match e.state {
            Some(st) => MasterContextV {
                v2: s.v2.insert(k, V2EntryV { state: Some(v2_delta_state(st, ev)), ..e }),
                ..s
            },
            None => MasterContextV { v2_queue: enqueue_if_absent(s.v2_queue, k), ..s },
        }
    } else {
        MasterContextV {
            v2: s.v2.insert(
                k,
                V2EntryV { chain: chain_id, address: ev.address, config: None, state: None },
            ),
            v2_queue: enqueue_if_absent(s.v2_queue, k),
            ..s
        }
    }
}

/// The pool state a concentrated-liquidity swap event carries.
pub open spec fn v3_event_state(ev: V3SwapEvent) -> V3StateV {
    V3StateV { tick: ev.tick as int, x96price: ev.sqrt_price_x96@, liquidity: ev.liquidity }
}

/// What one concentrated-liquidity swap does to the registry: the carried
/// state overwrites the entry's state (creating the entry if it was never
/// seen), and an entry without configuration sits in the config-refresh
/// queue exactly once.
pub open spec fn v3_swap_step(s: MasterContextV, ev: V3SwapEvent, chain_id: u64) -> MasterContextV {
    let k = IdAddress { id: chain_id, address: ev.address };
    if s.v3.dom().contains(k) {
        let e = s.v3[k];
        let s2 = MasterContextV {
            v3: s.v3.insert(k, V3EntryV { state: Some(v3_event_state(ev)), ..e }),
            ..s
        };
        if e.config is None {
            MasterContextV { v3_queue: enqueue_if_absent(s.v3_queue, k), ..s2 }
        } else {
            s2
        }
    } else {
        MasterContextV {
            v3: s.v3.insert(
                k,
                V3EntryV {
                    chain: chain_id,
                    address: ev.address,
                    config: None,
                    state: Some(v3_event_state(ev)),
                },
            ),
            v3_queue: enqueue_if_absent(s.v3_queue, k),
            ..s
        }
    }
}

/// What one singleton-variant swap does to the registry: known state is
/// overwritten from the event; a missing entry or missing state puts the
/// identity on the dedicated not-found queue exactly once.
pub open spec fn v4_swap_step(s: MasterContextV, ev: V4SwapEvent, chain_id: u64) -> MasterContextV {
    let k = IdKey { id: chain_id, key: ev.id };
    if s.v4.dom().contains(k) {
        let e = s.v4[k];
        match e.state {
            Some(_) => MasterContextV {
                v4: s.v4.insert(
                    k,
                    V4EntryV {
                        state: Some(
                            V3StateV {
                                tick: ev.tick as int,
                                x96price: ev.sqrt_price_x96@,
                                liquidity: ev.liquidity,
                            },
                        ),
                        ..e
                    },
                ),
                ..s
            },
            None => MasterContextV { v4_queue: enqueue_if_absent(s.v4_queue, k), ..s },
        }
    } else {
        MasterContextV {
            v4: s.v4.insert(
                k,
                V4EntryV {
                    chain: chain_id,
                    address: Address { hi: 0, lo: 0 },
                    config: None,
                    state: None,
                },
            ),
            v4_queue: enqueue_if_absent(s.v4_queue, k),
            ..s
        }
    }
}

/// The registry.
pub struct MasterContext {
    v2_pools: Vec<(IdAddress, PartialV2Pool)>,
    v3_pools: Vec<(IdAddress, PartialV3Pool)>,
    v4_pools: Vec<(IdKey, PartialV4Pool)>,
    pools_by_token: Vec<(IdAddress, Vec<EvaluatedPool>)>,
    v2_reserves_queue: Vec<IdAddress>,
    v3_config_queue: Vec<IdAddress>,
    v4_not_found_queue: Vec<IdKey>,
}

/// A pool seen from one of its tokens, with a caller's appraisal if any.
pub struct EvaluatedPool {
    pub pool: AnyPartialPool,
    pub eval: Option<PoolEvaluation>,
}

impl View for MasterContext {
    type V = MasterContextV;

    closed spec fn view(&self) -> MasterContextV {
        MasterContextV {
            v2: map_of(self.v2_pools@).map_values(|p: PartialV2Pool| v2_entry_view(p)),
            v3: map_of(self.v3_pools@).map_values(|p: PartialV3Pool| v3_entry_view(p)),
            v4: map_of(self.v4_pools@).map_values(|p: PartialV4Pool| v4_entry_view(p)),
            v2_queue: self.v2_reserves_queue@,
            v3_queue: self.v3_config_queue@,
            v4_queue: self.v4_not_found_queue@,
        }
    }
}

impl MasterContext {
    /// The registry's internal shape: each pool list binds a key at most
    /// once. Established by `new` and kept by every method.
    pub closed spec fn wf(self) -> bool {
        &&& unique_keys(self.v2_pools@)
        &&& unique_keys(self.v3_pools@)
        &&& unique_keys(self.v4_pools@)
    }

    /// An empty registry.
    pub fn new() -> (r: MasterContext)
        ensures
            r.wf(),
            r@.v2 == Map::<IdAddress, V2EntryV>::empty(),
            r@.v3 == Map::<IdAddress, V3EntryV>::empty(),
            r@.v4 == Map::<IdKey, V4EntryV>::empty(),
            r@.v2_queue == Seq::<IdAddress>::empty(),
            r@.v3_queue == Seq::<IdAddress>::empty(),
            r@.v4_queue == Seq::<IdKey>::empty(),
    {
        let r = MasterContext {
            v2_pools: Vec::new(),
            v3_pools: Vec::new(),
            v4_pools: Vec::new(),
            pools_by_token: Vec::new(),
            v2_reserves_queue: Vec::new(),
            v3_config_queue: Vec::new(),
            v4_not_found_queue: Vec::new(),
        };
        proof {
            assert(map_of(r.v2_pools@) =~= Map::<IdAddress, PartialV2Pool>::empty());
            assert(map_of(r.v3_pools@) =~= Map::<IdAddress, PartialV3Pool>::empty());
            assert(map_of(r.v4_pools@) =~= Map::<IdKey, PartialV4Pool>::empty());
            assert(r@.v2 =~= Map::<IdAddress, V2EntryV>::empty());
            assert(r@.v3 =~= Map::<IdAddress, V3EntryV>::empty());
            assert(r@.v4 =~= Map::<IdKey, V4EntryV>::empty());
        }
        r
    }

    /// Apply a constant-product swap: reserves move by the event's deltas;
    /// an entry without state is created if missing and queued for a
    /// reserve refresh, at most once.
    pub fn handle_v2_swap(&mut self, ev: &V2SwapEvent, chain_id: u64)
        requires
            old(self).wf(),
        ensures
            final(self).wf(),
            final(self)@ == v2_swap_step(old(self)@, *ev, chain_id),
    {
        let key = IdAddress { id: chain_id, address: ev.address };
        match find_addr(&self.v2_pools, key) {
            Some(i) => {
                proof {
                    lemma_map_of_at(self.v2_pools@, i as int);
                }
                let st_opt = self.v2_pools[i].1.state;
                match st_opt {
                    Some(st) => {
                        let r0 = st.r0.wrapping_add(ev.amount0_in).wrapping_sub(ev.amount0_out);
                        let r1 = st.r1.wrapping_add(ev.amount1_in).wrapping_sub(ev.amount1_out);
                        let cfg = clone_v2_config_opt(&self.v2_pools[i].1.config);
                        let chain = self.v2_pools[i].1.chain;
                        let addr = self.v2_pools[i].1.address;
                        let newp = PartialV2Pool {
                            chain,
                            address: addr,
                            config: cfg,
                            state: Some(V2State { r0, r1 }),
                        };
                        let ghost pre = self.v2_pools@;
                        let ghost s0 = self@;
                        proof {
                            lemma_map_of_update(pre, i as int, (key, newp).1);
                        }
                        self.v2_pools.set(i, (key, newp));
                        proof {
                            assert(self.v2_pools@ =~= pre.update(i as int, (key, newp)));
                            assert(self@.v2 =~= v2_swap_step(s0, *ev, chain_id).v2);
                            assert(self@ == v2_swap_step(s0, *ev, chain_id));
                        }
                    },
                    None => {
                        let ghost s0 = self@;
                        if !contains_addr(&self.v2_reserves_queue, key) {
                            self.v2_reserves_queue.push(key);
                        }
                        proof {
                            assert(self@ == v2_swap_step(s0, *ev, chain_id));
                        }
                    },
                }
            },
            None => {
                let ghost pre = self.v2_pools@;
                let ghost s0 = self@;
                let newp = PartialV2Pool {
                    chain: chain_id,
                    address: ev.address,
                    config: None,
                    state: None,
                };
                proof {
                    lemma_map_of_contains(pre, key);
                    lemma_map_of_push(pre, key, newp);
                }
                self.v2_pools.push((key, newp));
                if !contains_addr(&self.v2_reserves_queue, key) {
                    self.v2_reserves_queue.push(key);
                }
                proof {
                    assert(self.v2_pools@ =~= pre.push((key, newp)));
                    assert(unique_keys(self.v2_pools@)) by {
                        assert(forall|j: int|
                            0 <= j < pre.len() ==> #[trigger] self.v2_pools@[j] == pre[j]);
                    }
                    assert(!s0.v2.dom().contains(key));
                    assert(self@.v2 =~= v2_swap_step(s0, *ev, chain_id).v2);
                    assert(self@ == v2_swap_step(s0, *ev, chain_id));
                }
            },
        }
    }

    /// Apply a concentrated-liquidity swap: the carried state overwrites the
    /// entry (created if never seen); an entry without configuration is
    /// queued for a config refresh, at most once.
    pub fn handle_v3_swap(&mut self, ev: &V3SwapEvent, chain_id: u64)
        requires
            old(self).wf(),
        ensures
            final(self).wf(),
            final(self)@ == v3_swap_step(old(self)@, *ev, chain_id),
    {
        let key = IdAddress { id: chain_id, address: ev.address };
        let newstate = V3State {
            tick: ev.tick,
            x96price: ev.sqrt_price_x96.clone(),
            liquidity: ev.liquidity,
        };
        match find_addr(&self.v3_pools, key) {
            Some(i) => {
                proof {
                    lemma_map_of_at(self.v3_pools@, i as int);
                }
                let has_cfg = self.v3_pools[i].1.config.is_some();
                let cfg = clone_v3_config_opt(&self.v3_pools[i].1.config);
                let chain = self.v3_pools[i].1.chain;
                let addr = self.v3_pools[i].1.address;
                let newp = PartialV3Pool {
                    chain,
                    address: addr,
                    config: cfg,
                    state: Some(newstate),
                };
                let ghost pre = self.v3_pools@;
                let ghost s0 = self@;
                proof {
                    lemma_map_of_update(pre, i as int, (key, newp).1);
                }
                self.v3_pools.set(i, (key, newp));
                if !has_cfg {
                    if !contains_addr(&self.v3_config_queue, key) {
                        self.v3_config_queue.push(key);
                    }
                }
                proof {
                    assert(self.v3_pools@ =~= pre.update(i as int, (key, newp)));
                    assert(self@.v3 =~= v3_swap_step(s0, *ev, chain_id).v3);
                    assert(self@ == v3_swap_step(s0, *ev, chain_id));
                }
            },
            None => {
                let ghost pre = self.v3_pools@;
                let ghost s0 = self@;
                let newp = PartialV3Pool {
                    chain: chain_id,
                    address: ev.address,
                    config: None,
                    state: Some(newstate),
                };
                proof {
                    lemma_map_of_contains(pre, key);
                    lemma_map_of_push(pre, key, newp);
                }
                self.v3_pools.push((key, newp));
                if !contains_addr(&self.v3_config_queue, key) {
                    self.v3_config_queue.push(key);
                }
                proof {
                    assert(self.v3_pools@ =~= pre.push((key, newp)));
                    assert(unique_keys(self.v3_pools@)) by {
                        assert(forall|j: int|
                            0 <= j < pre.len() ==> #[trigger] self.v3_pools@[j] == pre[j]);
                    }
                    assert(!s0.v3.dom().contains(key));
                    assert(self@.v3 =~= v3_swap_step(s0, *ev, chain_id).v3);
                    assert(self@ == v3_swap_step(s0, *ev, chain_id));
                }
            },
        }
    }

    /// Apply a singleton-variant swap: known state is overwritten from the
    /// event; a missing entry or missing state puts the identity on the
    /// dedicated not-found queue, at most once.
    pub fn handle_v4_swap(&mut self, ev: &V4SwapEvent, chain_id: u64)
        requires
            old(self).wf(),
        ensures
            final(self).wf(),
            final(self)@ == v4_swap_step(old(self)@, *ev, chain_id),
    {
        let key = IdKey { id: chain_id, key: ev.id };
        match find_key_id(&self.v4_pools, key) {
            Some(i) => {
                proof {
                    lemma_map_of_at(self.v4_pools@, i as int);
                }
                let has_state = self.v4_pools[i].1.state.is_some();
                if has_state {
                    let newstate = V3State {
                        tick: ev.tick,
                        x96price: ev.sqrt_price_x96.clone(),
                        liquidity: ev.liquidity,
                    };
                    let cfg = self.v4_pools[i].1.config;
                    let chain = self.v4_pools[i].1.chain;
                    let addr = self.v4_pools[i].1.address;
                    let newp = PartialV4Pool {
                        chain,
                        address: addr,
                        config: cfg,
                        state: Some(newstate),
                    };
                    let ghost pre = self.v4_pools@;
                    let ghost s0 = self@;
                    proof {
                        lemma_map_of_update(pre, i as int, (key, newp).1);
                    }
                    self.v4_pools.set(i, (key, newp));
                    proof {
                        assert(self.v4_pools@ =~= pre.update(i as int, (key, newp)));
                        assert(self@.v4 =~= v4_swap_step(s0, *ev, chain_id).v4);
                        assert(self@ == v4_swap_step(s0, *ev, chain_id));
                    }
                } else {
                    let ghost s0 = self@;
                    if !contains_key_id(&self.v4_not_found_queue, key) {
                        self.v4_not_found_queue.push(key);
                    }
                    proof {
                        assert(self@ == v4_swap_step(s0, *ev, chain_id));
                    }
                }
            },
            None => {
                let ghost pre = self.v4_pools@;
                let ghost s0 = self@;
                let newp = PartialV4Pool {
                    chain: chain_id,
                    address: Address { hi: 0, lo: 0 },
                    config: None,
                    state: None,
                };
                proof {
                    lemma_map_of_contains(pre, key);
                    lemma_map_of_push(pre, key, newp);
                }
                self.v4_pools.push((key, newp));
                if !contains_key_id(&self.v4_not_found_queue, key) {
                    self.v4_not_found_queue.push(key);
                }
                proof {
                    assert(self.v4_pools@ =~= pre.push((key, newp)));
                    assert(unique_keys(self.v4_pools@)) by {
                        assert(forall|j: int|
                            0 <= j < pre.len() ==> #[trigger] self.v4_pools@[j] == pre[j]);
                    }
                    assert(!s0.v4.dom().contains(key));
                    assert(self@.v4 =~= v4_swap_step(s0, *ev, chain_id).v4);
                    assert(self@ == v4_swap_step(s0, *ev, chain_id));
                }
            },
        }
    }

    /// Snapshot of a constant-product entry by identity.
    pub fn get_v2_pool(&self, key: IdAddress) -> (r: Option<&PartialV2Pool>)
        requires
            self.wf(),
        ensures
            match r {
                Some(p) => self@.v2.dom().contains(key) && v2_entry_view(*p) == self@.v2[key],
                None => !self@.v2.dom().contains(key),
            },
    {
        match find_addr(&self.v2_pools, key) {
            Some(i) => {
                proof {
                    lemma_map_of_at(self.v2_pools@, i as int);
                }
                Some(&self.v2_pools[i].1)
            },
            None => {
                proof {
                    lemma_map_of_contains(self.v2_pools@, key);
                }
                None
            },
        }
    }

    /// Snapshot of a concentrated-liquidity entry by identity.
    pub fn get_v3_pool(&self, key: IdAddress) -> (r: Option<&PartialV3Pool>)
        requires
            self.wf(),
        ensures
            match r {
                Some(p) => self@.v3.dom().contains(key) && v3_entry_view(*p) == self@.v3[key],
                None => !self@.v3.dom().contains(key),
            },
    {
        match find_addr(&self.v3_pools, key) {
            Some(i) => {
                proof {
                    lemma_map_of_at(self.v3_pools@, i as int);
                }
                Some(&self.v3_pools[i].1)
            },
            None => {
                proof {
                    lemma_map_of_contains(self.v3_pools@, key);
                }
                None
            },
        }
    }

    /// Snapshot of a singleton-variant entry by identity.
    pub fn get_v4_pool(&self, key: IdKey) -> (r: Option<&PartialV4Pool>)
        requires
            self.wf(),
        ensures
            match r {
                Some(p) => self@.v4.dom().contains(key) && v4_entry_view(*p) == self@.v4[key],
                None => !self@.v4.dom().contains(key),
            },
    {
        match find_key_id(&self.v4_pools, key) {
            Some(i) => {
                proof {
                    lemma_map_of_at(self.v4_pools@, i as int);
                }
                Some(&self.v4_pools[i].1)
            },
            None => {
                proof {
                    lemma_map_of_contains(self.v4_pools@, key);
                }
                None
            },
        }
    }

    /// The identities waiting for a reserve refresh.
    pub fn pending_v2_reserves(&self) -> (r: Vec<IdAddress>)
        ensures
            r@ == self@.v2_queue,
    {
        copy_addrs(&self.v2_reserves_queue)
    }

    /// The identities waiting for a configuration refresh.
    pub fn pending_v3_configs(&self) -> (r: Vec<IdAddress>)
        ensures
            r@ == self@.v3_queue,
    {
        copy_addrs(&self.v3_config_queue)
    }

    /// The identities whose state was missing when an event arrived.
    pub fn pending_v4_not_found(&self) -> (r: Vec<IdKey>)
        ensures
            r@ == self@.v4_queue,
    {
        copy_id_keys(&self.v4_not_found_queue)
    }

    /// Write refreshed reserves back and take the identity off the pending
    /// queue.
    pub fn resolve_v2_reserves(&mut self, key: IdAddress, state: V2State)
        requires
            old(self).wf(),
        ensures
            final(self).wf(),
            final(self)@.v2 == (if old(self)@.v2.dom().contains(key) {
                old(self)@.v2.insert(key, V2EntryV { state: Some(state), ..old(self)@.v2[key] })
            } else {
                old(self)@.v2
            }),
            !final(self)@.v2_queue.contains(key),
            forall|x: IdAddress|
                x != key ==> (final(self)@.v2_queue.contains(x) <==> old(
                    self,
                )@.v2_queue.contains(x)),
            final(self)@.v3 == old(self)@.v3,
            final(self)@.v4 == old(self)@.v4,
            final(self)@.v3_queue == old(self)@.v3_queue,
            final(self)@.v4_queue == old(self)@.v4_queue,
    {
        match find_addr(&self.v2_pools, key) {
            Some(i) => {
                proof {
                    lemma_map_of_at(self.v2_pools@, i as int);
                }
                let cfg = clone_v2_config_opt(&self.v2_pools[i].1.config);
                let chain = self.v2_pools[i].1.chain;
                let addr = self.v2_pools[i].1.address;
                let newp = PartialV2Pool { chain, address: addr, config: cfg, state: Some(state) };
                let ghost pre = self.v2_pools@;
                let ghost s0 = self@;
                proof {
                    lemma_map_of_update(pre, i as int, (key, newp).1);
                }
                self.v2_pools.set(i, (key, newp));
                proof {
                    assert(self.v2_pools@ =~= pre.update(i as int, (key, newp)));
                    assert(self@.v2 =~= s0.v2.insert(
                        key,
                        V2EntryV { state: Some(state), ..s0.v2[key] },
                    ));
                }
            },
            None => {
                proof {
                    lemma_map_of_contains(self.v2_pools@, key);
                }
            },
        }
        let q = remove_addr(&self.v2_reserves_queue, key);
        self.v2_reserves_queue = q;
    }

    /// Write a refreshed configuration back and take the identity off the
    /// pending queue.
    pub fn resolve_v3_config(&mut self, key: IdAddress, config: V3Config)
        requires
            old(self).wf(),
        ensures
            final(self).wf(),
            final(self)@.v3 == (if old(self)@.v3.dom().contains(key) {
                old(self)@.v3.insert(
                    key,
                    V3EntryV { config: Some(v3_config_view(config)), ..old(self)@.v3[key] },
                )
            } else {
                old(self)@.v3
            }),
            !final(self)@.v3_queue.contains(key),
            forall|x: IdAddress|
                x != key ==> (final(self)@.v3_queue.contains(x) <==> old(
                    self,
                )@.v3_queue.contains(x)),
            final(self)@.v2 == old(self)@.v2,
            final(self)@.v4 == old(self)@.v4,
            final(self)@.v2_queue == old(self)@.v2_queue,
            final(self)@.v4_queue == old(self)@.v4_queue,
    {
        match find_addr(&self.v3_pools, key) {
            Some(i) => {
                proof {
                    lemma_map_of_at(self.v3_pools@, i as int);
                }
                let chain = self.v3_pools[i].1.chain;
                let addr = self.v3_pools[i].1.address;
                let st = clone_v3_state_opt(&self.v3_pools[i].1.state);
                let newp = PartialV3Pool { chain, address: addr, config: Some(config), state: st };
                let ghost pre = self.v3_pools@;
                let ghost s0 = self@;
                proof {
                    lemma_map_of_update(pre, i as int, (key, newp).1);
                }
                self.v3_pools.set(i, (key, newp));
                proof {
                    assert(self.v3_pools@ =~= pre.update(i as int, (key, newp)));
                    assert(self@.v3 =~= s0.v3.insert(
                        key,
                        V3EntryV { config: Some(v3_config_view(config)), ..s0.v3[key] },
                    ));
                }
            },
            None => {
                proof {
                    lemma_map_of_contains(self.v3_pools@, key);
                }
            },
        }
        let q = remove_addr(&self.v3_config_queue, key);
        self.v3_config_queue = q;
    }

    /// Write refreshed singleton-variant state back and take the identity
    /// off the not-found queue.
    pub fn resolve_v4_state(&mut self, key: IdKey, state: V3State)
        requires
            old(self).wf(),
        ensures
            final(self).wf(),
            final(self)@.v4 == (if old(self)@.v4.dom().contains(key) {
                old(self)@.v4.insert(
                    key,
                    V4EntryV { state: Some(v3_state_view(state)), ..old(self)@.v4[key] },
                )
            } else {
                old(self)@.v4
            }),
            !final(self)@.v4_queue.contains(key),
            forall|x: IdKey|
                x != key ==> (final(self)@.v4_queue.contains(x) <==> old(
                    self,
                )@.v4_queue.contains(x)),
            final(self)@.v2 == old(self)@.v2,
            final(self)@.v3 == old(self)@.v3,
            final(self)@.v2_queue == old(self)@.v2_queue,
            final(self)@.v3_queue == old(self)@.v3_queue,
    {
        match find_key_id(&self.v4_pools, key) {
            Some(i) => {
                proof {
                    lemma_map_of_at(self.v4_pools@, i as int);
                }
                let chain = self.v4_pools[i].1.chain;
                let addr = self.v4_pools[i].1.address;
                let cfg = self.v4_pools[i].1.config;
                let newp = PartialV4Pool { chain, address: addr, config: cfg, state: Some(state) };
                let ghost pre = self.v4_pools@;
                let ghost s0 = self@;
                proof {
                    lemma_map_of_update(pre, i as int, (key, newp).1);
                }
                self.v4_pools.set(i, (key, newp));
                proof {
                    assert(self.v4_pools@ =~= pre.update(i as int, (key, newp)));
                    assert(self@.v4 =~= s0.v4.insert(
                        key,
                        V4EntryV { state: Some(v3_state_view(state)), ..s0.v4[key] },
                    ));
                }
            },
            None => {
                proof {
                    lemma_map_of_contains(self.v4_pools@, key);
                }
            },
        }
        let q = remove_key_id(&self.v4_not_found_queue, key);
        self.v4_not_found_queue = q;
    }
}

/// Whatever a list binds, the association contains, and at the value of the
/// latest binding.
proof fn lemma_map_of_contains<K, V>(s: Seq<(K, V)>, k: K)
    ensures
        map_of(s).dom().contains(k) <==> (exists|i: int|
            0 <= i < s.len() && (#[trigger] s[i]).0 == k),
    decreases s.len(),
{
    if s.len() > 0 {
        lemma_map_of_contains(s.drop_last(), k);
        if map_of(s).dom().contains(k) {
            if s.last().0 == k {
                assert((s[s.len() - 1]).0 == k);
            } else {
                let i = choose|i: int| 0 <= i < s.drop_last().len() && (#[trigger] s.drop_last()[i]).0 == k;
                assert((s[i]).0 == k);
            }
        }
        if exists|i: int| 0 <= i < s.len() && (#[trigger] s[i]).0 == k {
            let i = choose|i: int| 0 <= i < s.len() && (#[trigger] s[i]).0 == k;
            if i == s.len() - 1 {
                assert(map_of(s).dom().contains(k));
            } else {
                assert((s.drop_last()[i]).0 == k);
            }
        }
    }
}

/// In a list without repeated keys, the association maps each bound key to
/// its listed value.
proof fn lemma_map_of_at<K, V>(s: Seq<(K, V)>, i: int)
    requires
        unique_keys(s),
        0 <= i < s.len(),
    ensures
        map_of(s).dom().contains((s[i]).0),
        map_of(s)[(s[i]).0] == (s[i]).1,
    decreases s.len(),
{
    if i == s.len() - 1 {
    } else {
        assert(unique_keys(s.drop_last())) by {
            assert(forall|a: int, b: int|
                0 <= a < b < s.drop_last().len() ==> (#[trigger] s.drop_last()[a]).0 != (
                #[trigger] s.drop_last()[b]).0) by {
                assert(forall|a: int|
                    0 <= a < s.len() - 1 ==> #[trigger] s.drop_last()[a] == s[a]);
            }
        }
        assert(s.drop_last()[i] == s[i]);
        lemma_map_of_at(s.drop_last(), i);
        assert((s[i]).0 != (s[s.len() - 1]).0);
    }
}

/// Replacing the value bound at one position rebinds exactly that key.
proof fn lemma_map_of_update<K, V>(s: Seq<(K, V)>, i: int, v: V)
    requires
        unique_keys(s),
        0 <= i < s.len(),
    ensures
        map_of(s.update(i, ((s[i]).0, v))) == map_of(s).insert((s[i]).0, v),
        unique_keys(s.update(i, ((s[i]).0, v))),
    decreases s.len(),
{
    let k = (s[i]).0;
    let u = s.update(i, (k, v));
    assert(forall|a: int| 0 <= a < s.len() && a != i ==> u[a] == s[a]);
    assert(unique_keys(u));
    if i == s.len() - 1 {
        assert(u.drop_last() =~= s.drop_last());
        assert(u.last() == (k, v));
        assert(map_of(u) == map_of(s.drop_last()).insert(k, v));
        assert(map_of(s) == map_of(s.drop_last()).insert(k, (s[i]).1));
        assert(map_of(s.drop_last()).insert(k, (s[i]).1).insert(k, v) =~= map_of(
            s.drop_last(),
        ).insert(k, v));
    } else {
        assert(unique_keys(s.drop_last())) by {
            assert(forall|a: int|
                0 <= a < s.len() - 1 ==> #[trigger] s.drop_last()[a] == s[a]);
        }
        assert(s.drop_last()[i] == s[i]);
        lemma_map_of_update(s.drop_last(), i, v);
        assert(u.drop_last() =~= s.drop_last().update(i, (k, v)));
        assert(u.last() == s.last());
        assert(map_of(u) == map_of(s.drop_last()).insert(k, v).insert(
            (s.last()).0,
            (s.last()).1,
        ));
        assert(k != (s.last()).0) by {
            assert((s[i]).0 != (s[s.len() - 1]).0);
        }
        assert(map_of(s.drop_last()).insert(k, v).insert((s.last()).0, (s.last()).1) =~= map_of(
            s.drop_last(),
        ).insert((s.last()).0, (s.last()).1).insert(k, v));
    }
}

/// Appending a binding inserts it into the association.
proof fn lemma_map_of_push<K, V>(s: Seq<(K, V)>, k: K, v: V)
    ensures
        map_of(s.push((k, v))) == map_of(s).insert(k, v),
    decreases s.len(),
{
    assert(s.push((k, v)).drop_last() =~= s);
    assert(s.push((k, v)).last() == (k, v));
}

/// A membership test for pending constant-product identities.
fn contains_addr(q: &Vec<IdAddress>, k: IdAddress) -> (r: bool)
    ensures
        r == q@.contains(k),
{
    let mut i: usize = 0;
    while i < q.len()
        invariant
            i <= q@.len(),
            forall|j: int| 0 <= j < i ==> q@[j] != k,
        decreases q@.len() - i,
    {
        if q[i] == k {
            assert(q@.contains(k)) by {
                assert(q@[i as int] == k);
            }
            return true;
        }
        i = i + 1;
    }
    false
}

/// A membership test for pending singleton-variant identities.
fn contains_key_id(q: &Vec<IdKey>, k: IdKey) -> (r: bool)
    ensures
        r == q@.contains(k),
{
    let mut i: usize = 0;
    while i < q.len()
        invariant
            i <= q@.len(),
            forall|j: int| 0 <= j < i ==> q@[j] != k,
        decreases q@.len() - i,
    {
        if q[i] == k {
            assert(q@.contains(k)) by {
                assert(q@[i as int] == k);
            }
            return true;
        }
        i = i + 1;
    }
    false
}

/// Position of a pool identity in an address-keyed list.
fn find_addr<V>(v: &Vec<(IdAddress, V)>, key: IdAddress) -> (r: Option<usize>)
    ensures
        match r {
            Some(i) => i < v@.len() && (v@[i as int]).0 == key,
            None => forall|j: int| 0 <= j < v@.len() ==> (#[trigger] v@[j]).0 != key,
        },
{
    let mut i: usize = 0;
    while i < v.len()
        invariant
            i <= v@.len(),
            forall|j: int| 0 <= j < i ==> (#[trigger] v@[j]).0 != key,
        decreases v@.len() - i,
    {
        if v[i].0 == key {
            return Some(i);
        }
        i = i + 1;
    }
    None
}

/// Position of a pool identity in a hash-keyed list.
fn find_key_id<V>(v: &Vec<(IdKey, V)>, key: IdKey) -> (r: Option<usize>)
    ensures
        match r {
            Some(i) => i < v@.len() && (v@[i as int]).0 == key,
            None => forall|j: int| 0 <= j < v@.len() ==> (#[trigger] v@[j]).0 != key,
        },
{
    let mut i: usize = 0;
    while i < v.len()
        invariant
            i <= v@.len(),
            forall|j: int| 0 <= j < i ==> (#[trigger] v@[j]).0 != key,
        decreases v@.len() - i,
    {
        if v[i].0 == key {
            return Some(i);
        }
        i = i + 1;
    }
    None
}

/// Copy a constant-product configuration; the image is the same.
fn clone_v2_config_opt(c: &Option<V2Config>) -> (r: Option<V2Config>)
    ensures
        opt_v2_config_view(r) == opt_v2_config_view(*c),
{
    match c {
        Some(cc) => Some(
            V2Config {
                name: cc.name.clone(),
                fee: cc.fee,
                token0: cc.token0,
                token1: cc.token1,
            },
        ),
        None => None,
    }
}

/// Copy a concentrated-liquidity configuration; the image is the same.
fn clone_v3_config_opt(c: &Option<V3Config>) -> (r: Option<V3Config>)
    ensures
        opt_v3_config_view(r) == opt_v3_config_view(*c),
{
    match c {
        Some(cc) => Some(
            V3Config {
                name: cc.name.clone(),
                fee: cc.fee,
                tick_spacing: cc.tick_spacing,
                token0: cc.token0,
                token1: cc.token1,
            },
        ),
        None => None,
    }
}

/// Copy a state snapshot; the image is the same.
fn clone_v3_state_opt(c: &Option<V3State>) -> (r: Option<V3State>)
    ensures
        (match r {
            Some(a) => (*c) matches Some(b) && v3_state_view(a) == v3_state_view(b),
            None => (*c) is None,
        }),
{
    match c {
        Some(cc) => Some(
            V3State { tick: cc.tick, x96price: cc.x96price.clone(), liquidity: cc.liquidity },
        ),
        None => None,
    }
}

/// All pending identities except the one just resolved.
fn remove_addr(q: &Vec<IdAddress>, k: IdAddress) -> (r: Vec<IdAddress>)
    ensures
        !r@.contains(k),
        forall|x: IdAddress| x != k ==> (r@.contains(x) <==> q@.contains(x)),
{
    let mut out: Vec<IdAddress> = Vec::new();
    let mut i: usize = 0;
    proof {
        assert(q@.take(0) =~= Seq::<IdAddress>::empty());
    }
    while i < q.len()
        invariant
            i <= q@.len(),
            forall|j: int| 0 <= j < out@.len() ==> out@[j] != k,
            forall|x: IdAddress| x != k ==> (out@.contains(x) <==> q@.take(i as int).contains(x)),
        decreases q@.len() - i,
    {
        let e = q[i];
        let ghost pre = out@;
        proof {
            assert(forall|x: IdAddress|
                x != k ==> (pre.contains(x) <==> q@.take(i as int).contains(x)));
        }
        if e != k {
            out.push(e);
        }
        proof {
            assert(q@.take(i + 1) =~= q@.take(i as int).push(q@[i as int]));
            assert forall|x: IdAddress| x != k implies (out@.contains(x) <==> q@.take(
                i + 1,
            ).contains(x)) by {
                lemma_contains_push_addr(pre, e);
                lemma_contains_push_addr(q@.take(i as int), q@[i as int]);
                assert(e == q@[i as int]);
                assert(q@.take(i + 1).contains(x) == (q@.take(i as int).contains(x) || x == q@[i
                    as int]));
                assert(pre.contains(x) <==> q@.take(i as int).contains(x));
                if e != k {
                    assert(out@ == pre.push(e));
                    assert(out@.contains(x) == (pre.contains(x) || x == e));
                } else {
                    assert(out@ == pre);
                }
            }
        }
        i = i + 1;
    }
    proof {
        assert(q@.take(q@.len() as int) =~= q@);
        if out@.contains(k) {
            let j = choose|j: int| 0 <= j < out@.len() && out@[j] == k;
        }
    }
    out
}

/// All pending identities except the one just resolved.
fn remove_key_id(q: &Vec<IdKey>, k: IdKey) -> (r: Vec<IdKey>)
    ensures
        !r@.contains(k),
        forall|x: IdKey| x != k ==> (r@.contains(x) <==> q@.contains(x)),
{
    let mut out: Vec<IdKey> = Vec::new();
    let mut i: usize = 0;
    proof {
        assert(q@.take(0) =~= Seq::<IdKey>::empty());
    }
    while i < q.len()
        invariant
            i <= q@.len(),
            forall|j: int| 0 <= j < out@.len() ==> out@[j] != k,
            forall|x: IdKey| x != k ==> (out@.contains(x) <==> q@.take(i as int).contains(x)),
        decreases q@.len() - i,
    {
        let e = q[i];
        let ghost pre = out@;
        proof {
            assert(forall|x: IdKey|
                x != k ==> (pre.contains(x) <==> q@.take(i as int).contains(x)));
        }
        if e != k {
            out.push(e);
        }
        proof {
            assert(q@.take(i + 1) =~= q@.take(i as int).push(q@[i as int]));
            assert forall|x: IdKey| x != k implies (out@.contains(x) <==> q@.take(
                i + 1,
            ).contains(x)) by {
                lemma_contains_push_key(pre, e);
                lemma_contains_push_key(q@.take(i as int), q@[i as int]);
                assert(e == q@[i as int]);
                assert(q@.take(i + 1).contains(x) == (q@.take(i as int).contains(x) || x == q@[i
                    as int]));
                assert(pre.contains(x) <==> q@.take(i as int).contains(x));
                if e != k {
                    assert(out@ == pre.push(e));
                    assert(out@.contains(x) == (pre.contains(x) || x == e));
                } else {
                    assert(out@ == pre);
                }
            }
        }
        i = i + 1;
    }
    proof {
        assert(q@.take(q@.len() as int) =~= q@);
        if out@.contains(k) {
            let j = choose|j: int| 0 <= j < out@.len() && out@[j] == k;
        }
    }
    out
}

/// What a sequence contains after a push.
proof fn lemma_contains_push_addr(s: Seq<IdAddress>, e: IdAddress)
    ensures
        forall|x: IdAddress| s.push(e).contains(x) <==> (s.contains(x) || x == e),
{
    assert forall|x: IdAddress| s.push(e).contains(x) implies (s.contains(x) || x == e) by {
        let j = choose|j: int| 0 <= j < s.push(e).len() && s.push(e)[j] == x;
        if j < s.len() {
            assert(s[j] == x);
        }
    }
    assert forall|x: IdAddress| (s.contains(x) || x == e) implies s.push(e).contains(x) by {
        if x == e {
            assert(s.push(e)[s.len() as int] == x);
        } else {
            let j = choose|j: int| 0 <= j < s.len() && s[j] == x;
            assert(s.push(e)[j] == x);
        }
    }
}

/// What a sequence contains after a push.
proof fn lemma_contains_push_key(s: Seq<IdKey>, e: IdKey)
    ensures
        forall|x: IdKey| s.push(e).contains(x) <==> (s.contains(x) || x == e),
{
    assert forall|x: IdKey| s.push(e).contains(x) implies (s.contains(x) || x == e) by {
        let j = choose|j: int| 0 <= j < s.push(e).len() && s.push(e)[j] == x;
        if j < s.len() {
            assert(s[j] == x);
        }
    }
    assert forall|x: IdKey| (s.contains(x) || x == e) implies s.push(e).contains(x) by {
        if x == e {
            assert(s.push(e)[s.len() as int] == x);
        } else {
            let j = choose|j: int| 0 <= j < s.len() && s[j] == x;
            assert(s.push(e)[j] == x);
        }
    }
}

/// Copy a pending-identity list.
fn copy_addrs(q: &Vec<IdAddress>) -> (r: Vec<IdAddress>)
    ensures
        r@ == q@,
{
    let mut r: Vec<IdAddress> = Vec::new();
    let mut i: usize = 0;
    while i < q.len()
        invariant
            i <= q@.len(),
            r@ == q@.subrange(0, i as int),
        decreases q@.len() - i,
    {
        r.push(q[i]);
        proof {
            assert(r@ =~= q@.subrange(0, i + 1));
        }
        i = i + 1;
    }
    proof {
        assert(r@ =~= q@);
    }
    r
}

/// Copy a pending-identity list.
fn copy_id_keys(q: &Vec<IdKey>) -> (r: Vec<IdKey>)
    ensures
        r@ == q@,
{
    let mut r: Vec<IdKey> = Vec::new();
    let mut i: usize = 0;
    while i < q.len()
        invariant
            i <= q@.len(),
            r@ == q@.subrange(0, i as int),
        decreases q@.len() - i,
    {
        r.push(q[i]);
        proof {
            assert(r@ =~= q@.subrange(0, i + 1));
        }
        i = i + 1;
    }
    proof {
        assert(r@ =~= q@);
    }
    r
}

/// Appending to a queue raises the count of the appended identity by one.
proof fn lemma_count_push<T>(q: Seq<T>, x: T, k: T)
    ensures
        count_of(q.push(x), k) == count_of(q, k) + if x == k {
            1int
        } else {
            0int
        },
{
    assert(q.push(x).drop_last() =~= q);
}

/// An identity is in a queue exactly when its count there is positive.
proof fn lemma_contains_iff_counted<T>(q: Seq<T>, k: T)
    ensures
        q.contains(k) <==> count_of(q, k) > 0,
        count_of(q, k) >= 0,
    decreases q.len(),
{
    if q.len() > 0 {
        lemma_contains_iff_counted(q.drop_last(), k);
        if q.contains(k) {
            let j = choose|j: int| 0 <= j < q.len() && q[j] == k;
            if j < q.len() - 1 {
                assert(q.drop_last()[j] == k);
            }
        }
        if count_of(q, k) > 0 {
            if q.last() == k {
                assert(q[q.len() - 1] == k);
            } else {
                let j = choose|j: int| 0 <= j < q.drop_last().len() && q.drop_last()[j] == k;
                assert(q[j] == k);
            }
        }
    }
}

/// LAW: a concentrated-liquidity swap for a pool key never seen before
/// creates the entry and enqueues it for config refresh exactly once, and a
/// second swap for the same key arriving before the refresh completes
/// neither duplicates nor removes the pending entry.
pub proof fn lemma_v3_fresh_key_enqueued_once(
    s0: MasterContextV,
    ev1: V3SwapEvent,
    ev2: V3SwapEvent,
    chain_id: u64,
)
    requires
        ev1.address == ev2.address,
        !s0.v3.dom().contains(IdAddress { id: chain_id, address: ev1.address }),
        !s0.v3_queue.contains(IdAddress { id: chain_id, address: ev1.address }),
    ensures
        ({
            let k = IdAddress { id: chain_id, address: ev1.address };
            let s1 = v3_swap_step(s0, ev1, chain_id);
            let s2 = v3_swap_step(s1, ev2, chain_id);
            &&& s1.v3.dom().contains(k)
            &&& s2.v3.dom().contains(k)
            &&& count_of(s1.v3_queue, k) == 1
            &&& count_of(s2.v3_queue, k) == 1
        }),
{
    let k = IdAddress { id: chain_id, address: ev1.address };
    let s1 = v3_swap_step(s0, ev1, chain_id);
    let s2 = v3_swap_step(s1, ev2, chain_id);
    lemma_contains_iff_counted(s0.v3_queue, k);
    lemma_count_push(s0.v3_queue, k, k);
    assert(s1.v3_queue == s0.v3_queue.push(k));
    assert(count_of(s1.v3_queue, k) == 1);
    lemma_contains_iff_counted(s1.v3_queue, k);
    assert(s1.v3_queue.contains(k));
    assert(s1.v3[k].config is None);
    assert(s2.v3_queue == s1.v3_queue);
}

/// The registry's lifecycle invariant: an identity sits in a pending queue
/// exactly while the data that queue refreshes is missing — reserves for
/// constant-product entries, configuration for concentrated-liquidity
/// entries, state for singleton-variant entries — and a queued identity
/// always has an entry.
pub open spec fn registry_consistent(s: MasterContextV) -> bool {
    &&& forall|k: IdAddress|
        #[trigger] s.v2_queue.contains(k) ==> s.v2.dom().contains(k) && s.v2[k].state is None
    &&& forall|k: IdAddress|
        #[trigger] s.v2.dom().contains(k) && s.v2[k].state is None ==> s.v2_queue.contains(k)
    &&& forall|k: IdAddress|
        #[trigger] s.v3_queue.contains(k) ==> s.v3.dom().contains(k) && s.v3[k].config is None
    &&& forall|k: IdAddress|
        #[trigger] s.v3.dom().contains(k) && s.v3[k].config is None ==> s.v3_queue.contains(k)
    &&& forall|k: IdKey|
        #[trigger] s.v4_queue.contains(k) ==> s.v4.dom().contains(k) && s.v4[k].state is None
    &&& forall|k: IdKey|
        #[trigger] s.v4.dom().contains(k) && s.v4[k].state is None ==> s.v4_queue.contains(k)
}

/// LAW: every event handler keeps the registry's lifecycle invariant.
pub proof fn lemma_swap_steps_preserve_consistency(
    s: MasterContextV,
    ev2: V2SwapEvent,
    ev3: V3SwapEvent,
    ev4: V4SwapEvent,
    chain_id: u64,
)
    requires
        registry_consistent(s),
    ensures
        registry_consistent(v2_swap_step(s, ev2, chain_id)),
        registry_consistent(v3_swap_step(s, ev3, chain_id)),
        registry_consistent(v4_swap_step(s, ev4, chain_id)),
{
    let k2 = IdAddress { id: chain_id, address: ev2.address };
    let s1 = v2_swap_step(s, ev2, chain_id);
    lemma_contains_push_addr(s.v2_queue, k2);
    if s.v2.dom().contains(k2) {
        if s.v2[k2].state is Some {
            assert forall|k: IdAddress|
                #[trigger] s1.v2.dom().contains(k) && s1.v2[k].state is None implies s1
                .v2_queue.contains(k) by {
                if k != k2 {
                    assert(s.v2.dom().contains(k) && s.v2[k].state is None);
                }
            }
        } else {
            assert(s.v2_queue.contains(k2));
            assert(s1.v2_queue == s.v2_queue);
        }
    } else {
        assert(!s.v2_queue.contains(k2)) by {
            if s.v2_queue.contains(k2) {
                assert(s.v2.dom().contains(k2));
            }
        }
        assert(s1.v2_queue == s.v2_queue.push(k2));
        assert forall|k: IdAddress| #[trigger] s1.v2_queue.contains(k) implies s1.v2.dom().contains(
            k,
        ) && s1.v2[k].state is None by {
            if k != k2 {
                assert(s.v2_queue.contains(k));
            }
        }
        assert forall|k: IdAddress|
            #[trigger] s1.v2.dom().contains(k) && s1.v2[k].state is None implies s1
            .v2_queue.contains(k) by {
            if k != k2 {
                assert(s.v2.dom().contains(k) && s.v2[k].state is None);
            }
        }
    }
    let k3 = IdAddress { id: chain_id, address: ev3.address };
    let s3 = v3_swap_step(s, ev3, chain_id);
    lemma_contains_push_addr(s.v3_queue, k3);
    if s.v3.dom().contains(k3) {
        if s.v3[k3].config is Some {
            assert(s3.v3_queue == s.v3_queue);
            assert forall|k: IdAddress|
                #[trigger] s3.v3.dom().contains(k) && s3.v3[k].config is None implies s3
                .v3_queue.contains(k) by {
                if k != k3 {
                    assert(s.v3.dom().contains(k) && s.v3[k].config is None);
                }
            }
            assert forall|k: IdAddress| #[trigger] s3.v3_queue.contains(k) implies s3
                .v3.dom().contains(k) && s3.v3[k].config is None by {
                assert(s.v3.dom().contains(k) && s.v3[k].config is None);
                if k == k3 {
                }
            }
        } else {
            assert(s.v3_queue.contains(k3));
            assert(s3.v3_queue == s.v3_queue);
            assert forall|k: IdAddress|
                #[trigger] s3.v3.dom().contains(k) && s3.v3[k].config is None implies s3
                .v3_queue.contains(k) by {
                if k != k3 {
                    assert(s.v3.dom().contains(k) && s.v3[k].config is None);
                }
            }
        }
    } else {
        assert(!s.v3_queue.contains(k3)) by {
            if s.v3_queue.contains(k3) {
                assert(s.v3.dom().contains(k3));
            }
        }
        assert(s3.v3_queue == s.v3_queue.push(k3));
        assert forall|k: IdAddress| #[trigger] s3.v3_queue.contains(k) implies s3.v3.dom().contains(
            k,
        ) && s3.v3[k].config is None by {
            if k != k3 {
                assert(s.v3_queue.contains(k));
            }
        }
        assert forall|k: IdAddress|
            #[trigger] s3.v3.dom().contains(k) && s3.v3[k].config is None implies s3
            .v3_queue.contains(k) by {
            if k != k3 {
                assert(s.v3.dom().contains(k) && s.v3[k].config is None);
            }
        }
    }
    let k4 = IdKey { id: chain_id, key: ev4.id };
    let s4 = v4_swap_step(s, ev4, chain_id);
    lemma_contains_push_key(s.v4_queue, k4);
    if s.v4.dom().contains(k4) {
        if s.v4[k4].state is Some {
            assert forall|k: IdKey|
                #[trigger] s4.v4.dom().contains(k) && s4.v4[k].state is None implies s4
                .v4_queue.contains(k) by {
                if k != k4 {
                    assert(s.v4.dom().contains(k) && s.v4[k].state is None);
                }
            }
        } else {
            assert(s.v4_queue.contains(k4));
            assert(s4.v4_queue == s.v4_queue);
        }
    } else {
        assert(!s.v4_queue.contains(k4)) by {
            if s.v4_queue.contains(k4) {
                assert(s.v4.dom().contains(k4));
            }
        }
        assert(s4.v4_queue == s.v4_queue.push(k4));
        assert forall|k: IdKey| #[trigger] s4.v4_queue.contains(k) implies s4.v4.dom().contains(k)
            && s4.v4[k].state is None by {
            if k != k4 {
                assert(s.v4_queue.contains(k));
            }
        }
        assert forall|k: IdKey|
            #[trigger] s4.v4.dom().contains(k) && s4.v4[k].state is None implies s4
            .v4_queue.contains(k) by {
            if k != k4 {
                assert(s.v4.dom().contains(k) && s.v4[k].state is None);
            }
        }
    }
}

/// LAW: resolving reserves keeps the registry's lifecycle invariant. The
/// relation is the one `resolve_v2_reserves` ensures: the reserves are
/// written and the identity leaves its queue, everything else untouched.
pub proof fn lemma_resolve_v2_preserves_consistency(
    s: MasterContextV,
    s2: MasterContextV,
    key: IdAddress,
    st: V2State,
)
    requires
        registry_consistent(s),
        s2.v2 == (if s.v2.dom().contains(key) {
            s.v2.insert(key, V2EntryV { state: Some(st), ..s.v2[key] })
        } else {
            s.v2
        }),
        !s2.v2_queue.contains(key),
        forall|x: IdAddress| x != key ==> (s2.v2_queue.contains(x) <==> s.v2_queue.contains(x)),
        s2.v3 == s.v3,
        s2.v4 == s.v4,
        s2.v3_queue == s.v3_queue,
        s2.v4_queue == s.v4_queue,
    ensures
        registry_consistent(s2),
{
}

/// LAW: resolving a configuration keeps the registry's lifecycle invariant.
pub proof fn lemma_resolve_v3_preserves_consistency(
    s: MasterContextV,
    s2: MasterContextV,
    key: IdAddress,
    cfg: V3ConfigV,
)
    requires
        registry_consistent(s),
        s2.v3 == (if s.v3.dom().contains(key) {
            s.v3.insert(key, V3EntryV { config: Some(cfg), ..s.v3[key] })
        } else {
            s.v3
        }),
        !s2.v3_queue.contains(key),
        forall|x: IdAddress| x != key ==> (s2.v3_queue.contains(x) <==> s.v3_queue.contains(x)),
        s2.v2 == s.v2,
        s2.v4 == s.v4,
        s2.v2_queue == s.v2_queue,
        s2.v4_queue == s.v4_queue,
    ensures
        registry_consistent(s2),
{
}

/// LAW: resolving singleton-variant state keeps the registry's lifecycle
/// invariant.
pub proof fn lemma_resolve_v4_preserves_consistency(
    s: MasterContextV,
    s2: MasterContextV,
    key: IdKey,
    st: V3StateV,
)
    requires
        registry_consistent(s),
        s2.v4 == (if s.v4.dom().contains(key) {
            s.v4.insert(key, V4EntryV { state: Some(st), ..s.v4[key] })
        } else {
            s.v4
        }),
        !s2.v4_queue.contains(key),
        forall|x: IdKey| x != key ==> (s2.v4_queue.contains(x) <==> s.v4_queue.contains(x)),
        s2.v2 == s.v2,
        s2.v3 == s.v3,
        s2.v2_queue == s.v2_queue,
        s2.v3_queue == s.v3_queue,
    ensures
        registry_consistent(s2),
{
}

} // verus!
