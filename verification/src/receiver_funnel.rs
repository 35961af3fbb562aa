//! Fan-in of a changing set of event sources into one output.
//!
//! One owning task holds the live source set: each cycle it either applies a
//! registration or removal command or forwards the next ready item, so all
//! authoritative state lives in that task and is modeled here as plain
//! values. The output is unbounded — a slow consumer grows memory without
//! limit, a documented trade-off. Removal is cooperative: an item already in
//! flight when its source is removed may or may not still be forwarded,
//! depending on whether the removal command is applied first; the race is
//! accepted and not eliminated.
use vstd::prelude::*;

verus! {

/// A registration or removal applied by the owning task; the registered
/// source itself travels beside the command at the transport layer.
pub enum Control {
    Add { id: u32 },
    Rmv(u32),
}

/// The subscriber directory on the handle side: the identifiers handed out.
pub struct ReceiverFunnel {
    used: Vec<u32>,
}

/// The owning task's view: the sources it still forwards from.
pub struct FunnelMux {
    active: Vec<u32>,
}

impl View for ReceiverFunnel {
    type V = Seq<u32>;

    closed spec fn view(&self) -> Seq<u32> {
        self.used@
    }
}

impl View for FunnelMux {
    type V = Seq<u32>;

    closed spec fn view(&self) -> Seq<u32> {
        self.active@
    }
}

/// What a fresh allocation returns: the smallest identifier not yet in use.
pub open spec fn is_smallest_free(s: Seq<u32>, id: u32) -> bool {
    !s.contains(id) && forall|j: u32| j < id ==> s.contains(j)
}

impl ReceiverFunnel {
    /// A new funnel with no subscriptions, and the owning task's state to
    /// drive beside it.
    pub fn start() -> (r: (ReceiverFunnel, FunnelMux))
        ensures
            r.0@ == Seq::<u32>::empty(),
            r.1@ == Seq::<u32>::empty(),
    {
        (ReceiverFunnel { used: Vec::new() }, FunnelMux { active: Vec::new() })
    }

    /// Register a source: allocate the smallest unused identifier by linear
    /// search, or report exhaustion of the identifier space.
    pub fn add_subscription(&mut self) -> (r: Option<u32>)
        ensures
            match r {
                Some(id) => is_smallest_free(old(self)@, id) && final(self)@ == old(self)@.push(
                    id,
                ),
                None => (forall|j: u32| old(self)@.contains(j)) && final(self)@ == old(self)@,
            },
    {
        let mut id: u32 = 0;
        loop
            invariant
                forall|j: u32| j < id ==> self@.contains(j),
                self@ == old(self)@,
            ensures
                (self@ == old(self)@) && ((!self@.contains(id) && forall|j: u32|
                    j < id ==> self@.contains(j)) || (forall|j: u32| self@.contains(j))),
            decreases u32::MAX - id,
        {
            if !contains_u32(&self.used, id) {
                break ;
            }
            if id == u32::MAX {
                proof {
                    assert forall|j: u32| self@.contains(j) by {
                        if j < id {
                        } else {
                            assert(j == id);
                        }
                    }
                }
                return None;
            }
            id = id + 1;
        }
        if contains_u32(&self.used, id) {
            return None;
        }
        self.used.push(id);
        Some(id)
    }

    /// Deregister a source: the identifier becomes free again; forwarding
    /// from it stops once the owning task applies the matching command.
    pub fn remove_subscription(&mut self, id: u32)
        ensures
            !final(self)@.contains(id),
            forall|x: u32| x != id ==> (final(self)@.contains(x) <==> old(self)@.contains(x)),
    {
        let kept = remove_u32(&self.used, id);
        self.used = kept;
    }
}

impl FunnelMux {
    /// Apply one registration or removal command.
    pub fn handle_control(&mut self, c: Control)
        ensures
            match c {
                Control::Add { id } => final(self)@.contains(id) && (forall|x: u32|
                    x != id ==> (final(self)@.contains(x) <==> old(self)@.contains(x))),
                Control::Rmv(id) => !final(self)@.contains(id) && (forall|x: u32|
                    x != id ==> (final(self)@.contains(x) <==> old(self)@.contains(x))),
            },
    {
        match c {
            Control::Add { id } => {
                let ghost pre = self.active@;
                if !contains_u32(&self.active, id) {
                    self.active.push(id);
                    proof {
                        lemma_contains_push_u32(pre, id);
                        assert(self.active@[pre.len() as int] == id);
                    }
                }
            },
            Control::Rmv(id) => {
                let kept = remove_u32(&self.active, id);
                self.active = kept;
            },
        }
    }

    /// Whether an arriving item from the given source is still forwarded.
    pub fn should_forward(&self, id: u32) -> (r: bool)
        ensures
            r == self@.contains(id),
    {
        contains_u32(&self.active, id)
    }
}

/// LAW: after removing a subscription, an immediately following registration
/// hands the freed identifier out again exactly when every identifier below
/// it was still in use — allocation is deterministic, not reuse-order
/// dependent.
pub proof fn lemma_freed_id_reused_iff_smallest(s: Seq<u32>, removed: u32, s2: Seq<u32>, id: u32)
    requires
        !s2.contains(removed),
        forall|x: u32| x != removed ==> (s2.contains(x) <==> s.contains(x)),
        is_smallest_free(s2, id),
    ensures
        (id == removed) <==> (forall|j: u32| j < removed ==> s.contains(j)),
{
    if id == removed {
        assert forall|j: u32| j < removed implies s.contains(j) by {
            assert(s2.contains(j));
        }
    }
    if forall|j: u32| j < removed ==> s.contains(j) {
        if id < removed {
            assert(s.contains(id));
            assert(s2.contains(id));
            assert(false);
        }
        if id > removed {
            assert(s2.contains(removed));
            assert(false);
        }
    }
}

/// A membership scan over handed-out identifiers.
fn contains_u32(q: &Vec<u32>, k: u32) -> (r: bool)
    ensures
        r == q@.contains(k),
{
    let mut i: usize = 0;
    while i < q.len()
        invariant
            i <= q@.len(),
            forall|j: int| 0 <= j < i ==> q@[j] != k,
        decreases q@.len() - i,
    {
        if q[i] == k {
            assert(q@.contains(k)) by {
                assert(q@[i as int] == k);
            }
            return true;
        }
        i = i + 1;
    }
    false
}

/// All identifiers except the removed one.
fn remove_u32(q: &Vec<u32>, k: u32) -> (r: Vec<u32>)
    ensures
        !r@.contains(k),
        forall|x: u32| x != k ==> (r@.contains(x) <==> q@.contains(x)),
{
    let mut out: Vec<u32> = Vec::new();
    let mut i: usize = 0;
    proof {
        assert(q@.take(0) =~= Seq::<u32>::empty());
    }
    while i < q.len()
        invariant
            i <= q@.len(),
            forall|j: int| 0 <= j < out@.len() ==> out@[j] != k,
            forall|x: u32| x != k ==> (out@.contains(x) <==> q@.take(i as int).contains(x)),
        decreases q@.len() - i,
    {
        let e = q[i];
        let ghost pre = out@;
        proof {
            assert(forall|x: u32| x != k ==> (pre.contains(x) <==> q@.take(i as int).contains(x)));
        }
        if e != k {
            out.push(e);
        }
        proof {
            assert(q@.take(i + 1) =~= q@.take(i as int).push(q@[i as int]));
            assert forall|x: u32| x != k implies (out@.contains(x) <==> q@.take(
                i + 1,
            ).contains(x)) by {
                lemma_contains_push_u32(pre, e);
                lemma_contains_push_u32(q@.take(i as int), q@[i as int]);
                assert(e == q@[i as int]);
                assert(q@.take(i + 1).contains(x) == (q@.take(i as int).contains(x) || x == q@[i
                    as int]));
                assert(pre.contains(x) <==> q@.take(i as int).contains(x));
                if e != k {
                    assert(out@ == pre.push(e));
                    assert(out@.contains(x) == (pre.contains(x) || x == e));
                } else {
                    assert(out@ == pre);
                }
            }
        }
        i = i + 1;
    }
    proof {
        assert(q@.take(q@.len() as int) =~= q@);
        if out@.contains(k) {
            let j = choose|j: int| 0 <= j < out@.len() && out@[j] == k;
        }
    }
    out
}

/// What a sequence contains after a push.
proof fn lemma_contains_push_u32(s: Seq<u32>, e: u32)
    ensures
        forall|x: u32| s.push(e).contains(x) <==> (s.contains(x) || x == e),
{
    assert forall|x: u32| s.push(e).contains(x) implies (s.contains(x) || x == e) by {
        let j = choose|j: int| 0 <= j < s.push(e).len() && s.push(e)[j] == x;
        if j < s.len() {
            assert(s[j] == x);
        }
    }
    assert forall|x: u32| (s.contains(x) || x == e) implies s.push(e).contains(x) by {
        if x == e {
            assert(s.push(e)[s.len() as int] == x);
        } else {
            let j = choose|j: int| 0 <= j < s.len() && s[j] == x;
            assert(s.push(e)[j] == x);
        }
    }
}

} // verus!
