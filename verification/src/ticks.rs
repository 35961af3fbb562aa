//! The ordered, deduplicated tick list of a concentrated-liquidity pool.
//!
//! A `Ticks` value holds `(tick, liquidity-net)` pairs sorted strictly
//! ascending by tick. Construction and merge-insert keep the order and the
//! uniqueness, and on a tick collision the entry arriving later wins.
use vstd::prelude::*;

verus! {

/// One initialized tick: its index and, when it has been loaded, the signed
/// change of active liquidity when the price crosses it.
#[derive(Clone, Copy, Debug, PartialEq, Eq)]
pub struct Tick {
    pub tick: i32,
    pub liquidity_net: Option<i128>,
}

/// Strictly ascending by tick index, hence free of duplicates.
pub open spec fn sorted_unique(s: Seq<Tick>) -> bool {
    forall|i: int, j: int| 0 <= i < j < s.len() ==> s[i].tick < s[j].tick
}

/// Whether some entry carries the given tick index.
pub open spec fn has_tick(s: Seq<Tick>, t: int) -> bool {
    exists|i: int| 0 <= i < s.len() && s[i].tick == t
}

/// The entry of the given tick index; meaningful on sequences where it is
/// unique.
pub open spec fn entry_of(s: Seq<Tick>, t: int) -> Tick {
    s[choose|i: int| 0 <= i < s.len() && s[i].tick == t]
}

/// The position of a tick index held by the sequence.
pub open spec fn index_of_tick(s: Seq<Tick>, t: int) -> int {
    choose|i: int| 0 <= i < s.len() && s[i].tick == t
}

/// The position where a tick index would be inserted: the number of leading
/// entries below it.
pub open spec fn insertion_point(s: Seq<Tick>, t: int) -> int
    decreases s.len(),
{
    if s.len() == 0 {
        0
    } else if s[0].tick < t {
        1 + insertion_point(s.skip(1), t)
    } else {
        0
    }
}

/// On a sorted sequence, any position with everything below it smaller and
/// everything from it on larger is the insertion point.
pub proof fn lemma_insertion_point_agrees(s: Seq<Tick>, t: int, i: int)
    requires
        0 <= i <= s.len(),
        forall|j: int| 0 <= j < i ==> #[trigger] s[j].tick < t,
        forall|j: int| i <= j < s.len() ==> #[trigger] s[j].tick > t,
    ensures
        insertion_point(s, t) == i,
    decreases s.len(),
{
    if s.len() == 0 {
    } else if s[0].tick < t {
        assert(i > 0) by {
            if i == 0 {
                assert(s[0].tick > t);
            }
        }
        lemma_insertion_point_agrees(s.skip(1), t, i - 1);
    } else {
        assert(i == 0) by {
            if i > 0 {
                assert(s[0].tick < t);
            }
        }
    }
}

/// On a sorted sequence without the index, everything below the insertion
/// point is smaller and everything from it on is larger.
pub proof fn lemma_insertion_point_props(s: Seq<Tick>, t: int)
    requires
        sorted_unique(s),
        !has_tick(s, t),
    ensures
        0 <= insertion_point(s, t) <= s.len(),
        forall|j: int| 0 <= j < insertion_point(s, t) ==> #[trigger] s[j].tick < t,
        forall|j: int| insertion_point(s, t) <= j < s.len() ==> #[trigger] s[j].tick > t,
    decreases s.len(),
{
    if s.len() == 0 {
    } else if s[0].tick < t {
        assert(sorted_unique(s.skip(1))) by {
            assert(forall|a: int|
                0 <= a < s.skip(1).len() ==> #[trigger] s.skip(1)[a] == s[a + 1]);
        }
        assert(!has_tick(s.skip(1), t)) by {
            if has_tick(s.skip(1), t) {
                let j = choose|j: int| 0 <= j < s.skip(1).len() && s.skip(1)[j].tick == t;
                assert(s[j + 1].tick == t);
            }
        }
        lemma_insertion_point_props(s.skip(1), t);
        assert(forall|a: int| 0 <= a < s.skip(1).len() ==> #[trigger] s.skip(1)[a] == s[a + 1]);
        let ip = insertion_point(s, t);
        assert(ip == 1 + insertion_point(s.skip(1), t));
        assert forall|j: int| 0 <= j < ip implies #[trigger] s[j].tick < t by {
            if j >= 1 {
                assert(s.skip(1)[j - 1] == s[j]);
                assert(s.skip(1)[j - 1].tick < t);
            }
        }
        assert forall|j: int| ip <= j < s.len() implies #[trigger] s[j].tick > t by {
            assert(s.skip(1)[j - 1] == s[j]);
            assert(s.skip(1)[j - 1].tick > t);
        }
    } else {
        assert(s[0].tick != t);
        assert(s[0].tick > t);
        assert(forall|j: int| 1 <= j < s.len() ==> s[0].tick < #[trigger] s[j].tick);
    }
}

/// The entry of the last occurrence of a tick index.
pub open spec fn find_last(s: Seq<Tick>, t: int) -> Tick
    decreases s.len(),
{
    if s.len() == 0 {
        Tick { tick: 0, liquidity_net: None }
    } else if s.last().tick == t {
        s.last()
    } else {
        find_last(s.drop_last(), t)
    }
}

/// In a sorted-unique sequence the entry of a tick index is the one at any
/// position holding it.
pub proof fn lemma_entry_at(s: Seq<Tick>, i: int)
    requires
        sorted_unique(s),
        0 <= i < s.len(),
    ensures
        entry_of(s, s[i].tick as int) == s[i],
        has_tick(s, s[i].tick as int),
{
    let t = s[i].tick as int;
    assert(0 <= i < s.len() && s[i].tick == t);
    let j = choose|j: int| 0 <= j < s.len() && s[j].tick == t;
    if i < j {
        assert(s[i].tick < s[j].tick);
    }
    if j < i {
        assert(s[j].tick < s[i].tick);
    }
}

#[derive(Debug)]
pub struct Ticks {
    ticks: Vec<Tick>,
}

impl View for Ticks {
    type V = Seq<Tick>;

    closed spec fn view(&self) -> Seq<Tick> {
        self.ticks@
    }
}

impl Ticks {
    #[verifier::type_invariant]
    closed spec fn wf(self) -> bool {
        sorted_unique(self.ticks@)
    }

    /// An ordered, deduplicated list built from arbitrary input: the entries
    /// are exactly the input's tick indices, each carrying the payload of its
    /// last occurrence in the input.
    pub fn new(ticks: Vec<Tick>) -> (r: Ticks)
        ensures
            sorted_unique(r@),
            forall|t: int| has_tick(r@, t) <==> has_tick(ticks@, t),
            forall|i: int| 0 <= i < r@.len() ==> r@[i] == find_last(ticks@, r@[i].tick as int),
    {
        let mut out: Vec<Tick> = Vec::new();
        let mut k: usize = 0;
        proof {
            assert(ticks@.take(0) =~= Seq::<Tick>::empty());
        }
        while k < ticks.len()
            invariant
                k <= ticks.len(),
                sorted_unique(out@),
                forall|t: int| has_tick(out@, t) <==> has_tick(ticks@.take(k as int), t),
                forall|i: int|
                    0 <= i < out@.len() ==> out@[i] == find_last(
                        ticks@.take(k as int),
                        out@[i].tick as int,
                    ),
            decreases ticks.len() - k,
        {
            let x = ticks[k];
            let ghost pre = out@;
            insert_replace(&mut out, x);
            proof {
                lemma_take_step(ticks@, k as int);
                assert(forall|t: int|
                    has_tick(out@, t) <==> has_tick(ticks@.take(k + 1), t)) by {
                    assert(forall|t: int|
                        has_tick(ticks@.take(k + 1), t) <==> (has_tick(ticks@.take(k as int), t)
                            || t == x.tick)) by {
                        lemma_has_tick_snoc(ticks@.take(k as int), x);
                    }
                }
                assert forall|i: int| 0 <= i < out@.len() implies out@[i] == find_last(
                    ticks@.take(k + 1),
                    out@[i].tick as int,
                ) by {
                    let t = out@[i].tick as int;
                    lemma_entry_at(out@, i);
                    if t == x.tick {
                        assert(out@[i] == x);
                    } else {
                        assert(entry_of(out@, t) == entry_of(pre, t));
                        assert(has_tick(pre, t));
                        let j = choose|j: int| 0 <= j < pre.len() && pre[j].tick == t;
                        lemma_entry_at(pre, j);
                        assert(out@[i] == pre[j]);
                        assert(pre[j] == find_last(ticks@.take(k as int), t));
                    }
                }
            }
            k = k + 1;
        }
        proof {
            assert(ticks@.take(ticks@.len() as int) =~= ticks@);
        }
        Ticks { ticks: out }
    }

    /// Binary search: the position of the tick, or the position where it
    /// would be inserted.
    pub fn get_tick_index(&self, tick: i32) -> (r: Result<usize, usize>)
        ensures
            sorted_unique(self@),
            match r {
                Ok(i) => 0 <= i < self@.len() && self@[i as int].tick == tick && i
                    == index_of_tick(self@, tick as int) && has_tick(self@, tick as int),
                Err(i) => i <= self@.len() && !has_tick(self@, tick as int) && (forall|j: int|
                    0 <= j < i ==> self@[j].tick < tick) && (forall|j: int|
                    i <= j < self@.len() ==> self@[j].tick > tick) && i == insertion_point(
                    self@,
                    tick as int,
                ),
            },
    {
        proof {
            use_type_invariant(self);
        }
        let mut lo: usize = 0;
        let mut hi: usize = self.ticks.len();
        while lo < hi
            invariant
                lo <= hi <= self.ticks@.len(),
                sorted_unique(self.ticks@),
                forall|j: int| 0 <= j < lo ==> self.ticks@[j].tick < tick,
                forall|j: int| hi <= j < self.ticks@.len() ==> self.ticks@[j].tick > tick,
            decreases hi - lo,
        {
            let mid = lo + (hi - lo) / 2;
            let v = self.ticks[mid].tick;
            if v == tick {
                proof {
                    lemma_entry_at(self@, mid as int);
                    let j = index_of_tick(self@, tick as int);
                    assert(0 <= j < self@.len() && self@[j].tick == tick);
                    if j < mid {
                        assert(self@[j].tick < self@[mid as int].tick);
                    }
                    if mid < j {
                        assert(self@[mid as int].tick < self@[j].tick);
                    }
                }
                return Ok(mid);
            } else if v < tick {
                proof {
                    assert(forall|j: int|
                        0 <= j <= mid ==> self.ticks@[j].tick <= self.ticks@[mid as int].tick);
                }
                lo = mid + 1;
            } else {
                hi = mid;
            }
        }
        proof {
            if has_tick(self@, tick as int) {
                let i = choose|i: int| 0 <= i < self@.len() && self@[i].tick == tick;
                assert(self@[i].tick == tick);
            }
            lemma_insertion_point_agrees(self@, tick as int, lo as int);
        }
        Err(lo)
    }

    /// The entry of a tick index, or the position where it would be inserted.
    pub fn get_tick(&self, tick: i32) -> (r: Result<Tick, usize>)
        ensures
            sorted_unique(self@),
            match r {
                Ok(tk) => has_tick(self@, tick as int) && tk == entry_of(self@, tick as int)
                    && tk.tick == tick,
                Err(i) => i <= self@.len() && !has_tick(self@, tick as int) && (forall|j: int|
                    0 <= j < i ==> self@[j].tick < tick) && (forall|j: int|
                    i <= j < self@.len() ==> self@[j].tick > tick),
            },
    {
        match self.get_tick_index(tick) {
            Ok(i) => {
                proof {
                    lemma_entry_at(self@, i as int);
                }
                Ok(self.ticks[i])
            },
            Err(i) => Err(i),
        }
    }

    /// Merge another batch of entries in: order and uniqueness are kept, the
    /// merged set of tick indices is the union, and on a collision the
    /// incoming entry wins (within the batch, its last occurrence).
    pub fn insert_ticks(&mut self, ticks: Vec<Tick>)
        ensures
            sorted_unique(final(self)@),
            forall|t: int|
                has_tick(final(self)@, t) <==> (has_tick(old(self)@, t) || has_tick(ticks@, t)),
            forall|t: int|
                has_tick(ticks@, t) ==> entry_of(final(self)@, t) == find_last(ticks@, t),
            forall|t: int|
                !has_tick(ticks@, t) && has_tick(old(self)@, t) ==> entry_of(final(self)@, t)
                    == entry_of(old(self)@, t),
    {
        proof {
            use_type_invariant(&*self);
        }
        if ticks.len() == 0 {
            return ;
        }
        let ghost self0 = self.ticks@;
        let mut tv = copy_ticks(&self.ticks);
        let mut k: usize = 0;
        proof {
            assert(ticks@.take(0) =~= Seq::<Tick>::empty());
        }
        while k < ticks.len()
            invariant
                k <= ticks.len(),
                sorted_unique(tv@),
                forall|t: int|
                    has_tick(tv@, t) <==> (has_tick(self0, t) || has_tick(
                        ticks@.take(k as int),
                        t,
                    )),
                forall|t: int|
                    has_tick(ticks@.take(k as int), t) ==> entry_of(tv@, t) == find_last(
                        ticks@.take(k as int),
                        t,
                    ),
                forall|t: int|
                    !has_tick(ticks@.take(k as int), t) && has_tick(self0, t) ==> entry_of(
                        tv@,
                        t,
                    ) == entry_of(self0, t),
            decreases ticks.len() - k,
        {
            let x = ticks[k];
            let ghost pre = tv@;
            proof {
                assert(forall|t: int|
                    has_tick(pre, t) <==> (has_tick(self0, t) || has_tick(
                        ticks@.take(k as int),
                        t,
                    )));
                assert(forall|t: int|
                    has_tick(ticks@.take(k as int), t) ==> entry_of(pre, t) == find_last(
                        ticks@.take(k as int),
                        t,
                    ));
                assert(forall|t: int|
                    !has_tick(ticks@.take(k as int), t) && has_tick(self0, t) ==> entry_of(pre, t)
                        == entry_of(self0, t));
            }
            insert_replace(&mut tv, x);
            proof {
                lemma_take_step(ticks@, k as int);
                lemma_has_tick_snoc(ticks@.take(k as int), x);
                assert(forall|t: int|
                    has_tick(ticks@.take(k + 1), t) <==> (has_tick(ticks@.take(k as int), t) || t
                        == x.tick));
                assert forall|t: int| has_tick(tv@, t) implies (has_tick(self0, t) || has_tick(
                    ticks@.take(k + 1),
                    t,
                )) by {
                    if t == x.tick {
                        assert(has_tick(ticks@.take(k + 1), t));
                    } else {
                        assert(has_tick(pre, t));
                    }
                }
                assert forall|t: int| (has_tick(self0, t) || has_tick(ticks@.take(k + 1), t))
                    implies has_tick(tv@, t) by {
                    if t == x.tick {
                    } else if has_tick(self0, t) {
                        assert(has_tick(pre, t));
                    } else {
                        assert(has_tick(ticks@.take(k as int), t));
                        assert(has_tick(pre, t));
                    }
                }
                assert forall|t: int| has_tick(ticks@.take(k + 1), t) implies entry_of(
                    tv@,
                    t,
                ) == find_last(ticks@.take(k + 1), t) by {
                    if t == x.tick {
                    } else {
                        assert(has_tick(ticks@.take(k as int), t));
                        assert(has_tick(pre, t));
                        assert(entry_of(tv@, t) == entry_of(pre, t));
                        assert(find_last(ticks@.take(k + 1), t) == find_last(
                            ticks@.take(k as int),
                            t,
                        ));
                    }
                }
                assert forall|t: int| !has_tick(ticks@.take(k + 1), t) && has_tick(self0, t)
                    implies entry_of(tv@, t) == entry_of(self0, t) by {
                    assert(t != x.tick);
                    assert(has_tick(pre, t));
                    assert(entry_of(tv@, t) == entry_of(pre, t));
                    assert(!has_tick(ticks@.take(k as int), t));
                }
            }
            k = k + 1;
        }
        proof {
            assert(k == ticks@.len());
            assert(ticks@.take(k as int) =~= ticks@);
            assert(forall|t: int|
                has_tick(tv@, t) <==> (has_tick(self0, t) || has_tick(ticks@, t)));
            assert(forall|t: int|
                has_tick(ticks@, t) ==> entry_of(tv@, t) == find_last(ticks@, t));
            assert(forall|t: int|
                !has_tick(ticks@, t) && has_tick(self0, t) ==> entry_of(tv@, t) == entry_of(
                    self0,
                    t,
                ));
        }
        self.ticks = tv;
    }

    pub fn len(&self) -> (r: usize)
        ensures
            r == self@.len(),
            sorted_unique(self@),
    {
        proof {
            use_type_invariant(self);
        }
        self.ticks.len()
    }

    /// The entry at a position of the ordered list.
    pub fn get(&self, index: usize) -> (r: Option<&Tick>)
        ensures
            sorted_unique(self@),
            match r {
                Some(tk) => index < self@.len() && *tk == self@[index as int],
                None => index >= self@.len(),
            },
    {
        proof {
            use_type_invariant(self);
        }
        if index < self.ticks.len() {
            Some(&self.ticks[index])
        } else {
            None
        }
    }
}

/// An element-wise copy of a tick list.
fn copy_ticks(v: &Vec<Tick>) -> (r: Vec<Tick>)
    ensures
        r@ == v@,
{
    let mut r: Vec<Tick> = Vec::new();
    let mut i: usize = 0;
    while i < v.len()
        invariant
            i <= v@.len(),
            r@ == v@.subrange(0, i as int),
        decreases v@.len() - i,
    {
        r.push(v[i]);
        proof {
            assert(r@ =~= v@.subrange(0, i + 1));
        }
        i = i + 1;
    }
    proof {
        assert(r@ =~= v@);
    }
    r
}

/// Extending a prefix by one element.
proof fn lemma_take_step(s: Seq<Tick>, k: int)
    requires
        0 <= k < s.len(),
    ensures
        s.take(k + 1) =~= s.take(k).push(s[k]),
        s.take(k + 1).drop_last() =~= s.take(k),
        forall|t: int|
            find_last(s.take(k + 1), t) == (if s[k].tick == t {
                s[k]
            } else {
                find_last(s.take(k), t)
            }),
{
    assert(s.take(k + 1) =~= s.take(k).push(s[k]));
    assert(s.take(k + 1).drop_last() =~= s.take(k));
    assert forall|t: int|
        find_last(s.take(k + 1), t) == (if s[k].tick == t {
            s[k]
        } else {
            find_last(s.take(k), t)
        }) by {
        assert(s.take(k + 1).last() == s[k]);
        if s[k].tick == t {
        } else {
            assert(find_last(s.take(k + 1), t) == find_last(s.take(k + 1).drop_last(), t));
        }
    }
}

/// Membership in a sequence extended by one element.
proof fn lemma_has_tick_snoc(s: Seq<Tick>, x: Tick)
    ensures
        forall|t: int| has_tick(s.push(x), t) <==> (has_tick(s, t) || t == x.tick),
{
    assert forall|t: int| has_tick(s.push(x), t) implies (has_tick(s, t) || t == x.tick) by {
        let i = choose|i: int| 0 <= i < s.push(x).len() && s.push(x)[i].tick == t;
        if i < s.len() {
            assert(s[i].tick == t);
        }
    }
    assert forall|t: int| (has_tick(s, t) || t == x.tick) implies has_tick(s.push(x), t) by {
        if t == x.tick {
            assert(s.push(x)[s.len() as int].tick == t);
        } else {
            let i = choose|i: int| 0 <= i < s.len() && s[i].tick == t;
            assert(s.push(x)[i].tick == t);
        }
    }
}

/// Insert an entry into a sorted-unique list, replacing the entry of the same
/// tick if one is there.
fn insert_replace(v: &mut Vec<Tick>, x: Tick)
    requires
        sorted_unique(old(v)@),
    ensures
        sorted_unique(final(v)@),
        forall|t: int| has_tick(final(v)@, t) <==> (has_tick(old(v)@, t) || t == x.tick),
        entry_of(final(v)@, x.tick as int) == x,
        has_tick(final(v)@, x.tick as int),
        forall|t: int|
            t != x.tick && has_tick(old(v)@, t) ==> entry_of(final(v)@, t) == entry_of(
                old(v)@,
                t,
            ),
{
    let ghost v0 = v@;
    let mut i: usize = 0;
    while i < v.len() && v[i].tick < x.tick
        invariant
            i <= v@.len(),
            v@ == v0,
            sorted_unique(v@),
            forall|j: int| 0 <= j < i ==> v@[j].tick < x.tick,
        decreases v@.len() - i,
    {
        i = i + 1;
    }
    if i < v.len() && v[i].tick == x.tick {
        v.set(i, x);
        proof {
            assert(v@ =~= v0.update(i as int, x));
            assert(sorted_unique(v@)) by {
                assert(forall|j: int|
                    0 <= j < v@.len() && j != i ==> v@[j] == v0[j] && v@[j].tick == v0[j].tick);
            }
            lemma_entry_at(v@, i as int);
            assert forall|t: int| has_tick(v@, t) implies (has_tick(v0, t) || t == x.tick) by {
                let j = choose|j: int| 0 <= j < v@.len() && v@[j].tick == t;
                if j != i {
                    assert(v0[j].tick == t);
                }
            }
            assert forall|t: int| has_tick(v0, t) implies has_tick(v@, t) by {
                let j = choose|j: int| 0 <= j < v0.len() && v0[j].tick == t;
                if j == i {
                    assert(v@[j].tick == t);
                } else {
                    assert(v@[j].tick == t);
                }
            }
            assert forall|t: int| t != x.tick && has_tick(v0, t) implies entry_of(v@, t)
                == entry_of(v0, t) by {
                let j = choose|j: int| 0 <= j < v0.len() && v0[j].tick == t;
                assert(j != i);
                assert(v@[j].tick == t);
                lemma_entry_at(v@, j);
                lemma_entry_at(v0, j);
            }
        }
    } else {
        let ghost ip = i as int;
        proof {
            if i < v@.len() {
                assert(v@[ip].tick > x.tick);
            }
            assert(forall|j: int| ip <= j < v@.len() ==> v@[j].tick >= v@[ip].tick || j == ip);
            assert(forall|j: int| ip < j < v@.len() ==> v@[ip].tick < v@[j].tick);
            assert(forall|j: int| ip <= j < v@.len() ==> v@[j].tick > x.tick);
            if has_tick(v0, x.tick as int) {
                let j = choose|j: int| 0 <= j < v0.len() && v0[j].tick == x.tick;
                assert(false);
            }
        }
        v.insert(i, x);
        proof {
            assert(v@ == v0.insert(ip, x));
            assert(v@.len() == v0.len() + 1);
            assert(forall|j: int| 0 <= j < ip ==> v@[j] == v0[j]);
            assert(v@[ip] == x);
            assert(forall|j: int| ip < j < v@.len() ==> v@[j] == v0[j - 1]);
            assert(sorted_unique(v@)) by {
                assert forall|a: int, b: int| 0 <= a < b < v@.len() implies v@[a].tick
                    < v@[b].tick by {
                    if a < ip && b == ip {
                    } else if a == ip && b > ip {
                        assert(v@[b] == v0[b - 1]);
                    } else if a < ip && b > ip {
                        assert(v@[b] == v0[b - 1]);
                    }
                }
            }
            lemma_entry_at(v@, ip);
            assert forall|t: int| has_tick(v@, t) implies (has_tick(v0, t) || t == x.tick) by {
                let j = choose|j: int| 0 <= j < v@.len() && v@[j].tick == t;
                if j < ip {
                    assert(v0[j].tick == t);
                } else if j > ip {
                    assert(v0[j - 1].tick == t);
                }
            }
            assert forall|t: int| has_tick(v0, t) implies has_tick(v@, t) by {
                let j = choose|j: int| 0 <= j < v0.len() && v0[j].tick == t;
                if j < ip {
                    assert(v@[j].tick == t);
                } else {
                    assert(v@[j + 1].tick == t);
                }
            }
            assert forall|t: int| t != x.tick && has_tick(v0, t) implies entry_of(v@, t)
                == entry_of(v0, t) by {
                let j = choose|j: int| 0 <= j < v0.len() && v0[j].tick == t;
                lemma_entry_at(v0, j);
                if j < ip {
                    assert(v@[j].tick == t);
                    lemma_entry_at(v@, j);
                } else {
                    assert(v@[j + 1].tick == t);
                    lemma_entry_at(v@, j + 1);
                }
            }
        }
    }
}

} // verus!
