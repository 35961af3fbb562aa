//! Dense storage for the bitmap words of one pool.
//!
//! Word positions are signed 16-bit values; the store shifts them by the
//! spacing's share of the positive position range — the same slot function
//! for storing and looking up — to index a vector whose slots are `None`
//! until the word has been fetched.
use vstd::prelude::*;

verus! {

use crate::u256::U256;
use crate::bitmap_math;

/// The vector slot a word position occupies: positions are shifted by the
/// largest positive position of the spacing's range, so store and lookup
/// agree on one slot function.
pub open spec fn slot_of(pos: int, tick_spacing: int) -> int {
    pos + 0x7fffint / tick_spacing
}

/// The word value the last matching entry of a construction list carries.
pub open spec fn last_word_for(ws: Seq<(i16, U256)>, slot: int, tick_spacing: int) -> Option<nat>
    decreases ws.len(),
{
    if ws.len() == 0 {
        None
    } else if slot_of(ws.last().0 as int, tick_spacing) == slot {
        Some(ws.last().1@)
    } else {
        last_word_for(ws.drop_last(), slot, tick_spacing)
    }
}

pub struct BitMap {
    bitmap: Vec<Option<U256>>,
}

impl View for BitMap {
    type V = Seq<Option<nat>>;

    closed spec fn view(&self) -> Seq<Option<nat>> {
        Seq::new(
            self.bitmap@.len(),
            |i: int|
                match self.bitmap@[i] {
                    Some(w) => Some(w@),
                    None => None,
                },
        )
    }
}

impl BitMap {
    /// A store sized for the spacing, holding the given words; on a repeated
    /// position the later word wins.
    pub fn new(tick_spacing: i32, words: Vec<(i16, U256)>) -> (r: BitMap)
        requires
            tick_spacing >= 1,
            forall|j: int|
                0 <= j < words@.len() ==> 0 <= slot_of(
                    #[trigger] words@[j].0 as int,
                    tick_spacing as int,
                ) && slot_of(words@[j].0 as int, tick_spacing as int) < (65536
                    + tick_spacing as int) / tick_spacing as int,
        ensures
            r@.len() == (65536 + tick_spacing as int) / tick_spacing as int,
            forall|k: int|
                0 <= k < r@.len() ==> r@[k] == last_word_for(words@, k, tick_spacing as int),
    {
        let total_words = ((65536u64 + tick_spacing as u64) / (tick_spacing as u64)) as usize;
        let mut bm: Vec<Option<U256>> = Vec::new();
        let mut i: usize = 0;
        while i < total_words
            invariant
                i <= total_words,
                bm@.len() == i,
                forall|k: int| 0 <= k < i ==> bm@[k] is None,
            decreases total_words - i,
        {
            bm.push(None);
            i = i + 1;
        }
        let shift = (0x7fffu64 / (tick_spacing as u64)) as i64;
        let mut store = BitMap { bitmap: bm };
        proof {
            lemma_last_word_empty(words@.take(0), tick_spacing as int);
            assert(words@.take(0) =~= Seq::<(i16, U256)>::empty());
            assert(forall|k: int| 0 <= k < store@.len() ==> store@[k] is None);
        }
        let mut j: usize = 0;
        while j < words.len()
            invariant
                j <= words@.len(),
                tick_spacing >= 1,
                store@.len() == (65536 + tick_spacing as int) / tick_spacing as int,
                shift == 0x7fffint / tick_spacing as int,
                forall|t: int|
                    0 <= t < words@.len() ==> 0 <= slot_of(
                        #[trigger] words@[t].0 as int,
                        tick_spacing as int,
                    ) && slot_of(words@[t].0 as int, tick_spacing as int) < store@.len(),
                forall|k: int|
                    0 <= k < store@.len() ==> store@[k] == last_word_for(
                        words@.take(j as int),
                        k,
                        tick_spacing as int,
                    ),
            decreases words@.len() - j,
        {
            let (pos, word) = (words[j].0, words[j].1.clone());
            let idx = ((pos as i64) + shift) as usize;
            let ghost pre = store@;
            store.bitmap.set(idx, Some(word));
            proof {
                assert(store@ =~= pre.update(idx as int, Some(word@)));
                assert(words@.take(j + 1).drop_last() =~= words@.take(j as int));
                assert(words@.take(j + 1).last() == words@[j as int]);
                assert(forall|k: int|
                    0 <= k < store@.len() ==> last_word_for(words@.take(j + 1), k, tick_spacing as int)
                        == (if slot_of(words@[j as int].0 as int, tick_spacing as int) == k {
                        Some(words@[j as int].1@)
                    } else {
                        last_word_for(words@.take(j as int), k, tick_spacing as int)
                    }));
            }
            j = j + 1;
        }
        proof {
            assert(words@.take(words@.len() as int) =~= words@);
        }
        store
    }

    /// The stored word at a word position, if fetched.
    pub fn get_word_from_pos(&self, word_pos: i16, tick_spacing: i32) -> (r: Option<U256>)
        requires
            tick_spacing >= 1,
            0 <= (word_pos as int + 0x7fffint / tick_spacing as int) < self@.len(),
        ensures
            match r {
                Some(w) => self@[word_pos as int + 0x7fffint / tick_spacing as int] == Some(w@),
                None => self@[word_pos as int + 0x7fffint / tick_spacing as int] is None,
            },
    {
        let index = BitMap::pos_to_idx(word_pos, tick_spacing);
        match &self.bitmap[index] {
            Some(w) => Some(w.clone()),
            None => None,
        }
    }

    /// The bitmap word a raw tick belongs to under the given spacing.
    pub fn get_pos_from_tick(&self, tick: i32, tick_spacing: i32) -> (r: i16)
        requires
            tick_spacing >= 1,
            -0x800000 <= tick <= 0x7fffff,
        ensures
            r == (tick as int / tick_spacing as int) / 256,
    {
        let normalized_tick = bitmap_math::normalize_tick(tick, tick_spacing);
        proof {
            lemma_normalized_in_range(tick as int, tick_spacing as int);
        }
        bitmap_math::word_index(normalized_tick)
    }

    /// The stored word covering a raw tick, if fetched.
    pub fn get_word_from_tick(&self, tick: i32, tick_spacing: i32) -> (r: Option<U256>)
        requires
            tick_spacing >= 1,
            -0x800000 <= tick <= 0x7fffff,
            0 <= (((tick as int / tick_spacing as int) / 256) + 0x7fffint / tick_spacing as int)
                < self@.len(),
        ensures
            ({
                let slot = ((tick as int / tick_spacing as int) / 256) + 0x7fffint
                    / tick_spacing as int;
                match r {
                    Some(w) => self@[slot] == Some(w@),
                    None => self@[slot] is None,
                }
            }),
    {
        let normalized_tick = bitmap_math::normalize_tick(tick, tick_spacing);
        proof {
            lemma_normalized_in_range(tick as int, tick_spacing as int);
        }
        let word_pos = bitmap_math::word_index(normalized_tick);
        self.get_word_from_pos(word_pos, tick_spacing)
    }

    /// Store a fetched word at its position.
    pub fn insert(&mut self, pos: i16, word: U256, tick_spacing: i32)
        requires
            tick_spacing >= 1,
            0 <= (pos as int + 0x7fffint / tick_spacing as int) < old(self)@.len(),
        ensures
            final(self)@ == old(self)@.update(
                pos as int + 0x7fffint / tick_spacing as int,
                Some(word@),
            ),
    {
        let idx = BitMap::pos_to_idx(pos, tick_spacing);
        let ghost pre = self@;
        self.bitmap.set(idx, Some(word));
        proof {
            assert(self@ =~= pre.update(idx as int, Some(word@)));
        }
    }

    /// The vector slot of a word position under the given spacing.
    pub fn pos_to_idx(word_pos: i16, tick_spacing: i32) -> (r: usize)
        requires
            tick_spacing >= 1,
            word_pos as int + 0x7fffint / tick_spacing as int >= 0,
        ensures
            r == word_pos as int + 0x7fffint / tick_spacing as int,
    {
        let shift = (0x7fffu64 / (tick_spacing as u64)) as i64;
        ((word_pos as i64) + shift) as usize
    }
}

/// An empty construction list stores nothing.
proof fn lemma_last_word_empty(ws: Seq<(i16, U256)>, tick_spacing: int)
    requires
        ws.len() == 0,
    ensures
        forall|k: int| last_word_for(ws, k, tick_spacing) is None,
{
}

/// A normalized tick keeps the 24-bit range of the tick it came from.
proof fn lemma_normalized_in_range(t: int, sp: int)
    requires
        sp >= 1,
        -0x800000 <= t <= 0x7fffff,
    ensures
        -0x800000 <= t / sp <= 0x7fffff,
{
    let q = t / sp;
    vstd::arithmetic::div_mod::lemma_fundamental_div_mod(t, sp);
    if t >= 0 {
        vstd::arithmetic::div_mod::lemma_div_nonincreasing(t, sp);
        vstd::arithmetic::div_mod::lemma_div_pos_is_pos(t, sp);
    } else {
        assert(q >= t && q <= 0) by (nonlinear_arith)
            requires
                sp >= 1,
                t < 0,
                t == sp * q + (t % sp),
                0 <= (t % sp),
                (t % sp) < sp,
        ;
    }
}

} // verus!
