//! Word and bit arithmetic over the sparse tick bitmap.
//!
//! Ticks are normalized by the pool's tick spacing; each 256-bit word of the
//! bitmap covers 256 consecutive normalized ticks, and a set bit marks an
//! initialized tick.
use vstd::prelude::*;

verus! {

use vstd::arithmetic::div_mod::{
    lemma_fundamental_div_mod, lemma_fundamental_div_mod_converse, lemma_div_multiples_vanish,
    lemma_div_nonincreasing, lemma_div_pos_is_pos,
};
use vstd::arithmetic::mul::{lemma_mul_inequality, lemma_mul_unary_negation,
    lemma_mul_is_commutative};
use crate::u256::U256;
use crate::limbs::bit_of;

/// Euclidean division of a tick quantity by a positive divisor magnitude.
fn div_euclid_i32_by_pos(t: i32, d: u32) -> (r: i64)
    requires
        d >= 1,
    ensures
        r == t as int / d as int,
        t >= 0 ==> 0 <= r <= t,
        t < 0 ==> t <= r <= 0,
{
    if t >= 0 {
        let q = (t as u64) / (d as u64);
        proof {
            lemma_div_nonincreasing(t as int, d as int);
            lemma_div_pos_is_pos(t as int, d as int);
        }
        q as i64
    } else {
        let m = (-(t as i64)) as u64;
        let q = m / (d as u64);
        let rem = m % (d as u64);
        proof {
            lemma_div_nonincreasing(m as int, d as int);
            lemma_div_pos_is_pos(m as int, d as int);
            lemma_fundamental_div_mod(m as int, d as int);
            if rem == 0 {
                assert((d as int) * (q as int) == m);
                assert(t as int == (d as int) * (-(q as int))) by {
                    lemma_mul_unary_negation(d as int, q as int);
                }
                lemma_div_multiples_vanish(-(q as int), d as int);
                assert(((d as int) * (-(q as int))) as int / (d as int) == -(q as int));
            } else {
                assert(m == (d as int) * (q as int) + rem);
                assert(t as int == (d as int) * (-(q as int) - 1) + ((d as int) - rem)) by {
                    assert((d as int) * (-(q as int) - 1) == -((d as int) * (q as int)) - (
                    d as int)) by (nonlinear_arith);
                }
                lemma_fundamental_div_mod_converse(
                    t as int,
                    d as int,
                    -(q as int) - 1,
                    (d as int) - rem,
                );
                assert((q as int) * 1 <= (q as int) * (d as int)) by {
                    vstd::arithmetic::mul::lemma_mul_left_inequality(q as int + 1, 1, d as int);
                    lemma_mul_inequality(1, d as int, q as int);
                    lemma_mul_is_commutative(d as int, q as int);
                }
                vstd::arithmetic::mul::lemma_mul_basics(q as int);
                assert(q < m);
            }
        }
        if rem == 0 {
            -(q as i64)
        } else {
            (-(q as i64)) - 1
        }
    }
}

/// Normalize a tick by the tick spacing (Euclidean division). The one
/// excluded input is the pair whose quotient does not fit the tick type.
pub fn normalize_tick(current_tick: i32, tick_spacing: i32) -> (r: i32)
    requires
        tick_spacing != 0,
        !(current_tick == i32::MIN && tick_spacing == -1),
    ensures
        r == current_tick as int / tick_spacing as int,
{
    if tick_spacing >= 1 {
        let q = div_euclid_i32_by_pos(current_tick, tick_spacing as u32);
        q as i32
    } else {
        // a negated divisor negates the Euclidean quotient and keeps the
        // remainder, so divide by the magnitude and flip the sign
        let mag = (-(tick_spacing as i64)) as u32;
        let q = div_euclid_i32_by_pos(current_tick, mag);
        proof {
            let t = current_tick as int;
            let dd = mag as int;
            lemma_fundamental_div_mod(t, dd);
            assert(t / (tick_spacing as int) == -(t / dd)) by (nonlinear_arith)
                requires
                    dd >= 1,
                    tick_spacing as int == -dd,
                    t == dd * (t / dd) + (t % dd),
                    0 <= (t % dd),
                    (t % dd) < dd,
            ;
            if current_tick == i32::MIN {
                assert(q != t) by {
                    if q == t {
                        assert(false) by (nonlinear_arith)
                            requires
                                t == dd * q + (t % dd),
                                q == t,
                                dd >= 2,
                                t <= -2,
                                0 <= (t % dd),
                                (t % dd) < dd,
                        ;
                    }
                }
            }
        }
        (-(q as i64)) as i32
    }
}

/// The bitmap word a normalized tick falls into.
pub fn word_index(normalized_tick: i32) -> (r: i16)
    requires
        -0x800000 <= normalized_tick <= 0x7fffff,
    ensures
        r == normalized_tick as int / 256,
{
    let q = div_euclid_i32_by_pos(normalized_tick, 256);
    q as i16
}

/// The bitmap word of a raw tick under the given spacing.
pub fn get_pos_from_tick(tick: i32, tick_spacing: i32) -> (r: i16)
    requires
        tick_spacing >= 1,
        -0x800000 <= tick <= 0x7fffff,
    ensures
        r == (tick as int / tick_spacing as int) / 256,
{
    let normalized_tick = normalize_tick(tick, tick_spacing);
    proof {
        let q = tick as int / tick_spacing as int;
        lemma_fundamental_div_mod(tick as int, tick_spacing as int);
        if tick >= 0 {
            lemma_div_nonincreasing(tick as int, tick_spacing as int);
            lemma_div_pos_is_pos(tick as int, tick_spacing as int);
        } else {
            assert(q >= tick as int && q <= 0) by (nonlinear_arith)
                requires
                    tick_spacing as int >= 1,
                    tick < 0,
                    tick as int == tick_spacing as int * q + ((tick as int) % (
                    tick_spacing as int)),
                    0 <= ((tick as int) % (tick_spacing as int)),
                    ((tick as int) % (tick_spacing as int)) < (tick_spacing as int),
            ;
        }
    }
    word_index(normalized_tick)
}

/// The raw ticks a bitmap word marks as initialized, for bits `0..n`.
pub open spec fn word_ticks(w: nat, widx: int, sp: int, n: int) -> Seq<i32>
    decreases n,
{
    if n <= 0 {
        Seq::<i32>::empty()
    } else {
        let pre = word_ticks(w, widx, sp, n - 1);
        if bit_of(w, (n - 1) as nat) {
            pre.push((((widx * 256 + (n - 1)) * sp)) as i32)
        } else {
            pre
        }
    }
}

/// All raw ticks whose bits are set in one bitmap word, ascending.
pub fn extract_ticks_from_bitmap(bitmap: &U256, word_idx: i16, tick_spacing: i32) -> (r: Vec<i32>)
    requires
        tick_spacing >= 1,
        (word_idx as int * 256) * tick_spacing as int >= -0x800000,
        (word_idx as int * 256 + 255) * tick_spacing as int <= 0x7fffff,
    ensures
        r@ == word_ticks(bitmap@, word_idx as int, tick_spacing as int, 256),
{
    let mut ticks: Vec<i32> = Vec::new();
    if bitmap.is_zero() {
        proof {
            lemma_word_ticks_zero(bitmap@, word_idx as int, tick_spacing as int, 256);
        }
        return ticks;
    }
    let mut bit: usize = 0;
    while bit < 256
        invariant
            bit <= 256,
            tick_spacing >= 1,
            (word_idx as int * 256) * tick_spacing as int >= -0x800000,
            (word_idx as int * 256 + 255) * tick_spacing as int <= 0x7fffff,
            ticks@ == word_ticks(bitmap@, word_idx as int, tick_spacing as int, bit as int),
        decreases 256 - bit,
    {
        if bitmap.bit(bit) {
            proof {
                lemma_word_tick_bounds(word_idx as int, tick_spacing as int, bit as int);
            }
            let normalized: i64 = (word_idx as i64) * 256 + (bit as i64);
            ticks.push((normalized * (tick_spacing as i64)) as i32);
        }
        bit = bit + 1;
    }
    ticks
}

/// Within the word's span, each marked tick stays inside the 24-bit range.
proof fn lemma_word_tick_bounds(widx: int, sp: int, b: int)
    requires
        sp >= 1,
        0 <= b < 256,
        (widx * 256) * sp >= -0x800000,
        (widx * 256 + 255) * sp <= 0x7fffff,
    ensures
        -0x800000 <= (widx * 256 + b) * sp <= 0x7fffff,
{
    assert((widx * 256) * sp <= (widx * 256 + b) * sp) by {
        lemma_mul_inequality(widx * 256, widx * 256 + b, sp);
    }
    assert((widx * 256 + b) * sp <= (widx * 256 + 255) * sp) by {
        lemma_mul_inequality(widx * 256 + b, widx * 256 + 255, sp);
    }
}

/// A zero word marks no ticks.
proof fn lemma_word_ticks_zero(w: nat, widx: int, sp: int, n: int)
    requires
        w == 0,
    ensures
        word_ticks(w, widx, sp, n) =~= Seq::<i32>::empty(),
    decreases n,
{
    if n > 0 {
        lemma_word_ticks_zero(w, widx, sp, n - 1);
        assert(!bit_of(0, (n - 1) as nat)) by {
            vstd::arithmetic::power2::lemma_pow2_pos((n - 1) as nat);
        }
    }
}

/// Clamp a starting bit position into the word.
pub open spec fn clamp_bit(start: int) -> int {
    if start < 0 {
        0
    } else if start > 255 {
        255
    } else {
        start
    }
}

/// The nearest set bit strictly below the starting position.
pub fn next_left(word: &U256, start: &i16) -> (r: Option<usize>)
    ensures
        match r {
            Some(i) => i < clamp_bit(*start as int) && bit_of(word@, i as nat) && (forall|b: int|
                i < b < clamp_bit(*start as int) ==> #[trigger] bit_of(word@, b as nat) == false),
            None => forall|b: int| 0 <= b < clamp_bit(*start as int) ==> #[trigger] bit_of(word@, b as nat) == false,
        },
{
    let s = *start;
    let mut idx: usize = if s < 0 {
        0
    } else if s > 255 {
        255
    } else {
        s as usize
    };
    let ghost c = clamp_bit(s as int);
    while idx > 0
        invariant
            c == clamp_bit(*start as int),
            idx <= c <= 255,
            forall|b: int| idx <= b < c ==> #[trigger] bit_of(word@, b as nat) == false,
        decreases idx,
    {
        idx = idx - 1;
        if word.bit(idx) {
            return Some(idx);
        }
    }
    None
}

/// The nearest set bit strictly above the starting position.
pub fn next_right(word: &U256, start: &i16) -> (r: Option<usize>)
    ensures
        match r {
            Some(i) => clamp_bit(*start as int) < i <= 255 && bit_of(word@, i as nat) && (
            forall|b: int| clamp_bit(*start as int) < b < i ==> #[trigger] bit_of(word@, b as nat) == false),
            None => forall|b: int|
                clamp_bit(*start as int) < b <= 255 ==> #[trigger] bit_of(word@, b as nat)
                    == false,
        },
{
    let s = *start;
    let mut idx: usize = if s < 0 {
        0
    } else if s > 255 {
        255
    } else {
        s as usize
    };
    let ghost c = clamp_bit(s as int);
    while idx < 255
        invariant
            c == clamp_bit(*start as int),
            c <= idx <= 255,
            forall|b: int| c < b <= idx ==> #[trigger] bit_of(word@, b as nat) == false,
        decreases 255 - idx,
    {
        idx = idx + 1;
        if word.bit(idx) {
            return Some(idx);
        }
    }
    None
}

} // verus!
