//! An unsigned 256-bit integer built on verified limb arithmetic.
//!
//! The view of a `U256` is the natural number it holds; every operation's
//! contract is exact over that view, with explicit `Option` results where
//! the mathematical result would not fit the width.
use vstd::prelude::*;

verus! {

use vstd::arithmetic::power2::{pow2, lemma_pow2_adds, lemma_pow2_pos, lemma2_to64};
use crate::limbs::{
    nat_of, lemma_nat_of_bound, add_limbs, sub_limbs, lt_limbs, mul_limbs, divrem_limbs,
    fits_limbs, trim_limbs, take_limbs, pad_limbs, from_u128_limbs, to_u128_limbs, zero_limbs,
    get_bit_limbs, msb_limbs, pow2_limbs, bit_of,
};

/// 2^256, the first value a `U256` cannot hold.
pub open spec fn u256_limit() -> nat {
    pow2(256)
}

#[derive(Debug)]
pub struct U256 {
    limbs: Vec<u64>,
}

/// Wrap four limbs; every value is below 2^256 by construction.
fn seal(limbs: Vec<u64>) -> (r: U256)
    requires
        limbs@.len() == 4,
    ensures
        r@ == nat_of(limbs@),
        r@ < u256_limit(),
{
    proof {
        lemma_nat_of_bound(limbs@);
        vstd::arithmetic::power2::lemma_pow2_adds(128, 128);
        crate::limbs::lemma_pow2_values();
    }
    U256 { limbs }
}

impl View for U256 {
    type V = nat;

    closed spec fn view(&self) -> nat {
        nat_of(self.limbs@)
    }
}

impl U256 {
    #[verifier::type_invariant]
    closed spec fn wf(self) -> bool {
        self.limbs@.len() == 4
    }

    pub fn zero() -> (r: U256)
        ensures
            r@ == 0,
    {
        seal(zero_limbs(4))
    }

    pub fn from_u128(x: u128) -> (r: U256)
        ensures
            r@ == x,
            r@ < u256_limit(),
    {
        let two = from_u128_limbs(x);
        seal(pad_limbs(&two, 4))
    }

    /// The largest representable value, 2^256 - 1.
    pub fn max_value() -> (r: U256)
        ensures
            r@ == u256_limit() - 1,
    {
        let mut v: Vec<u64> = Vec::new();
        v.push(u64::MAX);
        v.push(u64::MAX);
        v.push(u64::MAX);
        v.push(u64::MAX);
        proof {
            lemma_u64max4(v@);
        }
        seal(v)
    }

    /// The little-endian limbs of the value; also a witness that the value
    /// lies below 2^256.
    pub fn to_limbs(&self) -> (r: Vec<u64>)
        ensures
            r@.len() == 4,
            nat_of(r@) == self@,
            self@ < u256_limit(),
    {
        proof {
            use_type_invariant(self);
            lemma_nat_of_bound(self.limbs@);
            vstd::arithmetic::div_mod::lemma_small_mod(nat_of(self.limbs@), pow2(256));
        }
        take_limbs(&self.limbs, 4)
    }

    /// A value from four little-endian limbs.
    pub fn from_limbs(v: Vec<u64>) -> (r: U256)
        requires
            v@.len() == 4,
        ensures
            r@ == nat_of(v@),
            r@ < u256_limit(),
    {
        seal(v)
    }

    /// The low 128 bits, if the value fits them.
    pub fn to_u128_checked(&self) -> (r: Option<u128>)
        ensures
            match r {
                Some(x) => x == self@,
                None => self@ >= pow2(128),
            },
    {
        proof {
            use_type_invariant(self);
        }
        if fits_limbs(&self.limbs, 2) {
            let two = trim_limbs(&self.limbs, 2);
            Some(to_u128_limbs(&two))
        } else {
            None
        }
    }

    pub fn is_zero(&self) -> (r: bool)
        ensures
            r == (self@ == 0),
    {
        proof {
            use_type_invariant(self);
            lemma2_to64();
        }
        fits_limbs(&self.limbs, 0)
    }

    pub fn eq_u(&self, other: &U256) -> (r: bool)
        ensures
            r == (self@ == other@),
    {
        proof {
            use_type_invariant(self);
            use_type_invariant(other);
        }
        !lt_limbs(&self.limbs, &other.limbs) && !lt_limbs(&other.limbs, &self.limbs)
    }

    pub fn lt(&self, other: &U256) -> (r: bool)
        ensures
            r == (self@ < other@),
    {
        proof {
            use_type_invariant(self);
            use_type_invariant(other);
        }
        lt_limbs(&self.limbs, &other.limbs)
    }

    pub fn le(&self, other: &U256) -> (r: bool)
        ensures
            r == (self@ <= other@),
    {
        !other.lt(self)
    }

    /// Bit `i` of the value.
    pub fn bit(&self, i: usize) -> (r: bool)
        requires
            i < 256,
        ensures
            r == bit_of(self@, i as nat),
    {
        proof {
            use_type_invariant(self);
        }
        get_bit_limbs(&self.limbs, i)
    }

    /// Index of the highest set bit, if any.
    pub fn msb(&self) -> (r: Option<usize>)
        ensures
            match r {
                Some(i) => i < 256 && pow2(i as nat) <= self@ < pow2((i + 1) as nat),
                None => self@ == 0,
            },
    {
        proof {
            use_type_invariant(self);
        }
        msb_limbs(&self.limbs)
    }

    /// Sum, or `None` when it would not fit.
    pub fn checked_add(&self, other: &U256) -> (r: Option<U256>)
        ensures
            match r {
                Some(v) => v@ == self@ + other@ && v@ < u256_limit(),
                None => self@ + other@ >= u256_limit(),
            },
    {
        proof {
            use_type_invariant(self);
            use_type_invariant(other);
        }
        let (out, carry) = add_limbs(&self.limbs, &other.limbs);
        if carry {
            proof {
                lemma_nat_of_bound(out@);
            }
            None
        } else {
            Some(seal(out))
        }
    }

    /// Difference, or `None` when the subtrahend is larger.
    pub fn checked_sub(&self, other: &U256) -> (r: Option<U256>)
        ensures
            match r {
                Some(v) => v@ == self@ - other@ && v@ < u256_limit(),
                None => self@ < other@,
            },
    {
        proof {
            use_type_invariant(self);
            use_type_invariant(other);
        }
        let (out, borrow) = sub_limbs(&self.limbs, &other.limbs);
        if borrow {
            None
        } else {
            Some(seal(out))
        }
    }

    /// Sum clamped to the largest representable value.
    pub fn saturating_add(&self, other: &U256) -> (r: U256)
        ensures
            r@ == if self@ + other@ < u256_limit() {
                self@ + other@
            } else {
                (u256_limit() - 1) as nat
            },
    {
        match self.checked_add(other) {
            Some(v) => {
                proof {
                    use_type_invariant(&v);
                    lemma_nat_of_bound(v.limbs@);
                }
                v
            },
            None => U256::max_value(),
        }
    }

    /// Difference clamped to zero.
    pub fn saturating_sub(&self, other: &U256) -> (r: U256)
        ensures
            r@ == if self@ >= other@ {
                self@ - other@
            } else {
                0
            },
    {
        match self.checked_sub(other) {
            Some(v) => v,
            None => U256::zero(),
        }
    }

    /// Product, or `None` when it would not fit.
    pub fn checked_mul(&self, other: &U256) -> (r: Option<U256>)
        ensures
            match r {
                Some(v) => v@ == self@ * other@ && v@ < u256_limit(),
                None => self@ * other@ >= u256_limit(),
            },
    {
        proof {
            use_type_invariant(self);
            use_type_invariant(other);
        }
        let wide = mul_limbs(&self.limbs, &other.limbs);
        if fits_limbs(&wide, 4) {
            Some(seal(trim_limbs(&wide, 4)))
        } else {
            None
        }
    }

    /// Quotient rounded toward zero, or `None` for a zero divisor.
    pub fn checked_div(&self, other: &U256) -> (r: Option<U256>)
        ensures
            match r {
                Some(v) => other@ != 0 && v@ == self@ / other@ && v@ < u256_limit(),
                None => other@ == 0,
            },
    {
        proof {
            use_type_invariant(self);
            use_type_invariant(other);
        }
        if other.is_zero() {
            return None;
        }
        let (q, rem) = divrem_limbs(&self.limbs, &other.limbs);
        proof {
            vstd::arithmetic::div_mod::lemma_fundamental_div_mod_converse(
                self@ as int,
                other@ as int,
                nat_of(q@) as int,
                nat_of(rem@) as int,
            );
        }
        Some(seal(q))
    }

    /// Remainder of division, or `None` for a zero divisor.
    pub fn checked_rem(&self, other: &U256) -> (r: Option<U256>)
        ensures
            match r {
                Some(v) => other@ != 0 && v@ == self@ % other@ && v@ < u256_limit(),
                None => other@ == 0,
            },
    {
        proof {
            use_type_invariant(self);
            use_type_invariant(other);
        }
        if other.is_zero() {
            return None;
        }
        let (q, rem) = divrem_limbs(&self.limbs, &other.limbs);
        proof {
            vstd::arithmetic::div_mod::lemma_fundamental_div_mod_converse(
                self@ as int,
                other@ as int,
                nat_of(q@) as int,
                nat_of(rem@) as int,
            );
            lemma_nat_of_bound(rem@);
            lemma_pow2_adds(128, 128);
        }
        let rp = pad_limbs(&rem, 4);
        Some(seal(rp))
    }

    /// The value divided by 2^k, with a flag saying whether any ones were
    /// shifted out.
    pub fn shr_with_rem(&self, k: usize) -> (r: (U256, bool))
        requires
            k < 256,
        ensures
            r.0@ == self@ / pow2(k as nat),
            r.0@ < u256_limit(),
            r.1 == (self@ % pow2(k as nat) != 0),
    {
        proof {
            use_type_invariant(self);
        }
        let d = pow2_limbs(k);
        proof {
            lemma_pow2_pos(k as nat);
        }
        let (q, rem) = divrem_limbs(&self.limbs, &d);
        proof {
            vstd::arithmetic::div_mod::lemma_fundamental_div_mod_converse(
                self@ as int,
                pow2(k as nat) as int,
                nat_of(q@) as int,
                nat_of(rem@) as int,
            );
        }
        let any = !fits_limbs(&rem, 0);
        let qt = if q.len() >= 4 {
            proof {
                lemma_nat_of_bound(self.limbs@);
                vstd::arithmetic::div_mod::lemma_div_nonincreasing(
                    self@ as int,
                    pow2(k as nat) as int,
                );
            }
            trim_limbs(&q, 4)
        } else {
            pad_limbs(&q, 4)
        };
        proof {
            lemma2_to64();
        }
        (seal(qt), any)
    }

    /// Exactly 2^k.
    pub fn pow2_value(k: usize) -> (r: U256)
        requires
            k < 256,
        ensures
            r@ == pow2(k as nat),
            r@ < u256_limit(),
    {
        let v = pow2_limbs(k);
        proof {
            if k / 64 + 1 < 4 {
            } else {
                assert(k / 64 + 1 == 4);
            }
        }
        seal(pad_limbs(&v, 4))
    }

    /// The value times 2^k, or `None` when it would not fit.
    pub fn shl_checked(&self, k: usize) -> (r: Option<U256>)
        requires
            k < 256,
        ensures
            match r {
                Some(v) => v@ == self@ * pow2(k as nat) && v@ < u256_limit(),
                None => self@ * pow2(k as nat) >= u256_limit(),
            },
    {
        proof {
            use_type_invariant(self);
        }
        let m = pow2_limbs(k);
        let wide = mul_limbs(&self.limbs, &m);
        if fits_limbs(&wide, 4) {
            Some(seal(trim_limbs(&wide, 4)))
        } else {
            None
        }
    }
}

impl Clone for U256 {
    fn clone(&self) -> (r: Self)
        ensures
            r@ == self@,
    {
        proof {
            use_type_invariant(self);
            lemma_nat_of_bound(self.limbs@);
            vstd::arithmetic::div_mod::lemma_small_mod(nat_of(self.limbs@), pow2(256));
        }
        seal(take_limbs(&self.limbs, 4))
    }
}

/// Four limbs of all ones hold exactly 2^256 - 1.
proof fn lemma_u64max4(s: Seq<u64>)
    requires
        s.len() == 4,
        forall|j: int| 0 <= j < 4 ==> s[j] == u64::MAX,
    ensures
        nat_of(s) == pow2(256) - 1,
{
    assert(s.take(4) =~= s);
    lemma_allones(s, 4);
}

/// A prefix of all-ones limbs holds 2^(64 n) - 1.
proof fn lemma_allones(s: Seq<u64>, n: int)
    requires
        0 <= n <= s.len(),
        forall|j: int| 0 <= j < n ==> s[j] == u64::MAX,
    ensures
        nat_of(s.take(n)) == pow2((64 * n) as nat) - 1,
    decreases n,
{
    lemma2_to64();
    if n == 0 {
        assert(s.take(0) =~= Seq::<u64>::empty());
    } else {
        lemma_allones(s, n - 1);
        assert(s.take(n) =~= s.take(n - 1).push(s[n - 1]));
        crate::limbs::lemma_nat_of_snoc(s.take(n - 1), s[n - 1]);
        lemma_pow2_adds((64 * (n - 1)) as nat, 64);
        assert(pow2(64) == 0x1_0000_0000_0000_0000);
        let p = pow2((64 * (n - 1)) as nat) as int;
        assert((u64::MAX as int) * p == (0x1_0000_0000_0000_0000int - 1) * p);
        assert((0x1_0000_0000_0000_0000int - 1) * p == 0x1_0000_0000_0000_0000int * p - 1 * p)
            by {
            vstd::arithmetic::mul::lemma_mul_is_distributive_sub_other_way(
                p,
                0x1_0000_0000_0000_0000int,
                1,
            );
        }
        vstd::arithmetic::mul::lemma_mul_basics(p);
    }
}

} // verus!
