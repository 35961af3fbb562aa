//! Little-endian base-2^64 limb arithmetic.
//!
//! The fixed-point price engine works on 256-bit and wider quantities; this
//! module gives it exact natural-number arithmetic over `Vec<u64>` limb
//! vectors, each operation proved against the mathematical value `nat_of`.
use vstd::prelude::*;

verus! {

use vstd::arithmetic::power2::{pow2, lemma_pow2_adds, lemma_pow2_pos, lemma2_to64};
use vstd::arithmetic::mul::{
    lemma_mul_is_distributive_add, lemma_mul_is_distributive_add_other_way,
    lemma_mul_is_commutative, lemma_mul_is_associative, lemma_mul_inequality,
    lemma_mul_strict_upper_bound, lemma_mul_strictly_increases, lemma_mul_nonnegative,
    lemma_mul_basics,
};
use vstd::arithmetic::div_mod::{
    lemma_fundamental_div_mod, lemma_div_denominator, lemma_div_multiples_vanish,
    lemma_basic_div, lemma_div_pos_is_pos, lemma_div_is_ordered,
    lemma_div_multiples_vanish_fancy, lemma_hoist_over_denominator, lemma_mod_multiples_vanish,
    lemma_div_is_strictly_smaller, lemma_div_nonincreasing, lemma_div_basics_2,
    lemma_fundamental_div_mod_converse_mod,
};
use vstd::arithmetic::power2::{lemma_pow2_strictly_increases, lemma_pow2_unfold};
use vstd::arithmetic::mul::lemma_mul_left_inequality;

pub const BASE64: u128 = 0x1_0000_0000_0000_0000;

/// The natural number a little-endian limb sequence stands for.
pub open spec fn nat_of(s: Seq<u64>) -> nat
    decreases s.len(),
{
    if s.len() == 0 {
        0
    } else {
        (s[0] as nat) + nat_of(s.skip(1)) * (BASE64 as nat)
    }
}

/// Appending a limb adds its value at the next power-of-2^64 position.
pub proof fn lemma_nat_of_snoc(s: Seq<u64>, x: u64)
    ensures
        nat_of(s.push(x)) == nat_of(s) + (x as nat) * pow2((64 * s.len()) as nat),
    decreases s.len(),
{
    lemma2_to64();
    lemma_mul_nonnegative(x as int, pow2((64 * s.len()) as nat) as int);
    assert(nat_of(s.push(x)) == (s.push(x)[0] as nat) + nat_of(s.push(x).skip(1)) * (
    BASE64 as nat));
    if s.len() == 0 {
        assert(s.push(x).skip(1) =~= Seq::<u64>::empty());
        assert(nat_of(Seq::<u64>::empty()) == 0);
        assert(nat_of(s) == 0);
        assert(nat_of(s.push(x)) == (x as nat) + 0 * (BASE64 as nat));
        assert(pow2((64 * s.len()) as nat) == 1);
        assert((x as nat) * pow2((64 * s.len()) as nat) == x) by {
            lemma_mul_basics(x as int);
        }
    } else {
        assert(s.push(x).skip(1) =~= s.skip(1).push(x));
        lemma_nat_of_snoc(s.skip(1), x);
        let a = nat_of(s.skip(1)) as int;
        let p = pow2((64 * (s.len() - 1)) as nat) as int;
        let b = BASE64 as int;
        let xi = x as int;
        assert(nat_of(s) == (s[0] as nat) + nat_of(s.skip(1)) * (BASE64 as nat));
        assert(nat_of(s.push(x)) == (s[0] as nat) + (a + xi * p) * b);
        assert((a + xi * p) * b == a * b + (xi * p) * b) by {
            lemma_mul_is_distributive_add_other_way(b, a, xi * p);
        }
        assert((xi * p) * b == xi * (p * b)) by {
            lemma_mul_is_associative(xi, p, b);
        }
        lemma_pow2_adds((64 * (s.len() - 1)) as nat, 64);
        assert(pow2(64) == BASE64 as nat);
        assert(p * b == pow2((64 * s.len()) as nat));
        assert(nat_of(s.push(x)) == (s[0] as nat) + a * b + xi * pow2((64 * s.len()) as nat));
    }
}

/// A limb sequence's value is bounded by the width it occupies.
pub proof fn lemma_nat_of_bound(s: Seq<u64>)
    ensures
        nat_of(s) < pow2((64 * s.len()) as nat),
    decreases s.len(),
{
    lemma2_to64();
    if s.len() == 0 {
        assert(pow2(0) == 1);
    } else {
        let last = s[s.len() - 1];
        let pre = s.take(s.len() - 1);
        assert(pre.push(last) =~= s);
        lemma_nat_of_snoc(pre, last);
        lemma_nat_of_bound(pre);
        lemma_pow2_adds((64 * (s.len() - 1)) as nat, 64);
        assert(pow2(64) == BASE64 as nat);
        assert((last as nat) * pow2((64 * (s.len() - 1)) as nat) <= (BASE64 as nat - 1) * pow2((64 * (s.len() - 1)) as nat)) by {
            lemma_mul_inequality(last as int, BASE64 as int - 1, pow2((64 * (s.len() - 1)) as nat) as int);
        }
        lemma_mul_is_distributive_add_other_way(
            pow2((64 * (s.len() - 1)) as nat) as int,
            BASE64 as int - 1,
            1,
        );
    }
}

/// Splitting a limb sequence splits its value at a power of 2^64.
pub proof fn lemma_nat_of_split(s: Seq<u64>, i: int)
    requires
        0 <= i <= s.len(),
    ensures
        nat_of(s) == nat_of(s.take(i)) + nat_of(s.skip(i)) * pow2((64 * i) as nat),
    decreases s.len() - i,
{
    lemma2_to64();
    lemma_mul_nonnegative(nat_of(s.skip(i)) as int, pow2((64 * i) as nat) as int);
    if i == s.len() {
        assert(s.take(i) =~= s);
        assert(s.skip(i) =~= Seq::<u64>::empty());
        assert(nat_of(Seq::<u64>::empty()) == 0);
        assert(nat_of(s.skip(i)) == 0);
        assert(nat_of(s.skip(i)) * pow2((64 * i) as nat) == 0) by {
            lemma_mul_basics(pow2((64 * i) as nat) as int);
        }
    } else {
        let x = s[i];
        lemma_nat_of_split(s, i + 1);
        assert(s.take(i + 1) =~= s.take(i).push(x));
        lemma_nat_of_snoc(s.take(i), x);
        assert(s.skip(i).len() > 0);
        assert(nat_of(s.skip(i)) == (s.skip(i)[0] as nat) + nat_of(s.skip(i).skip(1)) * (
        BASE64 as nat));
        assert(s.skip(i)[0] == x);
        assert(s.skip(i).skip(1) =~= s.skip(i + 1));
        lemma_pow2_adds((64 * i) as nat, 64);
        assert(pow2(64) == BASE64 as nat);
        let p = pow2((64 * i) as nat) as int;
        let q = nat_of(s.skip(i + 1)) as int;
        assert(((x as nat) + q * (BASE64 as int)) * p == (x as nat) * p + q * (BASE64 as int) * p)
            by {
            lemma_mul_is_distributive_add_other_way(p, x as int, q * (BASE64 as int));
        }
        assert(q * (BASE64 as int) * p == q * ((BASE64 as int) * p)) by {
            lemma_mul_is_associative(q, BASE64 as int, p);
        }
        assert((BASE64 as int) * p == p * (BASE64 as int)) by {
            lemma_mul_is_commutative(BASE64 as int, p);
        }
    }
}

/// A sequence of zero limbs stands for zero.
pub proof fn lemma_nat_of_zeros(s: Seq<u64>)
    requires
        forall|j: int| 0 <= j < s.len() ==> s[j] == 0,
    ensures
        nat_of(s) == 0,
    decreases s.len(),
{
    if s.len() > 0 {
        lemma_nat_of_zeros(s.skip(1));
    }
}

/// Ring algebra of one limb of a carry chain.
proof fn lemma_accum_step(
    out: int,
    apre: int,
    bpre: int,
    ai: int,
    bi: int,
    cin: bool,
    cout: bool,
    lo: int,
    p: int,
) by (nonlinear_arith)
    requires
        out + (if cin {
            p
        } else {
            0
        }) == apre + bpre,
        lo + (if cout {
            0x1_0000_0000_0000_0000int
        } else {
            0
        }) == ai + bi + (if cin {
            1int
        } else {
            0int
        }),
    ensures
        (out + lo * p) + (if cout {
            p * 0x1_0000_0000_0000_0000
        } else {
            0
        }) == (apre + ai * p) + (bpre + bi * p),
{
}

/// Ring algebra of one limb of a borrow chain.
proof fn lemma_borrow_step(
    out: int,
    apre: int,
    bpre: int,
    ai: int,
    bi: int,
    cin: bool,
    cout: bool,
    lo: int,
    p: int,
) by (nonlinear_arith)
    requires
        out + bpre == apre + (if cin {
            p
        } else {
            0
        }),
        lo == ai - bi - (if cin {
            1int
        } else {
            0int
        }) + (if cout {
            0x1_0000_0000_0000_0000int
        } else {
            0
        }),
    ensures
        (out + lo * p) + (bpre + bi * p) == (apre + ai * p) + (if cout {
            p * 0x1_0000_0000_0000_0000
        } else {
            0
        }),
{
}

/// Limb sequences that agree above position `j` and differ at `j` order
/// their values by the limbs at `j`.
proof fn lemma_nat_of_cmp_at(a: Seq<u64>, b: Seq<u64>, j: int)
    requires
        a.len() == b.len(),
        0 <= j < a.len(),
        a.skip(j + 1) == b.skip(j + 1),
        a[j] < b[j],
    ensures
        nat_of(a) < nat_of(b),
{
    let n = a.len() as int;
    let p = pow2((64 * j) as nat) as int;
    lemma_nat_of_split(a, j);
    lemma_nat_of_split(b, j);
    assert(a.skip(j).skip(1) =~= a.skip(j + 1));
    assert(b.skip(j).skip(1) =~= b.skip(j + 1));
    assert(nat_of(a.skip(j)) == (a[j] as nat) + nat_of(a.skip(j + 1)) * (BASE64 as nat));
    assert(nat_of(b.skip(j)) == (b[j] as nat) + nat_of(b.skip(j + 1)) * (BASE64 as nat));
    lemma_nat_of_bound(a.take(j));
    lemma_nat_of_bound(b.take(j));
    assert(a.take(j).len() == j);
    let sa = nat_of(a.skip(j)) as int;
    let sb = nat_of(b.skip(j)) as int;
    assert(sa + 1 <= sb);
    assert(nat_of(a) == nat_of(a.take(j)) + sa * p);
    assert(nat_of(b) == nat_of(b.take(j)) + sb * p);
    assert(sa * p + p <= sb * p) by (nonlinear_arith)
        requires
            sa + 1 <= sb,
            p >= 0,
    ;
    assert(nat_of(a.take(j)) < p);
}

/// A vector of `n` zero limbs.
pub fn zero_limbs(n: usize) -> (r: Vec<u64>)
    ensures
        r@.len() == n,
        nat_of(r@) == 0,
{
    let mut r: Vec<u64> = Vec::new();
    let mut i: usize = 0;
    while i < n
        invariant
            i <= n,
            r@.len() == i,
            forall|j: int| 0 <= j < i ==> r@[j] == 0,
        decreases n - i,
    {
        r.push(0);
        i = i + 1;
    }
    proof {
        lemma_nat_of_zeros(r@);
    }
    r
}

/// A copy of `a` extended with zero limbs up to length `n`; the value is kept.
pub fn pad_limbs(a: &Vec<u64>, n: usize) -> (r: Vec<u64>)
    requires
        a.len() <= n,
    ensures
        r@.len() == n,
        nat_of(r@) == nat_of(a@),
{
    let mut r: Vec<u64> = Vec::new();
    let mut i: usize = 0;
    while i < a.len()
        invariant
            i <= a.len(),
            r@ == a@.subrange(0, i as int),
        decreases a.len() - i,
    {
        r.push(a[i]);
        proof {
            assert(r@ =~= a@.subrange(0, i + 1));
        }
        i = i + 1;
    }
    proof {
        assert(r@ =~= a@);
    }
    while r.len() < n
        invariant
            r@.len() <= n,
            nat_of(r@) == nat_of(a@),
        decreases n - r.len(),
    {
        proof {
            lemma_nat_of_snoc(r@, 0);
            lemma_mul_basics(pow2((64 * r@.len()) as nat) as int);
        }
        r.push(0);
    }
    r
}

/// Limb-wise addition; the carry weighs one past the shared width.
pub fn add_limbs(a: &Vec<u64>, b: &Vec<u64>) -> (r: (Vec<u64>, bool))
    requires
        a.len() == b.len(),
    ensures
        r.0@.len() == a.len(),
        nat_of(r.0@) + (if r.1 {
            pow2((64 * a.len()) as nat)
        } else {
            0
        }) == nat_of(a@) + nat_of(b@),
{
    let n = a.len();
    let mut out: Vec<u64> = Vec::new();
    let mut carry: bool = false;
    let mut i: usize = 0;
    proof {
        assert(a@.subrange(0, 0) =~= Seq::<u64>::empty());
        assert(b@.subrange(0, 0) =~= Seq::<u64>::empty());
    }
    while i < n
        invariant
            i <= n,
            n == a.len() == b.len(),
            out@.len() == i,
            nat_of(out@) + (if carry {
                pow2((64 * i) as nat)
            } else {
                0
            }) == nat_of(a@.subrange(0, i as int)) + nat_of(b@.subrange(0, i as int)),
        decreases n - i,
    {
        let s: u128 = (a[i] as u128) + (b[i] as u128) + (if carry {
            1
        } else {
            0
        });
        let lo: u64 = (s % BASE64) as u64;
        let hi: u64 = (s / BASE64) as u64;
        let ghost out0 = out@;
        let ghost i0 = i as int;
        let ghost carry0 = carry;
        out.push(lo);
        carry = hi == 1;
        i = i + 1;
        proof {
            lemma2_to64();
            let p = pow2((64 * i0) as nat) as int;
            assert(s == (hi as int) * (BASE64 as int) + lo);
            assert(hi <= 1);
            lemma_accum_step(
                nat_of(out0) as int,
                nat_of(a@.subrange(0, i0)) as int,
                nat_of(b@.subrange(0, i0)) as int,
                a@[i0] as int,
                b@[i0] as int,
                carry0,
                hi == 1,
                lo as int,
                p,
            );
            lemma_nat_of_snoc(out0, lo);
            assert(out@ == out0.push(lo));
            assert(a@.subrange(0, i0 + 1) =~= a@.subrange(0, i0).push(a@[i0]));
            assert(b@.subrange(0, i0 + 1) =~= b@.subrange(0, i0).push(b@[i0]));
            lemma_nat_of_snoc(a@.subrange(0, i0), a@[i0]);
            lemma_nat_of_snoc(b@.subrange(0, i0), b@[i0]);
            lemma_pow2_adds((64 * i0) as nat, 64);
            assert(pow2(64) == BASE64 as nat);
            assert((64 * (i0 + 1)) as nat == (64 * i0) as nat + 64);
            assert(pow2((64 * (i0 + 1)) as nat) == p * (BASE64 as int));
            assert(nat_of(out@) == nat_of(out0) + (lo as int) * p);
        }
    }
    proof {
        assert(a@.subrange(0, n as int) =~= a@);
        assert(b@.subrange(0, n as int) =~= b@);
    }
    (out, carry)
}

/// Limb-wise subtraction; the borrow flag reports wrap-around, so it is set
/// exactly when the subtrahend is larger.
pub fn sub_limbs(a: &Vec<u64>, b: &Vec<u64>) -> (r: (Vec<u64>, bool))
    requires
        a.len() == b.len(),
    ensures
        r.0@.len() == a.len(),
        nat_of(r.0@) + nat_of(b@) == nat_of(a@) + (if r.1 {
            pow2((64 * a.len()) as nat)
        } else {
            0
        }),
        r.1 == (nat_of(a@) < nat_of(b@)),
{
    let n = a.len();
    let mut out: Vec<u64> = Vec::new();
    let mut borrow: bool = false;
    let mut i: usize = 0;
    proof {
        assert(a@.subrange(0, 0) =~= Seq::<u64>::empty());
        assert(b@.subrange(0, 0) =~= Seq::<u64>::empty());
    }
    while i < n
        invariant
            i <= n,
            n == a.len() == b.len(),
            out@.len() == i,
            nat_of(out@) + nat_of(b@.subrange(0, i as int)) == nat_of(a@.subrange(0, i as int)) + (
            if borrow {
                pow2((64 * i) as nat)
            } else {
                0
            }),
        decreases n - i,
    {
        let s: u128 = (a[i] as u128) + BASE64 - (b[i] as u128) - (if borrow {
            1
        } else {
            0
        });
        let lo: u64 = (s % BASE64) as u64;
        let hi: u64 = (s / BASE64) as u64;
        proof {
            lemma2_to64();
            let p = pow2((64 * i) as nat) as int;
            assert(s == (hi as int) * (BASE64 as int) + lo);
            assert(hi <= 1);
            lemma_borrow_step(
                nat_of(out@) as int,
                nat_of(a@.subrange(0, i as int)) as int,
                nat_of(b@.subrange(0, i as int)) as int,
                a@[i as int] as int,
                b@[i as int] as int,
                borrow,
                hi == 0,
                lo as int,
                p,
            );
            lemma_nat_of_snoc(out@, lo);
            assert(a@.subrange(0, i + 1) =~= a@.subrange(0, i as int).push(a@[i as int]));
            assert(b@.subrange(0, i + 1) =~= b@.subrange(0, i as int).push(b@[i as int]));
            lemma_nat_of_snoc(a@.subrange(0, i as int), a@[i as int]);
            lemma_nat_of_snoc(b@.subrange(0, i as int), b@[i as int]);
            lemma_pow2_adds((64 * i) as nat, 64);
            assert(pow2(64) == BASE64 as nat);
        }
        out.push(lo);
        borrow = hi == 0;
        i = i + 1;
    }
    proof {
        assert(a@.subrange(0, n as int) =~= a@);
        assert(b@.subrange(0, n as int) =~= b@);
        lemma_nat_of_bound(out@);
        lemma_nat_of_bound(a@);
        lemma_nat_of_bound(b@);
    }
    (out, borrow)
}

/// Strict value comparison of two equally long limb vectors.
pub fn lt_limbs(a: &Vec<u64>, b: &Vec<u64>) -> (r: bool)
    requires
        a.len() == b.len(),
    ensures
        r == (nat_of(a@) < nat_of(b@)),
{
    let n = a.len();
    let mut i: usize = n;
    while i > 0
        invariant
            i <= n,
            n == a.len() == b.len(),
            forall|k: int| i <= k < n ==> a@[k] == b@[k],
        decreases i,
    {
        let j = i - 1;
        if a[j] < b[j] {
            proof {
                assert(a@.skip(j + 1) =~= b@.skip(j + 1));
                lemma_nat_of_cmp_at(a@, b@, j as int);
            }
            return true;
        }
        if b[j] < a[j] {
            proof {
                assert(b@.skip(j + 1) =~= a@.skip(j + 1));
                lemma_nat_of_cmp_at(b@, a@, j as int);
            }
            return false;
        }
        i = j;
    }
    proof {
        assert(a@ =~= b@);
    }
    false
}

/// Literal values of the powers of two at the widths this crate works in.
pub proof fn lemma_pow2_values()
    ensures
        pow2(32) == 0x1_0000_0000,
        pow2(64) == 0x1_0000_0000_0000_0000,
        pow2(96) == 0x1_0000_0000_0000_0000_0000_0000,
        pow2(72) == 0x100_0000_0000_0000_0000,
        pow2(78) == 0x4000_0000_0000_0000_0000,
        pow2(122) == 0x400_0000_0000_0000_0000_0000_0000_0000,
        pow2(127) == 0x8000_0000_0000_0000_0000_0000_0000_0000,
        pow2(128) == 0x1_0000_0000_0000_0000_0000_0000_0000_0000,
        pow2(150) == 0x40_0000_0000_0000_0000_0000_0000_0000_0000_0000,
        pow2(151) == 0x80_0000_0000_0000_0000_0000_0000_0000_0000_0000,
        pow2(160) == 0x1_0000_0000_0000_0000_0000_0000_0000_0000_0000_0000,
        pow2(192) == 0x1_0000_0000_0000_0000_0000_0000_0000_0000_0000_0000_0000_0000,
        pow2(200) == 0x100_0000_0000_0000_0000_0000_0000_0000_0000_0000_0000_0000_0000,
        pow2(224) == 0x1_0000_0000_0000_0000_0000_0000_0000_0000_0000_0000_0000_0000_0000_0000,
        pow2(256) == 0x1_0000_0000_0000_0000_0000_0000_0000_0000_0000_0000_0000_0000_0000_0000_0000_0000,
{
    lemma2_to64();
    vstd::arithmetic::power2::lemma2_to64_rest();
    lemma_pow2_adds(64, 32);
    lemma_pow2_adds(64, 8);
    lemma_pow2_adds(64, 14);
    lemma_pow2_adds(64, 58);
    lemma_pow2_adds(128, 22);
    lemma_pow2_adds(128, 23);
    lemma_pow2_adds(64, 63);
    lemma_pow2_adds(64, 64);
    lemma_pow2_adds(128, 32);
    lemma_pow2_adds(128, 64);
    lemma_pow2_adds(192, 8);
    lemma_pow2_adds(192, 32);
    lemma_pow2_adds(224, 32);
}

/// Bit `k` of the natural number `n`.
pub open spec fn bit_of(n: nat, k: nat) -> bool {
    (n / pow2(k)) % 2 == 1
}

/// 2^e as a machine word.
pub fn pow2_u64(e: u64) -> (r: u64)
    requires
        e < 64,
    ensures
        r == pow2(e as nat),
{
    let mut r: u64 = 1;
    let mut i: u64 = 0;
    proof {
        lemma2_to64();
    }
    while i < e
        invariant
            i <= e,
            e < 64,
            r == pow2(i as nat),
        decreases e - i,
    {
        proof {
            lemma_pow2_unfold((i + 1) as nat);
            lemma_pow2_strictly_increases((i + 1) as nat, 64);
            lemma2_to64();
        }
        r = r * 2;
        i = i + 1;
    }
    r
}

/// One step of reading a number bit by bit from the top.
proof fn lemma_div_pow2_step(x: nat, k: nat)
    ensures
        x / pow2(k) == 2 * (x / pow2(k + 1)) + (if bit_of(x, k) {
            1nat
        } else {
            0nat
        }),
{
    lemma_pow2_pos(k);
    lemma_pow2_pos((k + 1) as nat);
    lemma2_to64();
    lemma_div_denominator(x as int, pow2(k) as int, 2);
    lemma_pow2_adds(k, 1);
    assert(pow2(1) == 2);
    assert(pow2(k) * 2 == pow2(k + 1));
    assert((x / pow2(k)) / 2 == x / pow2(k + 1));
    lemma_fundamental_div_mod((x / pow2(k)) as int, 2);
}

/// Bit `k` of a limb vector's value is the matching bit of limb `k / 64`.
proof fn lemma_bit_of_limb(a: Seq<u64>, k: int)
    requires
        0 <= k < 64 * a.len(),
    ensures
        bit_of(nat_of(a), k as nat) == (((a[k / 64] as nat) / pow2((k % 64) as nat)) % 2 == 1),
{
    let j = k / 64;
    let m = k % 64;
    assert(0 <= j < a.len());
    assert(0 <= m < 64);
    let pj = pow2((64 * j) as nat) as int;
    let pm = pow2(m as nat) as int;
    let pk = pow2(k as nat) as int;
    lemma_pow2_pos((64 * j) as nat);
    lemma_pow2_pos(m as nat);
    lemma_pow2_pos(k as nat);
    lemma_pow2_adds((64 * j) as nat, m as nat);
    assert(pj * pm == pk);
    let n = nat_of(a) as int;
    lemma_nat_of_split(a, j);
    let lo = nat_of(a.take(j)) as int;
    let hi = nat_of(a.skip(j)) as int;
    lemma_nat_of_bound(a.take(j));
    assert(a.take(j).len() == j);
    assert(lo < pj);
    assert(n == lo + hi * pj);
    // n / 2^(64 j) == hi
    assert(n / pj == hi) by {
        lemma_div_multiples_vanish_fancy(hi, lo, pj);
        assert((pj * hi + lo) / pj == hi);
        lemma_mul_is_commutative(pj, hi);
    }
    // n / 2^k == hi / 2^m
    assert(n / pk == hi / pm) by {
        lemma_div_denominator(n, pj, pm);
    }
    // hi == a[j] + 2^64 * rest
    assert(a.skip(j).len() > 0);
    assert(nat_of(a.skip(j)) == (a.skip(j)[0] as nat) + nat_of(a.skip(j).skip(1)) * (
    BASE64 as nat));
    assert(a.skip(j)[0] == a[j]);
    let rest = nat_of(a.skip(j).skip(1)) as int;
    assert(hi == a[j] + rest * (BASE64 as int));
    // hi / 2^m == a[j] / 2^m + rest * 2^(64 - m)
    let pr = pow2((64 - m) as nat) as int;
    lemma_pow2_adds(m as nat, (64 - m) as nat);
    lemma2_to64();
    assert(pm * pr == BASE64 as int);
    assert(hi / pm == (a[j] as int) / pm + rest * pr) by {
        lemma_hoist_over_denominator(a[j] as int, rest * pr, pm as nat);
        assert((a[j] as int) / pm + rest * pr == (a[j] + (rest * pr) * pm) / pm);
        lemma_mul_is_associative(rest, pr, pm);
        assert((rest * pr) * pm == rest * (pr * pm));
        lemma_mul_is_commutative(pr, pm);
    }
    // dropping the even part keeps the low bit
    assert((hi / pm) % 2 == ((a[j] as int) / pm) % 2) by {
        let half = pow2((64 - m - 1) as nat) as int;
        lemma_pow2_adds(1, (64 - m - 1) as nat);
        assert(pow2(1) == 2);
        assert(2 * half == pr);
        lemma_mul_is_associative(rest, 2, half);
        lemma_mul_is_commutative(rest, 2);
        assert(rest * pr == rest * (2 * half));
        assert(rest * (2 * half) == 2 * (rest * half)) by {
            lemma_mul_is_associative(2, rest, half);
            lemma_mul_is_commutative(rest, 2 * half);
            lemma_mul_is_commutative(2, rest);
            lemma_mul_is_associative(rest, 2, half);
        }
        lemma_mod_multiples_vanish(rest * half, (a[j] as int) / pm, 2);
    }
}

/// Bit `k` of the value held by a limb vector.
pub fn get_bit_limbs(a: &Vec<u64>, k: usize) -> (r: bool)
    requires
        k < 64 * a.len(),
    ensures
        r == bit_of(nat_of(a@), k as nat),
{
    let j = k / 64;
    let m = (k % 64) as u64;
    let limb = a[j];
    let p = pow2_u64(m);
    proof {
        lemma_pow2_pos(m as nat);
    }
    let r = (limb / p) % 2 == 1;
    proof {
        lemma_bit_of_limb(a@, k as int);
    }
    r
}

/// Addition that is known to stay within the shared width.
pub fn add_limbs_fixed(a: &Vec<u64>, b: &Vec<u64>) -> (r: Vec<u64>)
    requires
        a.len() == b.len(),
        nat_of(a@) + nat_of(b@) < pow2((64 * a.len()) as nat),
    ensures
        r@.len() == a.len(),
        nat_of(r@) == nat_of(a@) + nat_of(b@),
{
    let (out, carry) = add_limbs(a, b);
    proof {
        if carry {
            lemma_nat_of_bound(out@);
        }
    }
    out
}

/// Subtraction of a value known not to exceed the minuend.
pub fn sub_limbs_fixed(a: &Vec<u64>, b: &Vec<u64>) -> (r: Vec<u64>)
    requires
        a.len() == b.len(),
        nat_of(b@) <= nat_of(a@),
    ensures
        r@.len() == a.len(),
        nat_of(r@) == nat_of(a@) - nat_of(b@),
{
    let (out, borrow) = sub_limbs(a, b);
    out
}

/// A zero value means every limb is zero.
proof fn lemma_nat_of_zero_iff(s: Seq<u64>)
    ensures
        (nat_of(s) == 0) <==> (forall|j: int| 0 <= j < s.len() ==> s[j] == 0),
    decreases s.len(),
{
    if s.len() == 0 {
    } else {
        lemma_nat_of_zero_iff(s.skip(1));
        if nat_of(s) == 0 {
            assert(nat_of(s.skip(1)) * (BASE64 as nat) == 0);
            assert(nat_of(s.skip(1)) == 0) by {
                if nat_of(s.skip(1)) > 0 {
                    lemma_mul_inequality(1, nat_of(s.skip(1)) as int, BASE64 as int);
                }
            }
            assert(forall|j: int| 1 <= j < s.len() ==> s[j] == s.skip(1)[j - 1]);
        } else {
            if forall|j: int| 0 <= j < s.len() ==> s[j] == 0 {
                assert(s.skip(1) =~= s.skip(1));
                assert(forall|j: int| 0 <= j < s.skip(1).len() ==> s.skip(1)[j] == s[j + 1]);
                assert(nat_of(s.skip(1)) == 0);
                lemma_mul_basics(BASE64 as int);
                assert(nat_of(s) == (s[0] as nat));
            }
        }
    }
}

/// Whether the value fits in the low `n` limbs.
pub fn fits_limbs(a: &Vec<u64>, n: usize) -> (r: bool)
    ensures
        r == (nat_of(a@) < pow2((64 * n) as nat)),
{
    if a.len() <= n {
        proof {
            lemma_nat_of_bound(a@);
            if a@.len() < n {
                lemma_pow2_strictly_increases((64 * a@.len()) as nat, (64 * n) as nat);
            }
        }
        return true;
    }
    let mut j: usize = n;
    while j < a.len()
        invariant
            n <= j <= a.len(),
            forall|t: int| n <= t < j ==> a@[t] == 0,
        decreases a.len() - j,
    {
        if a[j] != 0 {
            proof {
                lemma_nat_of_split(a@, n as int);
                let hi = a@.skip(n as int);
                assert(hi[j - n] != 0);
                lemma_nat_of_zero_iff(hi);
                assert(nat_of(hi) >= 1);
                let p = pow2((64 * n) as nat) as int;
                lemma_pow2_pos((64 * n) as nat);
                lemma_mul_inequality(1, nat_of(hi) as int, p);
                assert(nat_of(hi) * p >= 1 * p);
            }
            return false;
        }
        j = j + 1;
    }
    proof {
        lemma_nat_of_split(a@, n as int);
        let hi = a@.skip(n as int);
        lemma_nat_of_zero_iff(hi);
        assert(forall|t: int| 0 <= t < hi.len() ==> hi[t] == a@[t + n]);
        assert(nat_of(hi) == 0);
        lemma_mul_basics(pow2((64 * n) as nat) as int);
        lemma_nat_of_bound(a@.take(n as int));
        assert(a@.take(n as int).len() == n);
    }
    true
}

/// The low `n` limbs of a value known to fit in them.
pub fn trim_limbs(a: &Vec<u64>, n: usize) -> (r: Vec<u64>)
    requires
        n <= a.len(),
        nat_of(a@) < pow2((64 * n) as nat),
    ensures
        r@.len() == n,
        nat_of(r@) == nat_of(a@),
{
    let mut r: Vec<u64> = Vec::new();
    let mut i: usize = 0;
    while i < n
        invariant
            i <= n <= a.len(),
            r@ == a@.subrange(0, i as int),
        decreases n - i,
    {
        r.push(a[i]);
        proof {
            assert(r@ =~= a@.subrange(0, i + 1));
        }
        i = i + 1;
    }
    proof {
        lemma_nat_of_split(a@, n as int);
        let hi = a@.skip(n as int);
        let p = pow2((64 * n) as nat) as int;
        lemma_pow2_pos((64 * n) as nat);
        if nat_of(hi) > 0 {
            lemma_mul_inequality(1, nat_of(hi) as int, p);
        }
        lemma_mul_basics(p);
        assert(nat_of(hi) == 0);
        assert(r@ =~= a@.take(n as int));
    }
    r
}

/// One doubling step of reading the multiplier bit by bit.
proof fn lemma_mul_accum_step(av: int, q: int, b: bool, acc: int) by (nonlinear_arith)
    requires
        acc == av * q,
    ensures
        2 * acc + (if b {
            av
        } else {
            0
        }) == av * (2 * q + (if b {
            1int
        } else {
            0int
        })),
{
}

/// A product of values below two bounds stays below the bounds' product.
proof fn lemma_mul_bound_strict(av: int, q: int, pa: int, pb: int) by (nonlinear_arith)
    requires
        0 <= av < pa,
        0 <= q < pb,
        1 <= pa,
        1 <= pb,
    ensures
        av * q < pa * pb,
{
}

/// Schoolbook-free multiplication: scan the multiplier's bits from the top,
/// doubling and adding; the result carries the combined width.
pub fn mul_limbs(a: &Vec<u64>, b: &Vec<u64>) -> (r: Vec<u64>)
    requires
        64 * (a.len() + b.len()) <= usize::MAX,
    ensures
        r@.len() == a.len() + b.len(),
        nat_of(r@) == nat_of(a@) * nat_of(b@),
{
    let la = a.len();
    let lb = b.len();
    let n = la + lb;
    let ap = pad_limbs(a, n);
    let mut acc = zero_limbs(n);
    let nbits = 64 * lb;
    let ghost av = nat_of(a@) as int;
    let ghost bv = nat_of(b@) as int;
    proof {
        lemma_nat_of_bound(a@);
        lemma_nat_of_bound(b@);
        lemma_basic_div(bv, pow2((64 * lb) as nat) as int);
        lemma_pow2_pos((64 * lb) as nat);
        lemma_mul_basics(av);
    }
    let mut i: usize = 0;
    while i < nbits
        invariant
            i <= nbits,
            nbits == 64 * lb,
            n == la + lb,
            la == a.len(),
            lb == b.len(),
            64 * (la + lb) <= usize::MAX,
            av == nat_of(a@),
            bv == nat_of(b@),
            acc@.len() == n,
            ap@.len() == n,
            nat_of(ap@) == nat_of(a@),
            nat_of(acc@) == av * (bv / pow2((nbits - i) as nat) as int),
        decreases nbits - i,
    {
        let k = nbits - 1 - i;
        let bit = get_bit_limbs(b, k);
        proof {
            lemma_pow2_pos((k + 1) as nat);
            lemma_pow2_pos(k as nat);
            lemma_div_pow2_step(bv as nat, k as nat);
            lemma_div_nonincreasing(bv, pow2(k as nat) as int);
            lemma_pow2_adds((64 * la) as nat, (64 * lb) as nat);
            lemma_nat_of_bound(a@);
            lemma_nat_of_bound(b@);
            lemma_div_pos_is_pos(bv, pow2(k as nat) as int);
            lemma_pow2_pos((64 * la) as nat);
            lemma_pow2_pos((64 * lb) as nat);
            lemma_mul_bound_strict(
                av,
                bv / pow2(k as nat) as int,
                pow2((64 * la) as nat) as int,
                pow2((64 * lb) as nat) as int,
            );
            lemma_mul_accum_step(av, bv / pow2((k + 1) as nat) as int, bit, nat_of(acc@) as int);
        }
        let acc2 = add_limbs_fixed(&acc, &acc);
        if bit {
            acc = add_limbs_fixed(&acc2, &ap);
        } else {
            acc = acc2;
        }
        i = i + 1;
    }
    proof {
        lemma2_to64();
        lemma_div_basics_2(bv);
        assert(pow2(0) == 1);
    }
    acc
}

/// One doubling step of restoring division.
proof fn lemma_div_accum_step(q: int, d: int, r: int, nh: int, b: bool, s: bool) by (nonlinear_arith)
    requires
        q * d + r == nh,
    ensures
        (2 * q + (if s {
            1int
        } else {
            0int
        })) * d + (2 * r + (if b {
            1int
        } else {
            0int
        }) - (if s {
            d
        } else {
            0
        })) == 2 * nh + (if b {
            1int
        } else {
            0int
        }),
{
}

/// Restoring bit-by-bit division with exact quotient and remainder.
pub fn divrem_limbs(a: &Vec<u64>, d: &Vec<u64>) -> (r: (Vec<u64>, Vec<u64>))
    requires
        a.len() >= 1,
        d.len() >= 1,
        nat_of(d@) > 0,
        64 * (a.len() + 1) <= usize::MAX,
        64 * (d.len() + 1) <= usize::MAX,
    ensures
        r.0@.len() == a.len(),
        r.1@.len() == d.len(),
        nat_of(a@) == nat_of(r.0@) * nat_of(d@) + nat_of(r.1@),
        nat_of(r.1@) < nat_of(d@),
{
    let la = a.len();
    let wd = d.len() + 1;
    let dp = pad_limbs(d, wd);
    let mut q = zero_limbs(la);
    let mut rem = zero_limbs(wd);
    let one_q = one_limbs(la);
    let one_w = one_limbs(wd);
    let nbits = 64 * la;
    let ghost avn = nat_of(a@) as int;
    let ghost dv = nat_of(d@) as int;
    proof {
        lemma_nat_of_bound(a@);
        lemma_basic_div(avn, pow2((64 * la) as nat) as int);
        lemma_pow2_pos((64 * la) as nat);
        lemma_mul_basics(dv);
    }
    let mut i: usize = 0;
    while i < nbits
        invariant
            i <= nbits,
            nbits == 64 * la,
            la == a.len(),
            wd == d.len() + 1,
            64 * (la + 1) <= usize::MAX,
            64 * (d.len() + 1) <= usize::MAX,
            avn == nat_of(a@),
            dv == nat_of(d@),
            dv > 0,
            q@.len() == la,
            rem@.len() == wd,
            dp@.len() == wd,
            one_q@.len() == la,
            nat_of(one_q@) == 1,
            one_w@.len() == wd,
            nat_of(one_w@) == 1,
            nat_of(dp@) == dv,
            nat_of(q@) * dv + nat_of(rem@) == avn / pow2((nbits - i) as nat) as int,
            nat_of(rem@) < dv,
        decreases nbits - i,
    {
        let k = nbits - 1 - i;
        let bit = get_bit_limbs(a, k);
        let ghost nh = avn / pow2((k + 1) as nat) as int;
        let ghost nnew = avn / pow2(k as nat) as int;
        proof {
            lemma_pow2_pos((k + 1) as nat);
            lemma_pow2_pos(k as nat);
            lemma_div_pow2_step(avn as nat, k as nat);
            lemma_div_nonincreasing(avn, pow2(k as nat) as int);
            lemma_nat_of_bound(a@);
            // the doubled quotient still fits its width
            assert(nat_of(q@) * dv <= nnew) by {
                assert(2 * nh <= nnew);
                assert(nat_of(q@) * dv <= nh);
            }
            assert(nat_of(q@) * 1 <= nat_of(q@) * dv) by {
                lemma_mul_left_inequality(nat_of(q@) as int + 1, 1, dv);
                lemma_mul_inequality(1, dv, nat_of(q@) as int);
                lemma_mul_is_commutative(dv, nat_of(q@) as int);
            }
            lemma_mul_basics(nat_of(q@) as int);
            assert(2 * nat_of(q@) + 1 <= pow2((64 * la) as nat)) by {
                assert(nat_of(q@) <= nh);
                assert(2 * nh + 1 <= nnew + nnew + 1);
                assert(nnew < pow2((64 * la) as nat));
            }
            // the doubled remainder fits one limb more than the divisor
            lemma_nat_of_bound(d@);
            lemma_pow2_adds((64 * d@.len()) as nat, 64);
            lemma_pow2_strictly_increases((64 * d@.len()) as nat + 1, (64 * wd) as nat);
            lemma2_to64();
            assert(2 * nat_of(rem@) + 1 < pow2((64 * wd) as nat)) by {
                assert(nat_of(rem@) < dv);
                assert(dv < pow2((64 * d@.len()) as nat));
            }
        }
        let mut q2 = add_limbs_fixed(&q, &q);
        let mut rem2 = add_limbs_fixed(&rem, &rem);
        if bit {
            rem2 = add_limbs_fixed(&rem2, &one_w);
        }
        let take = !lt_limbs(&rem2, &dp);
        if take {
            rem2 = sub_limbs_fixed(&rem2, &dp);
            q2 = add_limbs_fixed(&q2, &one_q);
        }
        proof {
            lemma_div_accum_step(nat_of(q@) as int, dv, nat_of(rem@) as int, nh, bit, take);
            if !take {
                assert(nat_of(rem2@) < dv);
            }
        }
        q = q2;
        rem = rem2;
        i = i + 1;
    }
    proof {
        lemma2_to64();
        lemma_div_basics_2(avn);
        assert(pow2(0) == 1);
        lemma_nat_of_bound(d@);
    }
    let rem_t = trim_limbs(&rem, d.len());
    (q, rem_t)
}

/// A one-valued limb vector of width `n`.
fn one_limbs(n: usize) -> (r: Vec<u64>)
    requires
        n >= 1,
    ensures
        r@.len() == n,
        nat_of(r@) == 1,
{
    let mut o = zero_limbs(n);
    let ghost o0 = o@;
    o.set(0, 1);
    proof {
        lemma_nat_of_zero_iff(o0);
        assert(o@.skip(1) =~= o0.skip(1));
        assert(forall|j: int| 0 <= j < o0.skip(1).len() ==> o0.skip(1)[j] == o0[j + 1]);
        lemma_nat_of_zeros(o0.skip(1));
        assert(o@[0] == 1);
        assert(nat_of(o@) == 1 + nat_of(o@.skip(1)) * (BASE64 as nat));
        assert(nat_of(o@.skip(1)) * (BASE64 as nat) == 0) by {
            lemma_mul_basics(BASE64 as int);
        }
    }
    o
}

/// The two low limbs of a 128-bit value.
pub fn from_u128_limbs(x: u128) -> (r: Vec<u64>)
    ensures
        r@.len() == 2,
        nat_of(r@) == x,
{
    let lo: u64 = (x % BASE64) as u64;
    let hi: u64 = (x / BASE64) as u64;
    let mut r: Vec<u64> = Vec::new();
    r.push(lo);
    r.push(hi);
    proof {
        assert(r@ =~= seq![lo].push(hi));
        lemma_nat_of_snoc(seq![lo], hi);
        lemma2_to64();
        assert(pow2(64) == BASE64 as nat);
        assert(seq![lo].skip(1) =~= Seq::<u64>::empty());
        assert(nat_of(seq![lo].skip(1)) == 0);
        assert(nat_of(seq![lo]) == (lo as nat) + nat_of(seq![lo].skip(1)) * (BASE64 as nat));
        assert(nat_of(seq![lo].skip(1)) * (BASE64 as nat) == 0) by {
            lemma_mul_basics(BASE64 as int);
        }
        assert((hi as nat) * pow2(64) == (hi as nat) * (BASE64 as nat));
        assert(x == (lo as int) + (hi as int) * (BASE64 as int));
    }
    r
}

/// The 128-bit value of a two-limb vector.
pub fn to_u128_limbs(a: &Vec<u64>) -> (r: u128)
    requires
        a.len() == 2,
    ensures
        r == nat_of(a@),
{
    let lo = a[0];
    let hi = a[1];
    let r = (lo as u128) + (hi as u128) * BASE64;
    proof {
        assert(a@ =~= seq![lo].push(hi));
        lemma_nat_of_snoc(seq![lo], hi);
        lemma2_to64();
        assert(pow2(64) == BASE64 as nat);
        assert(seq![lo].skip(1) =~= Seq::<u64>::empty());
        assert(nat_of(seq![lo].skip(1)) == 0);
        assert(nat_of(seq![lo]) == (lo as nat) + nat_of(seq![lo].skip(1)) * (BASE64 as nat));
        assert(nat_of(seq![lo].skip(1)) * (BASE64 as nat) == 0) by {
            lemma_mul_basics(BASE64 as int);
        }
        assert((hi as nat) * pow2(64) == (hi as nat) * (BASE64 as nat));
    }
    r
}

/// A limb vector holding exactly 2^k.
pub fn pow2_limbs(k: usize) -> (r: Vec<u64>)
    requires
        k + 64 <= usize::MAX,
    ensures
        r@.len() == k / 64 + 1,
        nat_of(r@) == pow2(k as nat),
{
    let j = k / 64;
    let m = (k % 64) as u64;
    let mut r = zero_limbs(j);
    let ghost r0 = r@;
    let x = pow2_u64(m);
    r.push(x);
    proof {
        lemma_nat_of_snoc(r0, x);
        lemma_pow2_adds((k % 64) as nat, (64 * (k / 64)) as nat);
        assert((x as nat) * pow2((64 * j) as nat) == pow2((k % 64) as nat) * pow2(
            (64 * (k / 64)) as nat,
        ));
        assert((k % 64) as nat + (64 * (k / 64)) as nat == k as nat);
    }
    r
}

/// The low `n` limbs: the value reduced modulo 2^(64 n).
pub fn take_limbs(a: &Vec<u64>, n: usize) -> (r: Vec<u64>)
    requires
        n <= a.len(),
    ensures
        r@.len() == n,
        nat_of(r@) == nat_of(a@) % pow2((64 * n) as nat),
{
    let mut r: Vec<u64> = Vec::new();
    let mut i: usize = 0;
    while i < n
        invariant
            i <= n <= a.len(),
            r@ == a@.subrange(0, i as int),
        decreases n - i,
    {
        r.push(a[i]);
        proof {
            assert(r@ =~= a@.subrange(0, i + 1));
        }
        i = i + 1;
    }
    proof {
        assert(r@ =~= a@.take(n as int));
        lemma_nat_of_split(a@, n as int);
        let p = pow2((64 * n) as nat) as int;
        lemma_pow2_pos((64 * n) as nat);
        lemma_nat_of_bound(a@.take(n as int));
        assert(a@.take(n as int).len() == n);
        lemma_fundamental_div_mod_converse_mod(
            nat_of(a@) as int,
            p,
            nat_of(a@.skip(n as int)) as int,
            nat_of(r@) as int,
        );
        assert(nat_of(a@) == nat_of(a@.skip(n as int)) * p + nat_of(r@)) by {
            lemma_mul_is_commutative(nat_of(a@.skip(n as int)) as int, p);
        }
    }
    r
}

/// Index of the highest set bit, if the value is not zero.
pub fn msb_limbs(a: &Vec<u64>) -> (r: Option<usize>)
    requires
        64 * a.len() <= usize::MAX,
    ensures
        match r {
            Some(i) => i < 64 * a.len() && pow2(i as nat) <= nat_of(a@) < pow2((i + 1) as nat),
            None => nat_of(a@) == 0,
        },
{
    let mut j: usize = a.len();
    while j > 0
        invariant
            j <= a.len(),
            64 * a.len() <= usize::MAX,
            forall|t: int| j <= t < a@.len() ==> a@[t] == 0,
        decreases j,
    {
        let limb = a[j - 1];
        if limb != 0 {
            let mut b: u64 = 63;
            proof {
                lemma2_to64();
            }
            while b > 0
                invariant
                    b < 64,
                    0 < j <= a.len(),
                    64 * a.len() <= usize::MAX,
                    limb == a@[j - 1],
                    limb != 0,
                    forall|t: int| j <= t < a@.len() ==> a@[t] == 0,
                    (limb as nat) < pow2((b + 1) as nat),
                decreases b,
            {
                let p = pow2_u64(b);
                proof {
                    lemma_pow2_pos(b as nat);
                }
                if limb / p != 0 {
                    proof {
                        if limb < p {
                            lemma_basic_div(limb as int, p as int);
                        }
                        lemma_msb_value(a@, j - 1, b as int);
                    }
                    return Some((j - 1) * 64 + (b as usize));
                }
                proof {
                    if limb >= p {
                        lemma_div_is_ordered(p as int, limb as int, p as int);
                        assert((p as int) / (p as int) >= 1) by (nonlinear_arith)
                            requires
                                p >= 1,
                        ;
                    }
                    assert(limb < p);
                }
                b = b - 1;
            }
            proof {
                lemma2_to64();
                assert(pow2(1) == 2);
                assert(limb == 1);
                lemma_msb_value(a@, j - 1, 0);
            }
            return Some((j - 1) * 64);
        }
        j = j - 1;
    }
    proof {
        lemma_nat_of_zeros(a@);
    }
    None
}

/// The value of a vector whose top limbs above `j` are zero and whose limb
/// `j` has its highest bit at `b` lies between 2^(64 j + b) and 2^(64 j + b + 1).
proof fn lemma_msb_value(a: Seq<u64>, j: int, b: int)
    requires
        0 <= j < a.len(),
        0 <= b < 64,
        forall|t: int| j < t < a.len() ==> a[t] == 0,
        pow2(b as nat) <= a[j] < pow2((b + 1) as nat),
    ensures
        pow2((64 * j + b) as nat) <= nat_of(a) < pow2((64 * j + b + 1) as nat),
{
    lemma_nat_of_split(a, j);
    let lo = nat_of(a.take(j)) as int;
    let hi = nat_of(a.skip(j)) as int;
    let p = pow2((64 * j) as nat) as int;
    lemma_pow2_pos((64 * j) as nat);
    lemma_nat_of_bound(a.take(j));
    assert(a.take(j).len() == j);
    // the suffix holds exactly limb j
    assert(a.skip(j).len() > 0);
    assert(nat_of(a.skip(j)) == (a.skip(j)[0] as nat) + nat_of(a.skip(j).skip(1)) * (
    BASE64 as nat));
    assert(a.skip(j)[0] == a[j]);
    assert(forall|t: int| 0 <= t < a.skip(j).skip(1).len() ==> a.skip(j).skip(1)[t] == a[t + j
        + 1]);
    lemma_nat_of_zeros(a.skip(j).skip(1));
    assert(nat_of(a.skip(j).skip(1)) * (BASE64 as nat) == 0) by {
        lemma_mul_basics(BASE64 as int);
    }
    assert(hi == a[j]);
    // lower bound
    lemma_pow2_adds(b as nat, (64 * j) as nat);
    assert(pow2((b as nat)) * p == pow2((64 * j + b) as nat));
    assert(pow2((b as nat)) * p <= hi * p) by {
        lemma_mul_inequality(pow2((b as nat)) as int, hi, p);
    }
    assert(nat_of(a) >= hi * p);
    // upper bound
    lemma_pow2_adds((b + 1) as nat, (64 * j) as nat);
    assert(pow2(((b + 1) as nat)) * p == pow2((64 * j + b + 1) as nat));
    assert((hi + 1) * p <= pow2(((b + 1) as nat)) * p) by {
        lemma_mul_inequality(hi + 1, pow2(((b + 1) as nat)) as int, p);
    }
    assert((hi + 1) * p == hi * p + p) by {
        lemma_mul_is_distributive_add_other_way(p, hi, 1);
        lemma_mul_basics(p);
    }
    assert(nat_of(a) == lo + hi * p);
    assert(lo < p);
}

} // verus!
