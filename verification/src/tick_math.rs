//! Conversion between tick indices and Q96 square-root prices.
//!
//! A tick t stands for the price 1.0001^t; the square root of that price is
//! carried as an unsigned fixed-point number scaled by 2^96. The forward
//! conversion evaluates 1.0001^(t/2) in Q128 by binary exponentiation over
//! nineteen precomputed factors; the reverse conversion takes a base-2
//! logarithm by most-significant-bit detection and fourteen squaring
//! refinements, then scales into tick units.
use vstd::prelude::*;

verus! {

use vstd::arithmetic::power2::{
    pow2, lemma_pow2_adds, lemma_pow2_pos, lemma2_to64, lemma_pow2_strictly_increases,
};
use vstd::arithmetic::div_mod::{
    lemma_div_nonincreasing, lemma_div_is_ordered, lemma_div_multiples_vanish,
    lemma_multiply_divide_lt,
};
use vstd::arithmetic::mul::lemma_mul_inequality;
use crate::limbs::{bit_of, lemma_pow2_values};
use crate::u256::{U256, u256_limit};

/// Largest tick magnitude with a representable square-root price.
pub const MAX_TICK: i32 = 887272;

/// Q128 evaluation of 1.0001^(-1/2), the seed for odd tick magnitudes.
pub const RATIO_SEED_ODD: u128 = 0xfffcb933bd6fad37aa2d162d1a594001;

pub const RATIO_FACTOR_1: u128 = 0xfff97272373d413259a46990580e213a;

pub const RATIO_FACTOR_2: u128 = 0xfff2e50f5f656932ef12357cf3c7fdcc;

pub const RATIO_FACTOR_3: u128 = 0xffe5caca7e10e4e61c3624eaa0941cd0;

pub const RATIO_FACTOR_4: u128 = 0xffcb9843d60f6159c9db58835c926644;

pub const RATIO_FACTOR_5: u128 = 0xff973b41fa98c081472e6896dfb254c0;

pub const RATIO_FACTOR_6: u128 = 0xff2ea16466c96a3843ec78b326b52861;

pub const RATIO_FACTOR_7: u128 = 0xfe5dee046a99a2a811c461f1969c3053;

pub const RATIO_FACTOR_8: u128 = 0xfcbe86c7900a88aedcffc83b479aa3a4;

pub const RATIO_FACTOR_9: u128 = 0xf987a7253ac413176f2b074cf7815e54;

pub const RATIO_FACTOR_10: u128 = 0xf3392b0822b70005940c7a398e4b70f3;

pub const RATIO_FACTOR_11: u128 = 0xe7159475a2c29b7443b29c7fa6e889d9;

pub const RATIO_FACTOR_12: u128 = 0xd097f3bdfd2022b8845ad8f792aa5825;

pub const RATIO_FACTOR_13: u128 = 0xa9f746462d870fdf8a65dc1f90e061e5;

pub const RATIO_FACTOR_14: u128 = 0x70d869a156d2a1b890bb3df62baf32f7;

pub const RATIO_FACTOR_15: u128 = 0x31be135f97d08fd981231505542fcfa6;

pub const RATIO_FACTOR_16: u128 = 0x9aa508b5b7a84e1c677de54f3e99bc9;

pub const RATIO_FACTOR_17: u128 = 0x5d6af8dedb81196699c329225ee604;

pub const RATIO_FACTOR_18: u128 = 0x2216e584f5fa1ea926041bedfe98;

pub const RATIO_FACTOR_19: u128 = 0x48a170391f7dc42444e8fa2;

/// The Q128 factor folded in for bit `i` of the tick magnitude.
pub open spec fn ratio_factor(i: int) -> nat {
    if i == 1 {
        RATIO_FACTOR_1 as nat
    } else if i == 2 {
        RATIO_FACTOR_2 as nat
    } else if i == 3 {
        RATIO_FACTOR_3 as nat
    } else if i == 4 {
        RATIO_FACTOR_4 as nat
    } else if i == 5 {
        RATIO_FACTOR_5 as nat
    } else if i == 6 {
        RATIO_FACTOR_6 as nat
    } else if i == 7 {
        RATIO_FACTOR_7 as nat
    } else if i == 8 {
        RATIO_FACTOR_8 as nat
    } else if i == 9 {
        RATIO_FACTOR_9 as nat
    } else if i == 10 {
        RATIO_FACTOR_10 as nat
    } else if i == 11 {
        RATIO_FACTOR_11 as nat
    } else if i == 12 {
        RATIO_FACTOR_12 as nat
    } else if i == 13 {
        RATIO_FACTOR_13 as nat
    } else if i == 14 {
        RATIO_FACTOR_14 as nat
    } else if i == 15 {
        RATIO_FACTOR_15 as nat
    } else if i == 16 {
        RATIO_FACTOR_16 as nat
    } else if i == 17 {
        RATIO_FACTOR_17 as nat
    } else if i == 18 {
        RATIO_FACTOR_18 as nat
    } else if i == 19 {
        RATIO_FACTOR_19 as nat
    } else {
        0
    }
}

/// Magnitude of a tick index.
pub open spec fn abs_tick_of(tick: int) -> nat {
    if tick >= 0 {
        tick as nat
    } else {
        (-tick) as nat
    }
}

pub open spec fn tick_in_range(tick: int) -> bool {
    -(MAX_TICK as int) <= tick <= MAX_TICK as int
}

/// The Q128 square-root ratio after folding in bits 1..=i of the magnitude.
pub open spec fn ratio_after(abs_tick: nat, i: nat) -> nat
    decreases i,
{
    if i == 0 {
        if abs_tick % 2 == 1 {
            RATIO_SEED_ODD as nat
        } else {
            pow2(128)
        }
    } else {
        let prev = ratio_after(abs_tick, (i - 1) as nat);
        if bit_of(abs_tick, i) {
            (prev * ratio_factor(i as int)) / pow2(128)
        } else {
            prev
        }
    }
}

/// The full Q128 square-root ratio of a tick magnitude.
pub open spec fn sqrt_ratio_x128_of(abs_tick: nat) -> nat {
    ratio_after(abs_tick, 19)
}

/// The Q96 square-root price of a tick: the Q128 ratio, inverted for
/// positive ticks, shifted down 32 bits and rounded up if bits were lost.
pub open spec fn price_of_tick(tick: int) -> nat {
    let r = sqrt_ratio_x128_of(abs_tick_of(tick));
    let p = if tick > 0 {
        ((u256_limit() - 1) as nat) / r
    } else {
        r
    };
    if p % pow2(32) == 0 {
        p / pow2(32)
    } else {
        p / pow2(32) + 1
    }
}

/// The smallest the folded ratio can get: the odd seed with every one of the
/// nineteen factors applied. Any in-range magnitude applies a subset, so the
/// true ratio is never below this chain.
pub open spec fn ratio_min(i: nat) -> nat
    decreases i,
{
    if i == 0 {
        RATIO_SEED_ODD as nat
    } else {
        (ratio_min((i - 1) as nat) * ratio_factor(i as int)) / pow2(128)
    }
}

/// Rescaling after a factor keeps the order of two ratios.
proof fn lemma_mul_shr_mono(x: nat, y: nat, m: nat)
    requires
        x >= y,
    ensures
        (x * m) / pow2(128) >= (y * m) / pow2(128),
{
    lemma_pow2_pos(128);
    vstd::arithmetic::mul::lemma_mul_inequality(y as int, x as int, m as int);
    vstd::arithmetic::mul::lemma_mul_is_commutative(y as int, m as int);
    vstd::arithmetic::mul::lemma_mul_is_commutative(x as int, m as int);
    lemma_div_is_ordered((y * m) as int, (x * m) as int, pow2(128) as int);
}

/// Applying a factor can only lower a ratio.
proof fn lemma_mul_shr_shrinks(x: nat, m: nat)
    requires
        m < pow2(128),
    ensures
        (x * m) / pow2(128) <= x,
{
    lemma_pow2_pos(128);
    vstd::arithmetic::mul::lemma_mul_inequality(m as int, pow2(128) as int, x as int);
    vstd::arithmetic::mul::lemma_mul_is_commutative(m as int, x as int);
    vstd::arithmetic::mul::lemma_mul_is_commutative(pow2(128) as int, x as int);
    lemma_div_is_ordered((x * m) as int, (x * pow2(128)) as int, pow2(128) as int);
    lemma_div_multiples_vanish(x as int, pow2(128) as int);
    vstd::arithmetic::mul::lemma_mul_is_commutative(x as int, pow2(128) as int);
}

/// The folded ratio of any magnitude stays above the all-factors chain.
proof fn lemma_ratio_after_above_min(a: nat, i: nat)
    ensures
        ratio_after(a, i) >= ratio_min(i),
    decreases i,
{
    lemma_pow2_values();
    if i == 0 {
    } else {
        lemma_ratio_after_above_min(a, (i - 1) as nat);
        let prev = ratio_after(a, (i - 1) as nat);
        let mb = ratio_min((i - 1) as nat);
        if bit_of(a, i) {
            lemma_mul_shr_mono(prev, mb, ratio_factor(i as int));
        } else {
            lemma_factor_below_base(i as int);
            lemma_mul_shr_shrinks(mb, ratio_factor(i as int));
        }
    }
}

/// Every factor is below the Q128 unit.
proof fn lemma_factor_below_base(i: int)
    ensures
        ratio_factor(i) < pow2(128),
{
    lemma_pow2_values();
}

/// The all-factors chain is still a positive number, so no in-range tick can
/// fold the ratio down to zero.
proof fn lemma_ratio_min_positive()
    ensures
        ratio_min(19) > 0,
{
    lemma_pow2_values();
    assert(ratio_min(1) == (ratio_min(0) * ratio_factor(1)) / pow2(128));
    assert(0xfffc_b933_bd6f_ad37_aa2d_162d_1a59_4001nat * 0xfff9_7272_373d_4132_59a4_6990_580e_213anat == 0xfff6_2bbb_6d45_8ec3_c792_1063_91dc_463e_8ed4_8575_4c9a_dc6f_dcb1_5f0f_5186_a13anat);
    assert(0xfff6_2bbb_6d45_8ec3_c792_1063_91dc_463e_8ed4_8575_4c9a_dc6f_dcb1_5f0f_5186_a13anat / pow2(128) == 0xfff6_2bbb_6d45_8ec3_c792_1063_91dc_463enat);
    assert(ratio_min(2) == (ratio_min(1) * ratio_factor(2)) / pow2(128));
    assert(0xfff6_2bbb_6d45_8ec3_c792_1063_91dc_463enat * 0xfff2_e50f_5f65_6932_ef12_357c_f3c7_fdccnat == 0xffe9_114b_9cf2_8d39_4c32_03db_d44e_b085_5b26_0887_34c1_a2f1_b70a_cb6e_6125_3f68nat);
    assert(0xffe9_114b_9cf2_8d39_4c32_03db_d44e_b085_5b26_0887_34c1_a2f1_b70a_cb6e_6125_3f68nat / pow2(128) == 0xffe9_114b_9cf2_8d39_4c32_03db_d44e_b085nat);
    assert(ratio_min(3) == (ratio_min(2) * ratio_factor(3)) / pow2(128));
    assert(0xffe9_114b_9cf2_8d39_4c32_03db_d44e_b085nat * 0xffe5_caca_7e10_e4e6_1c36_24ea_a094_1cd0nat == 0xffce_de6f_1d8b_e90b_88f3_5042_4e84_e5b7_bd01_d27c_5d57_3267_e9a5_2738_4821_f810nat);
    assert(0xffce_de6f_1d8b_e90b_88f3_5042_4e84_e5b7_bd01_d27c_5d57_3267_e9a5_2738_4821_f810nat / pow2(128) == 0xffce_de6f_1d8b_e90b_88f3_5042_4e84_e5b7nat);
    assert(ratio_min(4) == (ratio_min(3) * ratio_factor(4)) / pow2(128));
    assert(0xffce_de6f_1d8b_e90b_88f3_5042_4e84_e5b7nat * 0xffcb_9843_d60f_6159_c9db_5883_5c92_6644nat == 0xff9a_80c1_ada7_480b_1daa_871d_7c4d_9b36_a179_667c_2d3f_9fd4_fc29_bbe3_9531_ee9cnat);
    assert(0xff9a_80c1_ada7_480b_1daa_871d_7c4d_9b36_a179_667c_2d3f_9fd4_fc29_bbe3_9531_ee9cnat / pow2(128) == 0xff9a_80c1_ada7_480b_1daa_871d_7c4d_9b36nat);
    assert(ratio_min(5) == (ratio_min(4) * ratio_factor(5)) / pow2(128));
    assert(0xff9a_80c1_ada7_480b_1daa_871d_7c4d_9b36nat * 0xff97_3b41_fa98_c081_472e_6896_dfb2_54c0nat == 0xff31_e58d_5a53_c84f_c142_023e_c1b1_dfd7_060f_946f_c0d4_9251_103d_ecb4_a6ae_2080nat);
    assert(0xff31_e58d_5a53_c84f_c142_023e_c1b1_dfd7_060f_946f_c0d4_9251_103d_ecb4_a6ae_2080nat / pow2(128) == 0xff31_e58d_5a53_c84f_c142_023e_c1b1_dfd7nat);
    assert(ratio_min(6) == (ratio_min(5) * ratio_factor(6)) / pow2(128));
    assert(0xff31_e58d_5a53_c84f_c142_023e_c1b1_dfd7nat * 0xff2e_a164_66c9_6a38_43ec_78b3_26b5_2861nat == 0xfe61_2f81_83b1_ea21_b72f_b71b_0354_2ae4_0669_5432_c846_e3af_e0fc_4d5d_5c62_6877nat);
    assert(0xfe61_2f81_83b1_ea21_b72f_b71b_0354_2ae4_0669_5432_c846_e3af_e0fc_4d5d_5c62_6877nat / pow2(128) == 0xfe61_2f81_83b1_ea21_b72f_b71b_0354_2ae4nat);
    assert(ratio_min(7) == (ratio_min(6) * ratio_factor(7)) / pow2(128));
    assert(0xfe61_2f81_83b1_ea21_b72f_b71b_0354_2ae4nat * 0xfe5d_ee04_6a99_a2a8_11c4_61f1_969c_3053nat == 0xfcc1_c2f3_8053_6bc6_7ee1_ff56_4d10_80b2_8d69_8796_7d4e_ff3f_c043_8b71_9744_a7ecnat);
    assert(0xfcc1_c2f3_8053_6bc6_7ee1_ff56_4d10_80b2_8d69_8796_7d4e_ff3f_c043_8b71_9744_a7ecnat / pow2(128) == 0xfcc1_c2f3_8053_6bc6_7ee1_ff56_4d10_80b2nat);
    assert(ratio_min(8) == (ratio_min(7) * ratio_factor(8)) / pow2(128));
    assert(0xfcc1_c2f3_8053_6bc6_7ee1_ff56_4d10_80b2nat * 0xfcbe_86c7_900a_88ae_dcff_c83b_479a_a3a4nat == 0xf98a_d8c8_d7ec_c0a3_f8a4_2c97_24cf_fb6a_e2ca_af31_d0f5_afd5_884c_2eff_a997_c808nat);
    assert(0xf98a_d8c8_d7ec_c0a3_f8a4_2c97_24cf_fb6a_e2ca_af31_d0f5_afd5_884c_2eff_a997_c808nat / pow2(128) == 0xf98a_d8c8_d7ec_c0a3_f8a4_2c97_24cf_fb6anat);
    assert(ratio_min(9) == (ratio_min(8) * ratio_factor(9)) / pow2(128));
    assert(0xf98a_d8c8_d7ec_c0a3_f8a4_2c97_24cf_fb6anat * 0xf987_a725_3ac4_1317_6f2b_074c_f781_5e54nat == 0xf33c_4801_89b4_1523_5ad1_1942_7d89_a1f6_80b0_c092_a3c1_4d32_f958_e2f5_68f9_6ac8nat);
    assert(0xf33c_4801_89b4_1523_5ad1_1942_7d89_a1f6_80b0_c092_a3c1_4d32_f958_e2f5_68f9_6ac8nat / pow2(128) == 0xf33c_4801_89b4_1523_5ad1_1942_7d89_a1f6nat);
    assert(ratio_min(10) == (ratio_min(9) * ratio_factor(10)) / pow2(128));
    assert(0xf33c_4801_89b4_1523_5ad1_1942_7d89_a1f6nat * 0xf339_2b08_22b7_0005_940c_7a39_8e4b_70f3nat == 0xe718_89a8_5903_fd03_cb7c_c40b_df37_1a9c_6373_d8a0_b1bf_0d15_5201_7bf8_4792_5c82nat);
    assert(0xe718_89a8_5903_fd03_cb7c_c40b_df37_1a9c_6373_d8a0_b1bf_0d15_5201_7bf8_4792_5c82nat / pow2(128) == 0xe718_89a8_5903_fd03_cb7c_c40b_df37_1a9cnat);
    assert(ratio_min(11) == (ratio_min(10) * ratio_factor(11)) / pow2(128));
    assert(0xe718_89a8_5903_fd03_cb7c_c40b_df37_1a9cnat * 0xe715_9475_a2c2_9b74_43b2_9c7f_a6e8_89d9nat == 0xd09a_9f3e_93db_5812_d482_0c2f_c67a_3e3a_17a8_6762_2281_712f_4431_d119_f853_0a3cnat);
    assert(0xd09a_9f3e_93db_5812_d482_0c2f_c67a_3e3a_17a8_6762_2281_712f_4431_d119_f853_0a3cnat / pow2(128) == 0xd09a_9f3e_93db_5812_d482_0c2f_c67a_3e3anat);
    assert(ratio_min(12) == (ratio_min(11) * ratio_factor(12)) / pow2(128));
    assert(0xd09a_9f3e_93db_5812_d482_0c2f_c67a_3e3anat * 0xd097_f3bd_fd20_22b8_845a_d8f7_92aa_5825nat == 0xa9f9_7334_5b9e_647c_4163_af91_d00b_255f_49d9_2887_aaf2_cb64_2ebe_adc2_1b92_ee62nat);
    assert(0xa9f9_7334_5b9e_647c_4163_af91_d00b_255f_49d9_2887_aaf2_cb64_2ebe_adc2_1b92_ee62nat / pow2(128) == 0xa9f9_7334_5b9e_647c_4163_af91_d00b_255fnat);
    assert(ratio_min(13) == (ratio_min(12) * ratio_factor(13)) / pow2(128));
    assert(0xa9f9_7334_5b9e_647c_4163_af91_d00b_255fnat * 0xa9f7_4646_2d87_0fdf_8a65_dc1f_90e0_61e5nat == 0x70d9_db64_85f0_4ddd_567e_07c7_b89f_8e7c_6275_fc82_87e4_08a6_a240_c68a_7641_6cfbnat);
    assert(0x70d9_db64_85f0_4ddd_567e_07c7_b89f_8e7c_6275_fc82_87e4_08a6_a240_c68a_7641_6cfbnat / pow2(128) == 0x70d9_db64_85f0_4ddd_567e_07c7_b89f_8e7cnat);
    assert(ratio_min(14) == (ratio_min(13) * ratio_factor(14)) / pow2(128));
    assert(0x70d9_db64_85f0_4ddd_567e_07c7_b89f_8e7cnat * 0x70d8_69a1_56d2_a1b8_90bb_3df6_2baf_32f7nat == 0x31be_b65d_91af_63ae_717a_760b_e3b3_74dc_91cf_96a2_529b_b9a5_3182_fceb_868a_b1a4nat);
    assert(0x31be_b65d_91af_63ae_717a_760b_e3b3_74dc_91cf_96a2_529b_b9a5_3182_fceb_868a_b1a4nat / pow2(128) == 0x31be_b65d_91af_63ae_717a_760b_e3b3_74dcnat);
    assert(ratio_min(15) == (ratio_min(14) * ratio_factor(15)) / pow2(128));
    assert(0x31be_b65d_91af_63ae_717a_760b_e3b3_74dcnat * 0x31be_135f_97d0_8fd9_8123_1505_542f_cfa6nat == 0x9aa_7036_fd23_5542_9c40_30b0_32e1_cf71_9800_f1f9_302d_7ee8_2eed_2d6a_663f_aaa8nat);
    assert(0x9aa_7036_fd23_5542_9c40_30b0_32e1_cf71_9800_f1f9_302d_7ee8_2eed_2d6a_663f_aaa8nat / pow2(128) == 0x9aa_7036_fd23_5542_9c40_30b0_32e1_cf71nat);
    assert(ratio_min(16) == (ratio_min(15) * ratio_factor(16)) / pow2(128));
    assert(0x9aa_7036_fd23_5542_9c40_30b0_32e1_cf71nat * 0x9aa_508b_5b7a_84e1_c677_de54_f3e9_9bc9nat == 0x5d_6c2a_f97a_aa8d_e0e5_a6bf_23f5_e547_267d_7630_0021_1435_740e_9fa8_bcbe_4ab9nat);
    assert(0x5d_6c2a_f97a_aa8d_e0e5_a6bf_23f5_e547_267d_7630_0021_1435_740e_9fa8_bcbe_4ab9nat / pow2(128) == 0x5d_6c2a_f97a_aa8d_e0e5_a6bf_23f5_e547nat);
    assert(ratio_min(17) == (ratio_min(16) * ratio_factor(17)) / pow2(128));
    assert(0x5d_6c2a_f97a_aa8d_e0e5_a6bf_23f5_e547nat * 0x5d_6af8_dedb_8119_6699_c329_225e_e604nat == 0x2217_5538_8a66_58e1_20f4_a3c5_03cf_409b_9bfa_77c2_25fe_d5d1_ff68_19e7_5f1cnat);
    assert(0x2217_5538_8a66_58e1_20f4_a3c5_03cf_409b_9bfa_77c2_25fe_d5d1_ff68_19e7_5f1cnat / pow2(128) == 0x2217_5538_8a66_58e1_20f4_a3c5_03cfnat);
    assert(ratio_min(18) == (ratio_min(17) * ratio_factor(18)) / pow2(128));
    assert(0x2217_5538_8a66_58e1_20f4_a3c5_03cfnat * 0x2216_e584_f5fa_1ea9_2604_1bed_fe98nat == 0x48a_25e3_6942_a4fc_0c1f_899f_8f5e_790b_76e4_9aa3_076b_79c6_1264_a4e8nat);
    assert(0x48a_25e3_6942_a4fc_0c1f_899f_8f5e_790b_76e4_9aa3_076b_79c6_1264_a4e8nat / pow2(128) == 0x48a_25e3_6942_a4fc_0c1f_899fnat);
    assert(ratio_min(19) == (ratio_min(18) * ratio_factor(19)) / pow2(128));
    assert(0x48a_25e3_6942_a4fc_0c1f_899fnat * 0x48a_1703_91f7_dc42_444e_8fa2nat == 0x14_9b78_73d8_4d48_5b16_33bb_fe4c_607a_2028_636d_7446_e79enat);
    assert(0x14_9b78_73d8_4d48_5b16_33bb_fe4c_607a_2028_636d_7446_e79enat / pow2(128) == 0x14_9b78_73d8_4d48nat);
    assert(ratio_min(19) == 0x14_9b78_73d8_4d48nat);
}

/// The Q128 square-root ratio of any magnitude is positive.
pub proof fn lemma_sqrt_ratio_positive(a: nat)
    ensures
        sqrt_ratio_x128_of(a) > 0,
{
    lemma_ratio_after_above_min(a, 19);
    lemma_ratio_min_positive();
}

/// One Q128 multiply-and-rescale step.
fn mul_shr_128(r: &U256, m: u128) -> (res: U256)
    requires
        r@ <= pow2(128),
    ensures
        res@ == (r@ * (m as nat)) / pow2(128),
        res@ <= m,
{
    let mm = U256::from_u128(m);
    proof {
        lemma_pow2_values();
        lemma_pow2_adds(128, 128);
        lemma_pow2_pos(128);
        assert(r@ * (m as nat) <= pow2(128) * (m as nat)) by {
            lemma_mul_inequality(r@ as int, pow2(128) as int, m as int);
            vstd::arithmetic::mul::lemma_mul_is_commutative(r@ as int, m as int);
            vstd::arithmetic::mul::lemma_mul_is_commutative(pow2(128) as int, m as int);
        }
        assert(pow2(128) * (m as nat) < pow2(128) * pow2(128)) by {
            vstd::arithmetic::mul::lemma_mul_strict_inequality(
                m as int,
                pow2(128) as int,
                pow2(128) as int,
            );
            vstd::arithmetic::mul::lemma_mul_is_commutative(pow2(128) as int, m as int);
        }
    }
    let prod = match r.checked_mul(&mm) {
        Some(p) => p,
        None => {
            proof {
                assert(false);
            }
            U256::zero()
        },
    };
    let (res, _) = prod.shr_with_rem(128);
    proof {
        lemma_div_is_ordered(prod@ as int, (pow2(128) * (m as nat)) as int, pow2(128) as int);
        lemma_div_multiples_vanish(m as int, pow2(128) as int);
    }
    res
}

/// Bit `i` of a tick magnitude.
fn abs_tick_bit(a: u32, i: u32) -> (r: bool)
    requires
        i < 32,
    ensures
        r == bit_of(a as nat, i as nat),
{
    let p = crate::limbs::pow2_u64(i as u64);
    proof {
        lemma_pow2_pos(i as nat);
    }
    ((a as u64) / p) % 2 == 1
}

/// The square-root price of a tick in Q96 fixed point.
///
/// `None` exactly when the tick lies outside `±MAX_TICK`, or (for a positive
/// tick) when the accumulated ratio degenerated to zero, which would make the
/// inversion meaningless.
pub fn price_from_tick(target_tick: i32) -> (r: Option<U256>)
    ensures
        match r {
            Some(v) => tick_in_range(target_tick as int) && v@ == price_of_tick(
                target_tick as int,
            ),
            None => !tick_in_range(target_tick as int),
        },
{
    if target_tick > MAX_TICK || target_tick < -MAX_TICK {
        return None;
    }
    let abs_tick: u32 = if target_tick < 0 {
        (-target_tick) as u32
    } else {
        target_tick as u32
    };
    let ghost at = abs_tick as nat;
    proof {
        lemma2_to64();
        lemma_pow2_values();
    }
    let mut ratio = if abs_tick % 2 == 1 {
        U256::from_u128(RATIO_SEED_ODD)
    } else {
        U256::pow2_value(128)
    };
    proof {
        assert(ratio@ == ratio_after(at, 0));
    }
    let mut i: u32 = 1;
    while i <= 19
        invariant
            1 <= i <= 20,
            at == abs_tick as nat,
            ratio@ == ratio_after(at, (i - 1) as nat),
            ratio@ <= pow2(128),
        decreases 20 - i,
    {
        let m = ratio_factor_at(i);
        if abs_tick_bit(abs_tick, i) {
            ratio = mul_shr_128(&ratio, m);
            proof {
                lemma_pow2_values();
                assert((m as nat) < pow2(128));
            }
        }
        i = i + 1;
    }
    proof {
        assert(ratio@ == sqrt_ratio_x128_of(at));
        assert(abs_tick_of(target_tick as int) == at);
    }
    let mut p = ratio;
    if target_tick > 0 {
        if p.is_zero() {
            proof {
                lemma_sqrt_ratio_positive(at);
                assert(false);
            }
            return None;
        }
        let maxv = U256::max_value();
        p = match maxv.checked_div(&p) {
            Some(q) => {
                proof {
                    lemma_div_nonincreasing(maxv@ as int, ratio@ as int);
                }
                q
            },
            None => {
                proof {
                    assert(false);
                }
                U256::zero()
            },
        };
    } else {
        proof {
            lemma_pow2_strictly_increases(128, 256);
        }
    }
    proof {
        assert(p@ < pow2(256));
    }
    let (shifted, lost) = p.shr_with_rem(32);
    proof {
        lemma_pow2_adds(32, 224);
        lemma_multiply_divide_lt(p@ as int, pow2(32) as int, pow2(224) as int);
        lemma_pow2_strictly_increases(224, 256);
        lemma_pow2_pos(32);
    }
    let result = if lost {
        let one = U256::from_u128(1);
        match shifted.checked_add(&one) {
            Some(v) => v,
            None => {
                proof {
                    assert(false);
                }
                U256::zero()
            },
        }
    } else {
        shifted
    };
    Some(result)
}

/// The factor table, indexed by bit position.
fn ratio_factor_at(i: u32) -> (r: u128)
    requires
        1 <= i <= 19,
    ensures
        r == ratio_factor(i as int),
{
    if i == 1 {
        RATIO_FACTOR_1
    } else if i == 2 {
        RATIO_FACTOR_2
    } else if i == 3 {
        RATIO_FACTOR_3
    } else if i == 4 {
        RATIO_FACTOR_4
    } else if i == 5 {
        RATIO_FACTOR_5
    } else if i == 6 {
        RATIO_FACTOR_6
    } else if i == 7 {
        RATIO_FACTOR_7
    } else if i == 8 {
        RATIO_FACTOR_8
    } else if i == 9 {
        RATIO_FACTOR_9
    } else if i == 10 {
        RATIO_FACTOR_10
    } else if i == 11 {
        RATIO_FACTOR_11
    } else if i == 12 {
        RATIO_FACTOR_12
    } else if i == 13 {
        RATIO_FACTOR_13
    } else if i == 14 {
        RATIO_FACTOR_14
    } else if i == 15 {
        RATIO_FACTOR_15
    } else if i == 16 {
        RATIO_FACTOR_16
    } else if i == 17 {
        RATIO_FACTOR_17
    } else if i == 18 {
        RATIO_FACTOR_18
    } else {
        RATIO_FACTOR_19
    }
}

/// No bit of zero is set.
proof fn lemma_bit_of_zero(i: nat)
    ensures
        !bit_of(0, i),
{
    lemma_pow2_pos(i);
}

/// Folding the factors into a zero magnitude leaves the seed untouched.
proof fn lemma_ratio_after_zero(i: nat)
    ensures
        ratio_after(0, i) == pow2(128),
    decreases i,
{
    if i > 0 {
        lemma_ratio_after_zero((i - 1) as nat);
        lemma_bit_of_zero(i);
    }
}

/// The unit tick: at tick zero the Q96 square-root price is exactly 2^96.
pub proof fn lemma_price_of_tick_zero()
    ensures
        price_of_tick(0) == 0x1000000000000000000000000,
{
    lemma_ratio_after_zero(19);
    assert(abs_tick_of(0) == 0);
    assert(sqrt_ratio_x128_of(0) == pow2(128));
    lemma_pow2_adds(32, 96);
    lemma_pow2_pos(32);
    lemma_pow2_pos(96);
    assert(pow2(128) % pow2(32) == 0) by {
        vstd::arithmetic::div_mod::lemma_mod_multiples_basic(pow2(96) as int, pow2(32) as int);
        vstd::arithmetic::mul::lemma_mul_is_commutative(pow2(96) as int, pow2(32) as int);
    }
    assert(pow2(128) / pow2(32) == pow2(96)) by {
        lemma_div_multiples_vanish(pow2(96) as int, pow2(32) as int);
    }
    lemma_pow2_values();
}

/// Smallest square-root price the reverse conversion accepts.
pub const MIN_SQRT_PRICE: u64 = 4295128739;

/// One more than the largest square-root price the reverse conversion
/// accepts, as little-endian 64-bit limbs.
pub const MAX_SQRT_PRICE_LIMB0: u64 = 0x5d951d5263988d26;

pub const MAX_SQRT_PRICE_LIMB1: u64 = 0xefd1fc6a50648849;

pub const MAX_SQRT_PRICE_LIMB2: u64 = 0xfffd8963;

/// Q128 fixed-point evaluation of log(1.0001)/log(2), inverted.
pub const LOG_SCALE: u128 = 255738958999603826347141;

/// Correction subtracted before rounding the low tick candidate.
pub const TICK_LOW_BIAS: u128 = 3402992956809132418596140100660247210;

/// Correction added before rounding the high tick candidate.
pub const TICK_HIGH_BIAS: u128 = 291339464771989622907027621153398088495;

pub open spec fn max_sqrt_price() -> nat {
    (MAX_SQRT_PRICE_LIMB0 as nat) + (MAX_SQRT_PRICE_LIMB1 as nat) * pow2(64) + (
    MAX_SQRT_PRICE_LIMB2 as nat) * pow2(128)
}

pub open spec fn price_in_bounds(p: nat) -> bool {
    MIN_SQRT_PRICE <= p < max_sqrt_price()
}

/// Position of the highest set bit.
pub open spec fn spec_msb(x: nat) -> nat {
    choose|i: nat| #[trigger] pow2(i) <= x < pow2(i + 1)
}

pub proof fn lemma_spec_msb(x: nat, i: nat)
    requires
        pow2(i) <= x < pow2(i + 1),
    ensures
        spec_msb(x) == i,
{
    assert(exists|k: nat| #[trigger] pow2(k) <= x < pow2(k + 1)) by {
        assert(pow2(i) <= x < pow2(i + 1));
    }
    let j = spec_msb(x);
    assert(pow2(j) <= x < pow2(j + 1));
    if j < i {
        if j + 1 < i {
            lemma_pow2_strictly_increases((j + 1) as nat, i as nat);
        }
        assert(pow2(j + 1) <= pow2(i));
        assert(false);
    }
    if i < j {
        if i + 1 < j {
            lemma_pow2_strictly_increases((i + 1) as nat, j as nat);
        }
        assert(pow2(i + 1) <= pow2(j));
        assert(false);
    }
}

/// The price shifted into a Q128 mantissa in [2^127, 2^128).
pub open spec fn norm_ratio(x: nat) -> nat {
    let m = spec_msb(x);
    if m >= 128 {
        x / pow2((m - 127) as nat)
    } else {
        x * pow2((127 - m) as nat)
    }
}

/// One squaring refinement: the squared mantissa, rescaled.
pub open spec fn refine_sq(r: nat) -> nat {
    (r * r) / pow2(127)
}

/// The integer bit that refinement exposes.
pub open spec fn refine_bit(r: nat) -> nat {
    refine_sq(r) / pow2(128)
}

/// The mantissa the next refinement step works on.
pub open spec fn refine_next(r: nat) -> nat {
    refine_sq(r) / pow2(refine_bit(r))
}

/// The fractional log2 bits gathered by `n` remaining squaring steps.
pub open spec fn log_frac(r: nat, n: nat) -> int
    decreases n,
{
    if n == 0 {
        0
    } else {
        (refine_bit(r) * pow2((49 + n) as nat)) + log_frac(refine_next(r), (n - 1) as nat)
    }
}

/// The base-2 logarithm of a Q128 value, as a signed Q64 fixed-point number.
pub open spec fn log2_x64(x128: nat) -> int {
    (spec_msb(x128) - 128) * pow2(64) + log_frac(norm_ratio(x128), 14)
}

pub open spec fn log_sqrt10001_of(p: nat) -> int {
    log2_x64((p * pow2(32)) as nat) * (LOG_SCALE as int)
}

pub open spec fn tick_low_of(p: nat) -> int {
    (log_sqrt10001_of(p) - TICK_LOW_BIAS) / pow2(128) as int
}

pub open spec fn tick_high_of(p: nat) -> int {
    (log_sqrt10001_of(p) + TICK_HIGH_BIAS) / pow2(128) as int
}

/// The tick the reverse conversion settles on: defined exactly for prices in
/// bounds. Where the two rounded candidates disagree, the high one wins when
/// its own price does not exceed the input; otherwise — including the corner
/// where the high candidate has no price at all — the low one does.
pub open spec fn tick_of_price(p: nat) -> Option<int> {
    if !price_in_bounds(p) {
        None
    } else {
        let lo = tick_low_of(p);
        let hi = tick_high_of(p);
        if lo == hi {
            Some(hi)
        } else if tick_in_range(hi) && price_of_tick(hi) <= p {
            Some(hi)
        } else {
            Some(lo)
        }
    }
}

/// The nearest tick for a Q96 square-root price.
///
/// `None` exactly when the price lies outside
/// `[MIN_SQRT_PRICE, max_sqrt_price())`.
#[verifier::rlimit(60)]
pub fn tick_from_price(sqrt_price_x96: U256) -> (r: Option<i32>)
    ensures
        match r {
            Some(t) => tick_of_price(sqrt_price_x96@) == Some(t as int),
            None => tick_of_price(sqrt_price_x96@) is None,
        },
{
    let ghost pv = sqrt_price_x96@;
    proof {
        lemma_pow2_values();
    }
    let min_sqrt = U256::from_u128(MIN_SQRT_PRICE as u128);
    let mut maxl: Vec<u64> = Vec::new();
    maxl.push(MAX_SQRT_PRICE_LIMB0);
    maxl.push(MAX_SQRT_PRICE_LIMB1);
    maxl.push(MAX_SQRT_PRICE_LIMB2);
    maxl.push(0);
    proof {
        assert(maxl@ =~= seq![MAX_SQRT_PRICE_LIMB0, MAX_SQRT_PRICE_LIMB1, MAX_SQRT_PRICE_LIMB2, 0u64]);
    }
    let max_sqrt = U256::from_limbs(maxl);
    proof {
        lemma_limbs4_value(
            max_sqrt,
            MAX_SQRT_PRICE_LIMB0,
            MAX_SQRT_PRICE_LIMB1,
            MAX_SQRT_PRICE_LIMB2,
        );
        assert(max_sqrt@ == max_sqrt_price());
    }
    if sqrt_price_x96.lt(&min_sqrt) || !sqrt_price_x96.lt(&max_sqrt) {
        return None;
    }
    // Q128.128 operand of the logarithm
    let x128 = match sqrt_price_x96.shl_checked(32) {
        Some(v) => v,
        None => {
            proof {
                assert(pv * pow2(32) < pow2(160) * pow2(32)) by {
                    assert(pv < pow2(160));
                    lemma_pow2_pos(32);
                    vstd::arithmetic::mul::lemma_mul_strict_inequality(
                        pv as int,
                        pow2(160) as int,
                        pow2(32) as int,
                    );
                    vstd::arithmetic::mul::lemma_mul_is_commutative(pv as int, pow2(32) as int);
                    vstd::arithmetic::mul::lemma_mul_is_commutative(
                        pow2(160) as int,
                        pow2(32) as int,
                    );
                }
                lemma_pow2_adds(160, 32);
                lemma_pow2_strictly_increases(192, 256);
                assert(false);
            }
            U256::zero()
        },
    };
    let ghost xv = x128@;
    let msb = match x128.msb() {
        Some(m) => m,
        None => {
            proof {
                lemma_pow2_pos(32);
                vstd::arithmetic::mul::lemma_mul_strictly_positive(pv as int, pow2(32) as int);
                assert(false);
            }
            0
        },
    };
    proof {
        lemma_spec_msb(xv, msb as nat);
    }
    // normalize into [2^127, 2^128)
    let r0 = if msb >= 128 {
        let (q, _) = x128.shr_with_rem(msb - 127);
        proof {
            lemma_pow2_adds((msb - 127) as nat, 128);
            lemma_multiply_divide_lt(xv as int, pow2((msb - 127) as nat) as int, pow2(128) as int);
            lemma_pow2_pos((msb - 127) as nat);
            vstd::arithmetic::power2::lemma_pow2_subtracts((msb - 127) as nat, msb as nat);
            lemma_div_is_ordered(pow2(msb as nat) as int, xv as int, pow2((msb - 127) as nat) as int);
        }
        q
    } else {
        match x128.shl_checked(127 - msb) {
            Some(v) => {
                proof {
                    lemma_mul_norm_bounds(xv, msb as nat);
                }
                v
            },
            None => {
                proof {
                    lemma_mul_norm_bounds(xv, msb as nat);
                    lemma_pow2_strictly_increases(128, 256);
                    assert(false);
                }
                U256::zero()
            },
        }
    };
    proof {
        assert(r0@ == norm_ratio(xv));
    }
    let mut rr = r0;
    let mut log2: i128 = (msb as i128 - 128) * 0x1_0000_0000_0000_0000;
    let ghost base = (msb as int - 128) * pow2(64);
    let mut i: u32 = 0;
    while i < 14
        invariant
            i <= 14,
            pow2(127) <= rr@ < pow2(128),
            base == (msb as int - 128) * pow2(64),
            -(128 * pow2(64) as int) <= base <= 128 * pow2(64),
            log2 == base + (log_frac(r0@, 14) - log_frac(rr@, (14 - i) as nat)),
            0 <= log_frac(r0@, 14) - log_frac(rr@, (14 - i) as nat),
            log_frac(r0@, 14) - log_frac(rr@, (14 - i) as nat) <= pow2(64) - pow2(
                (64 - i) as nat,
            ),
        decreases 14 - i,
    {
        proof {
            lemma_pow2_values();
            lemma_pow2_adds(128, 128);
            assert(rr@ * rr@ < pow2(128) * pow2(128)) by {
                vstd::arithmetic::mul::lemma_mul_strict_upper_bound(
                    rr@ as int,
                    pow2(128) as int,
                    rr@ as int,
                    pow2(128) as int,
                );
            }
            assert(rr@ * rr@ >= pow2(127) * pow2(127)) by {
                lemma_mul_inequality(pow2(127) as int, rr@ as int, pow2(127) as int);
                lemma_mul_inequality(pow2(127) as int, rr@ as int, rr@ as int);
                vstd::arithmetic::mul::lemma_mul_is_commutative(pow2(127) as int, rr@ as int);
            }
            lemma_pow2_adds(127, 127);
        }
        let sq = match rr.checked_mul(&rr) {
            Some(v) => v,
            None => {
                proof {
                    assert(false);
                }
                U256::zero()
            },
        };
        let (rs, _) = sq.shr_with_rem(127);
        proof {
            // 2^127 <= rs < 2^129
            lemma_pow2_adds(127, 129);
            lemma_multiply_divide_lt(sq@ as int, pow2(127) as int, pow2(129) as int);
            lemma_pow2_pos(127);
            vstd::arithmetic::power2::lemma_pow2_subtracts(127, 254);
            lemma_div_is_ordered(pow2(254) as int, sq@ as int, pow2(127) as int);
            lemma_pow2_strictly_increases(127, 129);
            // f is 0 or 1
            lemma_pow2_adds(128, 1);
            lemma_multiply_divide_lt(rs@ as int, pow2(128) as int, 2);
            lemma_pow2_pos(128);
        }
        let (fq, _) = rs.shr_with_rem(128);
        let fone = !fq.is_zero();
        proof {
            assert(rs@ / pow2(128) < 2);
            if fone {
                assert(rs@ / pow2(128) == 1);
                assert(rs@ >= pow2(128)) by {
                    if rs@ < pow2(128) {
                        vstd::arithmetic::div_mod::lemma_basic_div(rs@ as int, pow2(128) as int);
                    }
                }
            } else {
                assert(rs@ / pow2(128) == 0);
                assert(rs@ < pow2(128)) by {
                    if rs@ >= pow2(128) {
                        lemma_div_is_ordered(pow2(128) as int, rs@ as int, pow2(128) as int);
                        lemma_div_multiples_vanish(1, pow2(128) as int);
                    }
                }
            }
        }
        let shift = crate::limbs::pow2_u64((63 - i) as u64);
        proof {
            lemma_pow2_strictly_increases((63 - i) as nat, 64);
            lemma_pow2_strictly_increases((63 - i) as nat, (64 - i) as nat);
            lemma_pow2_adds((63 - i) as nat, 1);
            // unfold one refinement step
            lemma_log_frac_unfold(rr@, (14 - i) as nat);
            assert(refine_sq(rr@) == rs@);
            assert(refine_bit(rr@) == rs@ / pow2(128));
            assert(log_frac(rr@, (14 - i) as nat) == ((rs@ / pow2(128)) * pow2(
                (49 + 14 - i) as nat,
            )) + log_frac(rs@ / pow2((rs@ / pow2(128)) as nat), (14 - i - 1) as nat));
            assert((49 + 14 - i) as nat == (63 - i) as nat);
        }
        if fone {
            log2 = log2 + (shift as i128);
            let (rhalf, _) = rs.shr_with_rem(1);
            proof {
                lemma2_to64();
                assert(rs@ / pow2((rs@ / pow2(128)) as nat) == rs@ / 2) by {
                    assert(pow2(1) == 2);
                }
                assert(pow2(129) == pow2(128) * 2);
                lemma_multiply_divide_lt(rs@ as int, 2, pow2(128) as int);
                vstd::arithmetic::power2::lemma_pow2_subtracts(1, 128);
                lemma_div_is_ordered(pow2(128) as int, rs@ as int, 2);
                assert((rs@ / pow2(128)) * pow2((63 - i) as nat) == pow2((63 - i) as nat));
            }
            rr = rhalf;
        } else {
            proof {
                lemma2_to64();
                assert(pow2(0) == 1);
                assert(rs@ / pow2((rs@ / pow2(128)) as nat) == rs@ / 1);
                vstd::arithmetic::div_mod::lemma_div_basics_2(rs@ as int);
                assert((rs@ / pow2(128)) * pow2((63 - i) as nat) == 0) by {
                    vstd::arithmetic::mul::lemma_mul_basics(pow2((63 - i) as nat) as int);
                }
            }
            rr = rs;
        }
        i = i + 1;
    }
    proof {
        assert(log_frac(rr@, 0) == 0);
        lemma_pow2_pos(50);
        assert(log2 == base + log_frac(r0@, 14));
        assert(log2 == log2_x64(xv));
    }
    // scale by log(1.0001)/log(2), in sign and magnitude
    let neg = log2 < 0;
    let mag: u128 = if neg {
        (-log2) as u128
    } else {
        log2 as u128
    };
    proof {
        lemma_pow2_values();
        assert(mag < pow2(72)) by {
            assert(log_frac(r0@, 14) < pow2(64));
            assert(pow2(72) == 256 * pow2(64)) by {
                lemma_pow2_adds(8, 64);
                lemma2_to64();
            }
        }
    }
    let scale = U256::from_u128(LOG_SCALE);
    let magv = U256::from_u128(mag);
    let ls_mag = match magv.checked_mul(&scale) {
        Some(v) => v,
        None => {
            proof {
                lemma_pow2_adds(72, 78);
                assert((mag as int) * (LOG_SCALE as int) < pow2(150) as int) by (nonlinear_arith)
                    requires
                        0 <= (mag as int) < pow2(72) as int,
                        0 <= (LOG_SCALE as int) < pow2(78) as int,
                        pow2(150) == pow2(72) * pow2(78),
                ;
                lemma_pow2_strictly_increases(150, 256);
                assert(false);
            }
            U256::zero()
        },
    };
    let ghost ls = log_sqrt10001_of(pv);
    proof {
        lemma_pow2_adds(72, 78);
        assert((mag as int) * (LOG_SCALE as int) < pow2(150) as int) by (nonlinear_arith)
            requires
                0 <= (mag as int) < pow2(72) as int,
                0 <= (LOG_SCALE as int) < pow2(78) as int,
                pow2(150) == pow2(72) * pow2(78),
        ;
        if neg {
            assert(ls == -(ls_mag@ as int)) by {
                vstd::arithmetic::mul::lemma_mul_unary_negation(log2 as int, LOG_SCALE as int);
            }
        } else {
            assert(ls == ls_mag@);
        }
        assert(-(pow2(150) as int) < ls < pow2(150) as int);
    }
    // bias by 2^200 so the rounding divisions stay unsigned
    let bias = U256::pow2_value(200);
    let biased = if neg {
        match bias.checked_sub(&ls_mag) {
            Some(v) => v,
            None => {
                proof {
                    lemma_pow2_strictly_increases(150, 200);
                    assert(false);
                }
                U256::zero()
            },
        }
    } else {
        match bias.checked_add(&ls_mag) {
            Some(v) => v,
            None => {
                proof {
                    lemma_pow2_strictly_increases(150, 200);
                    lemma_pow2_strictly_increases(201, 256);
                    lemma_pow2_adds(200, 1);
                    assert(false);
                }
                U256::zero()
            },
        }
    };
    proof {
        lemma_pow2_strictly_increases(150, 200);
        assert(biased@ == pow2(200) + ls);
    }
    let low_t = biased_candidate_sub(&biased, TICK_LOW_BIAS, Ghost(ls));
    let high_t = biased_candidate_add(&biased, TICK_HIGH_BIAS, Ghost(ls));
    proof {
        assert(low_t as int == tick_low_of(pv));
        assert(high_t as int == tick_high_of(pv));
    }
    if high_t == low_t {
        return Some(high_t);
    }
    match price_from_tick(high_t) {
        None => Some(low_t),
        Some(ph) => {
            if !sqrt_price_x96.lt(&ph) {
                Some(high_t)
            } else {
                Some(low_t)
            }
        },
    }
}

/// One unfolding of the refinement recursion.
proof fn lemma_log_frac_unfold(r: nat, n: nat)
    requires
        n > 0,
    ensures
        log_frac(r, n) == (refine_bit(r) * pow2((49 + n) as nat)) + log_frac(
            refine_sq(r) / pow2(refine_bit(r)),
            (n - 1) as nat,
        ),
{
    reveal_with_fuel(log_frac, 2);
    assert(n != 0);
    assert(log_frac(r, n) == if n == 0 {
        0int
    } else {
        (refine_bit(r) * pow2((49 + n) as nat)) + log_frac(
            refine_sq(r) / pow2(refine_bit(r)),
            (n - 1) as nat,
        )
    });
}

/// A normalized mantissa scaled up stays inside [2^127, 2^128).
proof fn lemma_mul_norm_bounds(xv: nat, m: nat)
    requires
        m < 128,
        pow2(m) <= xv < pow2(m + 1),
    ensures
        pow2(127) <= xv * pow2((127 - m) as nat) < pow2(128),
{
    lemma_pow2_pos((127 - m) as nat);
    lemma_pow2_adds(m, (127 - m) as nat);
    lemma_pow2_adds((m + 1) as nat, (127 - m) as nat);
    assert(pow2(m) * pow2((127 - m) as nat) <= xv * pow2((127 - m) as nat)) by {
        lemma_mul_inequality(pow2(m) as int, xv as int, pow2((127 - m) as nat) as int);
    }
    assert(xv * pow2((127 - m) as nat) < pow2((m + 1) as nat) * pow2((127 - m) as nat)) by {
        vstd::arithmetic::mul::lemma_mul_strict_inequality(
            xv as int,
            pow2((m + 1) as nat) as int,
            pow2((127 - m) as nat) as int,
        );
        vstd::arithmetic::mul::lemma_mul_is_commutative(xv as int, pow2((127 - m) as nat) as int);
        vstd::arithmetic::mul::lemma_mul_is_commutative(
            pow2((m + 1) as nat) as int,
            pow2((127 - m) as nat) as int,
        );
    }
}

/// Subtract a correction from the biased logarithm and round down to a tick.
fn biased_candidate_sub(biased: &U256, c: u128, Ghost(ls): Ghost<int>) -> (t: i32)
    requires
        c < pow2(122),
        -(pow2(150) as int) < ls < pow2(150) as int,
        biased@ == pow2(200) + ls,
    ensures
        t as int == (ls - c) / pow2(128) as int,
{
    proof {
        lemma2_to64();
        lemma_pow2_values();
        lemma_pow2_strictly_increases(122, 150);
        lemma_pow2_strictly_increases(150, 200);
        lemma_pow2_strictly_increases(151, 200);
        lemma_pow2_adds(150, 1);
        assert(pow2(151) == pow2(150) * 2);
        assert(pow2(200) - pow2(151) >= pow2(151)) by {
            lemma_pow2_strictly_increases(152, 200);
            lemma_pow2_adds(151, 1);
        }
    }
    let cc = U256::from_u128(c);
    let inner = match biased.checked_sub(&cc) {
        Some(v) => v,
        None => {
            proof {
                assert(false);
            }
            U256::zero()
        },
    };
    let (q, _) = inner.shr_with_rem(128);
    let qv = match q.to_u128_checked() {
        Some(v) => v,
        None => {
            proof {
                lemma_shifted_quotient_range(inner@);
                assert(false);
            }
            0
        },
    };
    proof {
        lemma_shifted_quotient_range(inner@);
        lemma_pow2_adds(72, 128);
        assert(inner@ == ls - c + pow2(72) * pow2(128));
        vstd::arithmetic::div_mod::lemma_hoist_over_denominator(
            ls - c,
            pow2(72) as int,
            pow2(128),
        );
        assert((ls - c) / pow2(128) as int + pow2(72) == inner@ as int / pow2(128) as int);
        // the candidate is small: |ls - c| < 2^151, so the quotient sits within 2^23 of the bias
        assert((ls - c) / pow2(128) as int >= -(pow2(23) as int)) by {
            assert(ls - c >= -(pow2(151) as int));
            lemma_pow2_adds(23, 128);
            assert((-(pow2(23) as int)) * (pow2(128) as int) == -(pow2(151) as int)) by {
                vstd::arithmetic::mul::lemma_mul_unary_negation(
                    pow2(23) as int,
                    pow2(128) as int,
                );
            }
            vstd::arithmetic::div_mod::lemma_div_multiples_vanish(
                -(pow2(23) as int),
                pow2(128) as int,
            );
            lemma_div_is_ordered(-(pow2(151) as int), ls - c, pow2(128) as int);
        }
        assert((ls - c) / pow2(128) as int <= pow2(22) as int) by {
            assert(ls - c < pow2(150));
            lemma_pow2_adds(22, 128);
            lemma_div_is_ordered(ls - c, pow2(150) as int, pow2(128) as int);
            vstd::arithmetic::div_mod::lemma_div_multiples_vanish(
                pow2(22) as int,
                pow2(128) as int,
            );
        }
        lemma_pow2_strictly_increases(22, 23);
    }
    let tick = (qv as i128) - 0x1_0000_0000_0000_0000_00i128;
    proof {
        assert(pow2(23) == 0x800000);
        assert(pow2(72) == 0x1_0000_0000_0000_0000_00);
    }
    tick as i32
}

/// Add a correction to the biased logarithm and round down to a tick.
fn biased_candidate_add(biased: &U256, c: u128, Ghost(ls): Ghost<int>) -> (t: i32)
    requires
        c < pow2(128),
        -(pow2(150) as int) < ls < pow2(150) as int,
        biased@ == pow2(200) + ls,
    ensures
        t as int == (ls + c) / pow2(128) as int,
{
    proof {
        lemma2_to64();
        lemma_pow2_values();
        lemma_pow2_strictly_increases(150, 200);
        lemma_pow2_strictly_increases(128, 150);
        lemma_pow2_strictly_increases(201, 256);
        lemma_pow2_adds(200, 1);
        lemma_pow2_adds(150, 1);
        assert(pow2(151) == pow2(150) * 2);
        assert(pow2(200) - pow2(151) >= 0) by {
            lemma_pow2_strictly_increases(151, 200);
        }
    }
    let cc = U256::from_u128(c);
    let inner = match biased.checked_add(&cc) {
        Some(v) => v,
        None => {
            proof {
                assert(false);
            }
            U256::zero()
        },
    };
    let (q, _) = inner.shr_with_rem(128);
    let qv = match q.to_u128_checked() {
        Some(v) => v,
        None => {
            proof {
                lemma_shifted_quotient_range(inner@);
                assert(false);
            }
            0
        },
    };
    proof {
        lemma_shifted_quotient_range(inner@);
        lemma_pow2_adds(72, 128);
        assert(inner@ == ls + c + pow2(72) * pow2(128));
        vstd::arithmetic::div_mod::lemma_hoist_over_denominator(
            ls + c,
            pow2(72) as int,
            pow2(128),
        );
        assert((ls + c) / pow2(128) as int + pow2(72) == inner@ as int / pow2(128) as int);
        assert((ls + c) / pow2(128) as int >= -(pow2(23) as int)) by {
            assert(ls + c >= -(pow2(151) as int));
            lemma_pow2_adds(23, 128);
            assert((-(pow2(23) as int)) * (pow2(128) as int) == -(pow2(151) as int)) by {
                vstd::arithmetic::mul::lemma_mul_unary_negation(
                    pow2(23) as int,
                    pow2(128) as int,
                );
            }
            vstd::arithmetic::div_mod::lemma_div_multiples_vanish(
                -(pow2(23) as int),
                pow2(128) as int,
            );
            lemma_div_is_ordered(-(pow2(151) as int), ls + c, pow2(128) as int);
        }
        assert((ls + c) / pow2(128) as int <= pow2(23) as int) by {
            assert(ls + c < pow2(151));
            lemma_pow2_adds(23, 128);
            lemma_div_is_ordered(ls + c, pow2(151) as int, pow2(128) as int);
            vstd::arithmetic::div_mod::lemma_div_multiples_vanish(
                pow2(23) as int,
                pow2(128) as int,
            );
        }
    }
    let tick = (qv as i128) - 0x1_0000_0000_0000_0000_00i128;
    proof {
        assert(pow2(23) == 0x800000);
        assert(pow2(72) == 0x1_0000_0000_0000_0000_00);
    }
    tick as i32
}

/// A value within 2^151 of the 2^200 bias lands, after the Q128 shift, within
/// 2^23 of 2^72.
proof fn lemma_shifted_quotient_range(v: nat)
    requires
        pow2(200) - pow2(151) < v < pow2(200) + pow2(151),
    ensures
        pow2(72) - pow2(23) <= v / pow2(128) < pow2(72) + pow2(24),
        v / pow2(128) < pow2(128),
{
    lemma_pow2_values();
    lemma_pow2_pos(128);
    lemma_pow2_adds(72, 128);
    lemma_pow2_adds(23, 128);
    lemma_pow2_adds(24, 128);
    lemma_pow2_strictly_increases(151, 24 + 128);
    // lower: v >= 2^200 - 2^151 >= (2^72 - 2^23) * 2^128
    assert((pow2(72) - pow2(23)) * pow2(128) == pow2(200) - pow2(151)) by {
        vstd::arithmetic::mul::lemma_mul_is_distributive_sub_other_way(
            pow2(128) as int,
            pow2(72) as int,
            pow2(23) as int,
        );
    }
    assert(v / pow2(128) >= pow2(72) - pow2(23)) by {
        vstd::arithmetic::div_mod::lemma_div_multiples_vanish(
            pow2(72) as int - pow2(23) as int,
            pow2(128) as int,
        );
        lemma_div_is_ordered(pow2(200) as int - pow2(151) as int, v as int, pow2(128) as int);
    }
    // upper: v < 2^200 + 2^151 < (2^72 + 2^24) * 2^128
    assert((pow2(72) + pow2(24)) * pow2(128) == pow2(200) + pow2(24 + 128)) by {
        vstd::arithmetic::mul::lemma_mul_is_distributive_add_other_way(
            pow2(128) as int,
            pow2(72) as int,
            pow2(24) as int,
        );
    }
    assert(v / pow2(128) < pow2(72) + pow2(24)) by {
        lemma_pow2_strictly_increases(151, 24 + 128);
        lemma_multiply_divide_lt(v as int, pow2(128) as int, pow2(72) as int + pow2(24) as int);
        vstd::arithmetic::mul::lemma_mul_is_commutative(
            pow2(128) as int,
            pow2(72) as int + pow2(24) as int,
        );
    }
    lemma_pow2_strictly_increases(24, 72);
    lemma_pow2_adds(72, 1);
    lemma_pow2_strictly_increases(73, 128);
    lemma_pow2_strictly_increases(23, 72);
}

/// Four pushed limbs hold their positional sum.
proof fn lemma_limbs4_value(x: U256, l0: u64, l1: u64, l2: u64)
    requires
        x@ == crate::limbs::nat_of(seq![l0, l1, l2, 0u64]),
    ensures
        x@ == l0 + l1 * pow2(64) + l2 * pow2(128),
{
    let s = seq![l0, l1, l2, 0u64];
    crate::limbs::lemma_nat_of_snoc(seq![l0, l1, l2], 0u64);
    assert(seq![l0, l1, l2].push(0u64) =~= s);
    crate::limbs::lemma_nat_of_snoc(seq![l0, l1], l2);
    assert(seq![l0, l1].push(l2) =~= seq![l0, l1, l2]);
    crate::limbs::lemma_nat_of_snoc(seq![l0], l1);
    assert(seq![l0].push(l1) =~= seq![l0, l1]);
    assert(seq![l0].skip(1) =~= Seq::<u64>::empty());
    assert(crate::limbs::nat_of(seq![l0].skip(1)) == 0);
    assert(crate::limbs::nat_of(seq![l0]) == (l0 as nat) + crate::limbs::nat_of(seq![l0].skip(1))
        * (crate::limbs::BASE64 as nat));
    assert(crate::limbs::nat_of(seq![l0].skip(1)) * (crate::limbs::BASE64 as nat) == 0) by {
        vstd::arithmetic::mul::lemma_mul_basics(crate::limbs::BASE64 as int);
    }
    assert((0u64 as nat) * pow2((64 * 3) as nat) == 0) by {
        vstd::arithmetic::mul::lemma_mul_basics(pow2((64 * 3) as nat) as int);
    }
    assert((64 * 1) as nat == 64 && (64 * 2) as nat == 128);
}

} // verus!
