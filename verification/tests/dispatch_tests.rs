use synapse::d_any::DexId;
use synapse::id_address::B256;
use synapse::integration::dex_id_from_string;
use synapse::pool_event::generate_pool_events;
use synapse::token_event::{
    TokenEventTopics, UnifiedTokenEvent, generate_token_events, generate_tokens_events_map,
};
use synapse::u256::U256;

#[test]
fn known_exchange_names_resolve_and_unknown_ones_do_not() {
    assert_eq!(dex_id_from_string("uniswap".to_owned()), DexId::Uniswap);
    assert_eq!(dex_id_from_string("sushiswap".to_owned()), DexId::Sushiswap);
    assert_eq!(dex_id_from_string("pancake".to_owned()), DexId::Pancake);
    assert_eq!(dex_id_from_string("curve".to_owned()), DexId::Curve);
    assert_eq!(dex_id_from_string("balancer".to_owned()), DexId::Balancer);
    assert_eq!(dex_id_from_string("uniswapx".to_owned()), DexId::Unknown);
    assert_eq!(dex_id_from_string(String::new()), DexId::Unknown);
}

#[test]
fn pool_event_signatures_cover_all_fifteen_kinds() {
    let sigs = generate_pool_events();
    assert_eq!(sigs.len(), 15);
    assert_eq!(sigs[0], "Mint(address,uint256,uint256)");
    assert_eq!(sigs[2], "Swap(address,uint256,uint256,uint256,uint256,address)");
    assert_eq!(sigs[7], "Swap(address,address,int256,int256,uint160,uint128,int24)");
    assert_eq!(sigs[14], "Swap(bytes32,address,int128,int128,uint160,uint128,int24,uint24)");
}

#[test]
fn token_event_signatures_cover_all_eight_kinds() {
    let sigs = generate_token_events();
    assert_eq!(sigs.len(), 8);
    assert_eq!(sigs[0], "Transfer(address,address,uint256)");
    assert_eq!(sigs[6], "TransferBatch(address,address,address,uint256[],uint256[])");
}

#[test]
fn token_dispatch_table_lists_every_kind_under_its_hash() {
    let t = TokenEventTopics {
        erc20_transfer: B256 { hi: 0, lo: 1 },
        erc20_approval: B256 { hi: 0, lo: 2 },
        erc721_transfer: B256 { hi: 0, lo: 3 },
        erc721_approval: B256 { hi: 0, lo: 4 },
        erc721_approval_for_all: B256 { hi: 0, lo: 5 },
        erc1155_transfer_single: B256 { hi: 0, lo: 6 },
        erc1155_transfer_batch: B256 { hi: 0, lo: 7 },
        erc1155_approval_for_all: B256 { hi: 0, lo: 8 },
    };
    let map = generate_tokens_events_map(&t);
    assert_eq!(map.len(), 8);
    assert_eq!(map[0], (B256 { hi: 0, lo: 1 }, UnifiedTokenEvent::ERC20Transfer()));
    assert_eq!(map[7], (B256 { hi: 0, lo: 8 }, UnifiedTokenEvent::ERC1155ApprovalForAll()));
}

#[test]
fn wide_arithmetic_checks_its_bounds() {
    let max = U256::max_value();
    let one = U256::from_u128(1);
    assert!(max.checked_add(&one).is_none());
    assert!(U256::zero().checked_sub(&one).is_none());
    let two = U256::from_u128(2);
    assert!(max.checked_mul(&two).is_none());
    assert!(one.checked_div(&U256::zero()).is_none());
    let q = U256::from_u128(1000).checked_div(&U256::from_u128(7)).unwrap();
    assert_eq!(q.to_u128_checked(), Some(142));
    let r = U256::from_u128(1000).checked_rem(&U256::from_u128(7)).unwrap();
    assert_eq!(r.to_u128_checked(), Some(6));
    let p = U256::from_u128(3).checked_mul(&U256::pow2_value(128)).unwrap();
    assert!(p.to_u128_checked().is_none());
    let (sh, lost) = p.shr_with_rem(128);
    assert_eq!(sh.to_u128_checked(), Some(3));
    assert!(!lost);
    let (sh2, lost2) = U256::from_u128(5).shr_with_rem(1);
    assert_eq!(sh2.to_u128_checked(), Some(2));
    assert!(lost2);
    assert_eq!(U256::pow2_value(200).msb(), Some(200));
    assert_eq!(U256::zero().msb(), None);
    assert!(U256::pow2_value(200).bit(200));
    assert!(!U256::pow2_value(200).bit(199));
    assert!(U256::from_u128(7).lt(&U256::from_u128(8)));
    assert!(U256::from_u128(8).le(&U256::from_u128(8)));
    assert!(max.saturating_add(&one).eq_u(&max));
    assert!(U256::zero().saturating_sub(&one).is_zero());
    let limbs = U256::from_u128(5).to_limbs();
    assert_eq!(limbs, vec![5u64, 0, 0, 0]);
    assert_eq!(low_limbs_value(&limbs), 5);
}

fn low_limbs_value(l: &[u64]) -> u128 {
    // the low two limbs as a number, mirroring the little-endian layout
    (l[0] as u128) + ((l[1] as u128) << 64)
}
