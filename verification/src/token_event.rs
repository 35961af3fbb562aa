//! Classification of decoded token log records: fungible, non-fungible and
//! multi-token transfer and approval events.
use vstd::prelude::*;

verus! {

use crate::id_address::{Address, B256};
use crate::u256::U256;

/// The token event kinds the dispatcher recognizes.
#[derive(Clone, Copy, Debug, PartialEq, Eq, Structural)]
pub enum UnifiedTokenEvent {
    ERC20Transfer(),
    ERC20Approval(),
    ERC721Transfer(),
    ERC721Approval(),
    ERC721ApprovalForAll(),
    ERC1155TransferSingle(),
    ERC1155TransferBatch(),
    ERC1155ApprovalForAll(),
}

/// The signature hashes of the recognized token events, as the transport
/// layer computed them from the event signatures.
pub struct TokenEventTopics {
    pub erc20_transfer: B256,
    pub erc20_approval: B256,
    pub erc721_transfer: B256,
    pub erc721_approval: B256,
    pub erc721_approval_for_all: B256,
    pub erc1155_transfer_single: B256,
    pub erc1155_transfer_batch: B256,
    pub erc1155_approval_for_all: B256,
}

/// The rows of the token dispatch table for a given set of signature hashes.
pub open spec fn token_events_rows(t: TokenEventTopics) -> Seq<(B256, UnifiedTokenEvent)> {
    seq![
        (t.erc20_transfer, UnifiedTokenEvent::ERC20Transfer()),
        (t.erc20_approval, UnifiedTokenEvent::ERC20Approval()),
        (t.erc721_transfer, UnifiedTokenEvent::ERC721Transfer()),
        (t.erc721_approval, UnifiedTokenEvent::ERC721Approval()),
        (t.erc721_approval_for_all, UnifiedTokenEvent::ERC721ApprovalForAll()),
        (t.erc1155_transfer_single, UnifiedTokenEvent::ERC1155TransferSingle()),
        (t.erc1155_transfer_batch, UnifiedTokenEvent::ERC1155TransferBatch()),
        (t.erc1155_approval_for_all, UnifiedTokenEvent::ERC1155ApprovalForAll()),
    ]
}

/// The dispatch table of a token listener.
pub struct TokenEvents {
    pub map: Vec<(B256, UnifiedTokenEvent)>,
}

/// Build the dispatch table from signature hash to token event kind.
pub fn generate_tokens_events_map(topics: &TokenEventTopics) -> (r: Vec<(
    B256,
    UnifiedTokenEvent,
)>)
    ensures
        r@ == token_events_rows(*topics),
{
    let mut map: Vec<(B256, UnifiedTokenEvent)> = Vec::new();
    map.push((topics.erc20_transfer, UnifiedTokenEvent::ERC20Transfer()));
    map.push((topics.erc20_approval, UnifiedTokenEvent::ERC20Approval()));
    map.push((topics.erc721_transfer, UnifiedTokenEvent::ERC721Transfer()));
    map.push((topics.erc721_approval, UnifiedTokenEvent::ERC721Approval()));
    map.push((topics.erc721_approval_for_all, UnifiedTokenEvent::ERC721ApprovalForAll()));
    map.push((topics.erc1155_transfer_single, UnifiedTokenEvent::ERC1155TransferSingle()));
    map.push((topics.erc1155_transfer_batch, UnifiedTokenEvent::ERC1155TransferBatch()));
    map.push((topics.erc1155_approval_for_all, UnifiedTokenEvent::ERC1155ApprovalForAll()));
    proof {
        assert(map@ =~= token_events_rows(*topics));
    }
    map
}

/// The signature strings of all recognized token events, in table order,
/// for building a log filter.
pub fn generate_token_events() -> (r: Vec<&'static str>)
    ensures
        r@.len() == 8,
        r@[0]@ == "Transfer(address,address,uint256)"@,
        r@[1]@ == "Approval(address,address,uint256)"@,
        r@[2]@ == "Transfer(address,address,uint256)"@,
        r@[3]@ == "Approval(address,address,uint256)"@,
        r@[4]@ == "ApprovalForAll(address,address,bool)"@,
        r@[5]@ == "TransferSingle(address,address,address,uint256,uint256)"@,
        r@[6]@ == "TransferBatch(address,address,address,uint256[],uint256[])"@,
        r@[7]@ == "ApprovalForAll(address,address,bool)"@,
{
    let mut r: Vec<&'static str> = Vec::new();
    r.push("Transfer(address,address,uint256)");
    r.push("Approval(address,address,uint256)");
    r.push("Transfer(address,address,uint256)");
    r.push("Approval(address,address,uint256)");
    r.push("ApprovalForAll(address,address,bool)");
    r.push("TransferSingle(address,address,address,uint256,uint256)");
    r.push("TransferBatch(address,address,address,uint256[],uint256[])");
    r.push("ApprovalForAll(address,address,bool)");
    r
}

/// A chunk of subscribed token addresses held by one listener.
pub struct Chunk {
    pub addrs: Vec<Address>,
    pub tombstones: Vec<Address>,
    pub id: u32,
}

/// A decoded fungible-token transfer.
pub struct Erc20TransferEvent {
    pub address: Address,
    pub from: Address,
    pub to: Address,
    pub value: U256,
}

/// A decoded fungible-token approval.
pub struct Erc20ApprovalEvent {
    pub address: Address,
    pub owner: Address,
    pub spender: Address,
    pub value: U256,
}

/// A decoded non-fungible-token transfer.
pub struct Erc721TransferEvent {
    pub address: Address,
    pub from: Address,
    pub to: Address,
    pub token_id: U256,
}

/// A decoded non-fungible-token approval.
pub struct Erc721ApprovalEvent {
    pub address: Address,
    pub owner: Address,
    pub approved: Address,
    pub token_id: U256,
}

/// A decoded operator approval.
pub struct Erc721ApprovalForAllEvent {
    pub address: Address,
    pub owner: Address,
    pub operator: Address,
    pub approved: bool,
}

/// A decoded record of any recognized token event the listener keeps.
pub enum UnifiedTokenEventResponse {
    ERC20Transfer(Erc20TransferEvent),
    ERC20Approval(Erc20ApprovalEvent),
    ERC721Transfer(Erc721TransferEvent),
    ERC721Approval(Erc721ApprovalEvent),
    ERC721ApprovalForAll(Erc721ApprovalForAllEvent),
}

} // verus!
