//! The events the pipeline emits, one record type per event kind.

use vstd::prelude::*;
use crate::block::{BlockHeight, CryptoHash};

verus! {

/// Name of the log that holds the block statistics.
pub const BLOCK_INFO_STREAM: &'static str = "block_info";

/// Name of the log that holds the claims.
pub const CLAIM_STREAM: &'static str = "moretps_claim";

/// Statistics of one processed block.
#[derive(Clone, Debug, PartialEq, Eq)]
pub struct BlockInfoEvent {
    pub block_height: BlockHeight,
    pub block_timestamp_nanosec: u128,
    pub block_hash: CryptoHash,
    pub block_producer: String,
    pub transaction_count: u64,
    pub receipt_count: u64,
}

/// What a `BlockInfoEvent` holds, as mathematical values.
pub struct BlockInfoEventView {
    pub block_height: BlockHeight,
    pub block_timestamp_nanosec: u128,
    pub block_hash: Seq<u8>,
    pub block_producer: Seq<char>,
    pub transaction_count: u64,
    pub receipt_count: u64,
}

impl View for BlockInfoEvent {
    type V = BlockInfoEventView;

    open spec fn view(&self) -> BlockInfoEventView {
        BlockInfoEventView {
            block_height: self.block_height,
            block_timestamp_nanosec: self.block_timestamp_nanosec,
            block_hash: self.block_hash@,
            block_producer: self.block_producer@,
            transaction_count: self.transaction_count,
            receipt_count: self.receipt_count,
        }
    }
}

impl BlockInfoEvent {
    /// The key that orders this event in its log: the height of its block.
    pub fn ordering_key(&self) -> (key: BlockHeight)
        ensures
            key == self.block_height,
    {
        self.block_height
    }
}

/// One claim: a call of the trigger method, found in a receipt.
#[derive(Clone, Debug, PartialEq, Eq)]
pub struct ClaimEvent {
    pub block_height: BlockHeight,
    pub block_timestamp_nanosec: u128,
    pub receipt_id: CryptoHash,
    pub transaction_id: CryptoHash,
    pub claimed_account_id: String,
    pub claimed_parent_account_id: String,
    pub round_account_id: String,
    pub round_parent_account_id: String,
    pub is_success: bool,
}

/// What a `ClaimEvent` holds, as mathematical values.
pub struct ClaimEventView {
    pub block_height: BlockHeight,
    pub block_timestamp_nanosec: u128,
    pub receipt_id: Seq<u8>,
    pub transaction_id: Seq<u8>,
    pub claimed_account_id: Seq<char>,
    pub claimed_parent_account_id: Seq<char>,
    pub round_account_id: Seq<char>,
    pub round_parent_account_id: Seq<char>,
    pub is_success: bool,
}

impl View for ClaimEvent {
    type V = ClaimEventView;

    open spec fn view(&self) -> ClaimEventView {
        ClaimEventView {
            block_height: self.block_height,
            block_timestamp_nanosec: self.block_timestamp_nanosec,
            receipt_id: self.receipt_id@,
            transaction_id: self.transaction_id@,
            claimed_account_id: self.claimed_account_id@,
            claimed_parent_account_id: self.claimed_parent_account_id@,
            round_account_id: self.round_account_id@,
            round_parent_account_id: self.round_parent_account_id@,
            is_success: self.is_success,
        }
    }
}

impl ClaimEvent {
    /// The key that orders this event in its log: the height of its block.
    pub fn ordering_key(&self) -> (key: BlockHeight)
        ensures
            key == self.block_height,
    {
        self.block_height
    }
}

} // verus!
