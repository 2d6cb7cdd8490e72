//! The records a block feed delivers, reduced to what the pipeline reads.

use vstd::prelude::*;

verus! {

/// Height of a block in its chain.
pub type BlockHeight = u64;

/// A 32-byte identifier of a block, a transaction or a receipt.
pub type CryptoHash = [u8; 32];

/// A transaction, as far as the pipeline refers back to it.
#[derive(Clone, Debug, PartialEq, Eq)]
pub struct Transaction {
    pub hash: CryptoHash,
    pub signer_id: String,
    pub receiver_id: String,
}

/// How the execution of a receipt ended.
#[derive(Clone, Copy, Debug, PartialEq, Eq)]
pub enum ExecutionStatus {
    /// The outcome is not known.
    Unknown,
    /// Execution failed.
    Failure,
    /// Execution succeeded and returned a value.
    SuccessValue,
    /// Execution succeeded and handed its result on to another receipt.
    SuccessReceiptId,
}

/// One action of a receipt.
#[derive(Clone, Debug, PartialEq, Eq)]
pub enum Action {
    /// A call of the method `method_name` on the receiver.
    FunctionCall { method_name: String },
    /// Any other kind of action.
    Other,
}

/// A receipt together with the outcome of its execution.
#[derive(Clone, Debug, PartialEq, Eq)]
pub struct Receipt {
    pub receipt_id: CryptoHash,
    pub signer_id: String,
    pub receiver_id: String,
    pub actions: Vec<Action>,
    pub status: ExecutionStatus,
}

/// The part of a block that belongs to one shard: the transactions and the
/// receipts that it brings, each by its identifier.
#[derive(Clone, Debug, PartialEq, Eq)]
pub struct Chunk {
    pub transactions: Vec<CryptoHash>,
    pub receipts: Vec<CryptoHash>,
}

/// One shard of a block. A shard need not bring a new chunk in every block.
#[derive(Clone, Debug, PartialEq, Eq)]
pub struct Shard {
    pub shard_id: u64,
    pub chunk: Option<Chunk>,
}

/// The header of a block.
#[derive(Clone, Debug, PartialEq, Eq)]
pub struct BlockHeader {
    pub height: BlockHeight,
    pub hash: CryptoHash,
    pub timestamp_nanosec: u64,
}

/// One block of the feed.
#[derive(Clone, Debug, PartialEq, Eq)]
pub struct Block {
    pub header: BlockHeader,
    pub author: String,
    pub shards: Vec<Shard>,
}

/// Number of transactions in a shard: those of its chunk, or none where the chunk is absent.
pub open spec fn shard_transactions(shard: Shard) -> nat {
    match shard.chunk {
        Some(chunk) => chunk.transactions@.len(),
        None => 0,
    }
}

/// Number of receipts in a shard: those of its chunk, or none where the chunk is absent.
pub open spec fn shard_receipts(shard: Shard) -> nat {
    match shard.chunk {
        Some(chunk) => chunk.receipts@.len(),
        None => 0,
    }
}

/// Sum of the transaction counts of all shards.
pub open spec fn transaction_total(shards: Seq<Shard>) -> nat
    decreases shards.len(),
{
    if shards.len() == 0 {
        0
    } else {
        transaction_total(shards.drop_last()) + shard_transactions(shards.last())
    }
}

/// Sum of the receipt counts of all shards.
pub open spec fn receipt_total(shards: Seq<Shard>) -> nat
    decreases shards.len(),
{
    if shards.len() == 0 {
        0
    } else {
        receipt_total(shards.drop_last()) + shard_receipts(shards.last())
    }
}

} // verus!
