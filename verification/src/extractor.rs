//! Derives events from the contents of one block.

use vstd::prelude::*;
use crate::account::{account_ends_with, ends_with, parent_account_id, parent_of};
use crate::block::{
    Action, Block, ExecutionStatus, Receipt, Shard, Transaction, receipt_total, transaction_total,
};
use crate::events::{BlockInfoEvent, BlockInfoEventView, ClaimEvent, ClaimEventView};

verus! {

/// A count as an event field holds it: the count itself, or `u64::MAX` where it does not fit.
pub open spec fn saturated(n: nat) -> u64 {
    if n <= u64::MAX {
        n as u64
    } else {
        u64::MAX
    }
}

/// The block statistics of `block`.
pub open spec fn block_info_of(block: Block) -> BlockInfoEventView {
    BlockInfoEventView {
        block_height: block.header.height,
        block_timestamp_nanosec: block.header.timestamp_nanosec as u128,
        block_hash: block.header.hash@,
        block_producer: block.author@,
        transaction_count: saturated(transaction_total(block.shards@)),
        receipt_count: saturated(receipt_total(block.shards@)),
    }
}

/// What each of `events` holds.
pub open spec fn block_info_views(events: Seq<BlockInfoEvent>) -> Seq<BlockInfoEventView> {
    events.map_values(|event: BlockInfoEvent| event@)
}

/// Counts the transactions and the receipts of the chunks that are present.
fn count_contents(shards: &Vec<Shard>) -> (counts: (u64, u64))
    ensures
        counts.0 == saturated(transaction_total(shards@)),
        counts.1 == saturated(receipt_total(shards@)),
{
    let mut transactions: u64 = 0;
    let mut receipts: u64 = 0;
    let mut i: usize = 0;
    while i < shards.len()
        invariant
            i <= shards.len(),
            transactions == saturated(transaction_total(shards@.take(i as int))),
            receipts == saturated(receipt_total(shards@.take(i as int))),
        decreases shards.len() - i,
    {
        proof {
            assert(shards@.take(i + 1).drop_last() == shards@.take(i as int));
        }
        if let Some(chunk) = &shards[i].chunk {
            transactions = transactions.saturating_add(chunk.transactions.len() as u64);
            receipts = receipts.saturating_add(chunk.receipts.len() as u64);
        }
        i = i + 1;
    }
    proof {
        assert(shards@.take(i as int) == shards@);
    }
    (transactions, receipts)
}

/// Derives the one `BlockInfoEvent` of a block. Never fails.
///
/// The two counts are the sums over the shards whose chunk is present. A sum
/// that a `u64` cannot hold, which no block in memory reaches, is given as
/// `u64::MAX`.
pub fn extract_block_info(block: &Block) -> (event: BlockInfoEvent)
    ensures
        event@ == block_info_of(*block),
        transaction_total(block.shards@) <= u64::MAX ==> event.transaction_count
            == transaction_total(block.shards@),
        receipt_total(block.shards@) <= u64::MAX ==> event.receipt_count == receipt_total(
            block.shards@,
        ),
{
    let (transaction_count, receipt_count) = count_contents(&block.shards);
    BlockInfoEvent {
        block_height: block.header.height,
        block_timestamp_nanosec: block.header.timestamp_nanosec as u128,
        block_hash: block.header.hash,
        block_producer: block.author.clone(),
        transaction_count,
        receipt_count,
    }
}

/// Which receipts hold claims: those sent to an account that ends with one of
/// `receiver_suffixes`, in as far as they call `method_name`.
#[derive(Clone, Debug, PartialEq, Eq)]
pub struct ClaimFilter {
    pub receiver_suffixes: Vec<String>,
    pub method_name: String,
}

/// `receiver` ends with one of the suffixes of `filter`.
pub open spec fn receiver_matches(filter: ClaimFilter, receiver: Seq<char>) -> bool {
    exists|k: int|
        0 <= k < filter.receiver_suffixes@.len() && ends_with(
            receiver,
            #[trigger] filter.receiver_suffixes@[k]@,
        )
}

/// `action` is a call of the trigger method of `filter`.
pub open spec fn is_trigger(filter: ClaimFilter, action: Action) -> bool {
    match action {
        Action::FunctionCall { method_name } => method_name@ == filter.method_name@,
        Action::Other => false,
    }
}

/// Number of calls of the trigger method among `actions`.
pub open spec fn trigger_count(filter: ClaimFilter, actions: Seq<Action>) -> nat {
    actions.filter(|action: Action| is_trigger(filter, action)).len()
}

/// The execution ended in success, whatever the receipts it gave rise to do later.
pub open spec fn is_success(status: ExecutionStatus) -> bool {
    status is SuccessValue || status is SuccessReceiptId
}

/// The claim that one call of the trigger method in `receipt` stands for.
pub open spec fn claim_of(receipt: Receipt, transaction: Transaction, block: Block) -> ClaimEventView {
    ClaimEventView {
        block_height: block.header.height,
        block_timestamp_nanosec: block.header.timestamp_nanosec as u128,
        receipt_id: receipt.receipt_id@,
        transaction_id: transaction.hash@,
        claimed_account_id: receipt.signer_id@,
        claimed_parent_account_id: parent_of(receipt.signer_id@),
        round_account_id: receipt.receiver_id@,
        round_parent_account_id: parent_of(receipt.receiver_id@),
        is_success: is_success(receipt.status),
    }
}

/// The claims of `receipt`: one for each call of the trigger method where the
/// receiver matches, none where it does not.
pub open spec fn claims_of(
    filter: ClaimFilter,
    receipt: Receipt,
    transaction: Transaction,
    block: Block,
) -> Seq<ClaimEventView> {
    if receiver_matches(filter, receipt.receiver_id@) {
        Seq::new(
            trigger_count(filter, receipt.actions@),
            |i: int| claim_of(receipt, transaction, block),
        )
    } else {
        Seq::empty()
    }
}

/// What each of `events` holds.
pub open spec fn claim_views(events: Seq<ClaimEvent>) -> Seq<ClaimEventView> {
    events.map_values(|event: ClaimEvent| event@)
}

/// Tells whether the receiver of a receipt is one whose claims are collected.
pub fn matches_receiver(filter: &ClaimFilter, receiver: &str) -> (matches: bool)
    ensures
        matches == receiver_matches(*filter, receiver@),
{
    let mut k: usize = 0;
    while k < filter.receiver_suffixes.len()
        invariant
            k <= filter.receiver_suffixes.len(),
            forall|j: int| 0 <= j < k ==> !ends_with(receiver@, #[trigger] filter.receiver_suffixes@[j]@),
        decreases filter.receiver_suffixes.len() - k,
    {
        if account_ends_with(receiver, filter.receiver_suffixes[k].as_str()) {
            return true;
        }
        k = k + 1;
    }
    false
}

fn build_claim(receipt: &Receipt, transaction: &Transaction, block: &Block) -> (event: ClaimEvent)
    ensures
        event@ == claim_of(*receipt, *transaction, *block),
{
    let succeeded = match receipt.status {
        ExecutionStatus::SuccessValue => true,
        ExecutionStatus::SuccessReceiptId => true,
        ExecutionStatus::Failure => false,
        ExecutionStatus::Unknown => false,
    };
    ClaimEvent {
        block_height: block.header.height,
        block_timestamp_nanosec: block.header.timestamp_nanosec as u128,
        receipt_id: receipt.receipt_id,
        transaction_id: transaction.hash,
        claimed_account_id: receipt.signer_id.clone(),
        claimed_parent_account_id: parent_account_id(receipt.signer_id.as_str()),
        round_account_id: receipt.receiver_id.clone(),
        round_parent_account_id: parent_account_id(receipt.receiver_id.as_str()),
        is_success: succeeded,
    }
}

/// Derives the claims of one receipt: none where the receiver does not match,
/// else one for each of its calls of the trigger method.
pub fn extract_claim_events(
    filter: &ClaimFilter,
    receipt: &Receipt,
    transaction: &Transaction,
    block: &Block,
) -> (events: Vec<ClaimEvent>)
    ensures
        claim_views(events@) == claims_of(*filter, *receipt, *transaction, *block),
        !receiver_matches(*filter, receipt.receiver_id@) ==> events@.len() == 0,
        receiver_matches(*filter, receipt.receiver_id@) ==> events@.len() == trigger_count(
            *filter,
            receipt.actions@,
        ),
{
    let mut events: Vec<ClaimEvent> = Vec::new();
    if !matches_receiver(filter, receipt.receiver_id.as_str()) {
        assert(claim_views(events@) == Seq::<ClaimEventView>::empty());
        return events;
    }
    let mut i: usize = 0;
    while i < receipt.actions.len()
        invariant
            i <= receipt.actions.len(),
            events@.len() == trigger_count(*filter, receipt.actions@.take(i as int)),
            forall|k: int|
                0 <= k < events@.len() ==> (#[trigger] events@[k])@ == claim_of(
                    *receipt,
                    *transaction,
                    *block,
                ),
        decreases receipt.actions.len() - i,
    {
        proof {
            reveal(Seq::filter);
            assert(receipt.actions@.take(i + 1).drop_last() == receipt.actions@.take(i as int));
        }
        let is_call = match &receipt.actions[i] {
            Action::FunctionCall { method_name } => *method_name == filter.method_name,
            Action::Other => false,
        };
        if is_call {
            events.push(build_claim(receipt, transaction, block));
        }
        i = i + 1;
    }
    proof {
        assert(receipt.actions@.take(i as int) == receipt.actions@);
        assert(claim_views(events@) == claims_of(*filter, *receipt, *transaction, *block));
    }
    events
}

} // verus!
