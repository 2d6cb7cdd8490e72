use block_indexer::block::{
    Action, Block, BlockHeader, ExecutionStatus, Receipt, Transaction,
};
use block_indexer::events::ClaimEvent;
use block_indexer::extractor::{extract_claim_events, matches_receiver, ClaimFilter};

fn claim_filter() -> ClaimFilter {
    ClaimFilter {
        receiver_suffixes: vec![".example.near".to_string(), ".example.testnet".to_string()],
        method_name: "claim".to_string(),
    }
}

fn claim_block() -> Block {
    Block {
        header: BlockHeader { height: 170000001, hash: [3u8; 32], timestamp_nanosec: 1700000000123 },
        author: "node1".to_string(),
        shards: vec![],
    }
}

fn claim_transaction() -> Transaction {
    Transaction {
        hash: [8u8; 32],
        signer_id: "alice.tg".to_string(),
        receiver_id: "round-7.example.near".to_string(),
    }
}

fn call(method: &str) -> Action {
    Action::FunctionCall { method_name: method.to_string() }
}

fn claim_receipt(receiver: &str, actions: Vec<Action>, status: ExecutionStatus) -> Receipt {
    Receipt {
        receipt_id: [5u8; 32],
        signer_id: "alice.tg".to_string(),
        receiver_id: receiver.to_string(),
        actions,
        status,
    }
}

#[test]
fn one_claim_has_every_field() {
    let receipt =
        claim_receipt("round-7.example.near", vec![call("claim")], ExecutionStatus::SuccessValue);
    let events =
        extract_claim_events(&claim_filter(), &receipt, &claim_transaction(), &claim_block());
    assert_eq!(
        events,
        vec![ClaimEvent {
            block_height: 170000001,
            block_timestamp_nanosec: 1700000000123,
            receipt_id: [5u8; 32],
            transaction_id: [8u8; 32],
            claimed_account_id: "alice.tg".to_string(),
            claimed_parent_account_id: "tg".to_string(),
            round_account_id: "round-7.example.near".to_string(),
            round_parent_account_id: "example.near".to_string(),
            is_success: true,
        }]
    );
    assert_eq!(events[0].ordering_key(), 170000001);
}

#[test]
fn receiver_outside_the_patterns_gives_nothing() {
    for receiver in ["round-7.other.near", "example.near", "round-7.example.near.evil", "near"] {
        let receipt = claim_receipt(
            receiver,
            vec![call("claim"), call("claim")],
            ExecutionStatus::SuccessValue,
        );
        let events =
            extract_claim_events(&claim_filter(), &receipt, &claim_transaction(), &claim_block());
        assert!(events.is_empty(), "{receiver}");
    }
}

#[test]
fn matching_receiver_without_trigger_gives_nothing() {
    let receipt = claim_receipt(
        "round-7.example.near",
        vec![call("deposit"), Action::Other, call("Claim"), call("claim2"), call("")],
        ExecutionStatus::SuccessValue,
    );
    let events =
        extract_claim_events(&claim_filter(), &receipt, &claim_transaction(), &claim_block());
    assert!(events.is_empty());
    let no_actions = claim_receipt("round-7.example.near", vec![], ExecutionStatus::SuccessValue);
    assert!(extract_claim_events(
        &claim_filter(),
        &no_actions,
        &claim_transaction(),
        &claim_block()
    )
    .is_empty());
}

#[test]
fn one_event_for_each_trigger_action() {
    let receipt = claim_receipt(
        "round-7.example.testnet",
        vec![call("claim"), call("other"), call("claim"), Action::Other, call("claim")],
        ExecutionStatus::SuccessReceiptId,
    );
    let events =
        extract_claim_events(&claim_filter(), &receipt, &claim_transaction(), &claim_block());
    assert_eq!(events.len(), 3);
    for event in &events {
        assert_eq!(event.round_account_id, "round-7.example.testnet");
        assert_eq!(event.round_parent_account_id, "example.testnet");
        assert!(event.is_success);
    }
}

#[test]
fn success_follows_the_execution_status() {
    let outcomes = [
        (ExecutionStatus::SuccessValue, true),
        (ExecutionStatus::SuccessReceiptId, true),
        (ExecutionStatus::Failure, false),
        (ExecutionStatus::Unknown, false),
    ];
    for (status, expected) in outcomes {
        let receipt = claim_receipt("r.example.near", vec![call("claim")], status);
        let events =
            extract_claim_events(&claim_filter(), &receipt, &claim_transaction(), &claim_block());
        assert_eq!(events.len(), 1);
        assert_eq!(events[0].is_success, expected);
    }
}

#[test]
fn signer_without_parent_gets_the_top_level_parent() {
    let mut receipt =
        claim_receipt("round-7.example.near", vec![call("claim")], ExecutionStatus::SuccessValue);
    receipt.signer_id = "bob".to_string();
    let events =
        extract_claim_events(&claim_filter(), &receipt, &claim_transaction(), &claim_block());
    assert_eq!(events[0].claimed_account_id, "bob");
    assert_eq!(events[0].claimed_parent_account_id, "system");
}

#[test]
fn patterns_are_independent_and_case_sensitive() {
    let filter = ClaimFilter {
        receiver_suffixes: vec![".example.near".to_string()],
        method_name: "claim".to_string(),
    };
    assert!(matches_receiver(&filter, "a.example.near"));
    assert!(!matches_receiver(&filter, "a.example.testnet"));
    assert!(!matches_receiver(&filter, "a.EXAMPLE.near"));
    let none = ClaimFilter { receiver_suffixes: vec![], method_name: "claim".to_string() };
    assert!(!matches_receiver(&none, "a.example.near"));
}
