use std::collections::BTreeMap;

use block_indexer::block::{
    Action, Block, BlockHeader, Chunk, ExecutionStatus, Receipt, Shard, Transaction,
};
use block_indexer::driver::{
    step, Driver, DriverAction, DriverEvent, DriverState, FeedBlock, FeedReceipt,
};
use block_indexer::error::PipelineError;
use block_indexer::extractor::ClaimFilter;
use block_indexer::memory::MemoryHandler;
use block_indexer::range::{parse_block_range, BlockRange};

fn feed_block(height: u64, receipts: Vec<FeedReceipt>) -> FeedBlock {
    FeedBlock {
        block: Block {
            header: BlockHeader {
                height,
                hash: [(height % 251) as u8; 32],
                timestamp_nanosec: 1_000_000 * height,
            },
            author: "node0".to_string(),
            shards: vec![
                Shard { shard_id: 0, chunk: Some(Chunk { transactions: vec![], receipts: vec![] }) },
                Shard { shard_id: 1, chunk: None },
            ],
        },
        receipts,
    }
}

fn feed_of(heights: &[u64]) -> Vec<FeedBlock> {
    heights.iter().map(|h| feed_block(*h, vec![])).collect()
}

fn claim_call(signer: &str, round: &str, calls: usize, status: ExecutionStatus) -> FeedReceipt {
    FeedReceipt {
        receipt: Receipt {
            receipt_id: [4u8; 32],
            signer_id: signer.to_string(),
            receiver_id: round.to_string(),
            actions: (0..calls)
                .map(|_| Action::FunctionCall { method_name: "claim".to_string() })
                .collect(),
            status,
        },
        transaction: Transaction {
            hash: [6u8; 32],
            signer_id: signer.to_string(),
            receiver_id: round.to_string(),
        },
    }
}

fn testnet_filter() -> ClaimFilter {
    ClaimFilter {
        receiver_suffixes: vec![".example.near".to_string(), ".example.testnet".to_string()],
        method_name: "claim".to_string(),
    }
}

#[test]
fn a_block_goes_from_processing_to_flushing() {
    assert_eq!(
        step(DriverState::Idle, DriverEvent::BlockReceived(100)),
        (DriverState::ProcessingBlock(100), DriverAction::Extract(100))
    );
    assert_eq!(
        step(DriverState::ProcessingBlock(100), DriverEvent::EventsSubmitted),
        (DriverState::FlushingBlock(100), DriverAction::Flush(100))
    );
    assert_eq!(
        step(DriverState::FlushingBlock(100), DriverEvent::FlushSucceeded { next: Some(101) }),
        (DriverState::ProcessingBlock(101), DriverAction::Extract(101))
    );
    assert_eq!(
        step(DriverState::FlushingBlock(100), DriverEvent::FlushSucceeded { next: Some(107) }),
        (DriverState::ProcessingBlock(107), DriverAction::Extract(107))
    );
    assert_eq!(
        step(DriverState::FlushingBlock(100), DriverEvent::FlushSucceeded { next: None }),
        (DriverState::Idle, DriverAction::Stop)
    );
}

#[test]
fn failures_lead_to_failed() {
    let failed = (DriverState::Failed, DriverAction::Abort);
    assert_eq!(step(DriverState::ProcessingBlock(5), DriverEvent::ExtractionFailed), failed);
    assert_eq!(step(DriverState::FlushingBlock(5), DriverEvent::FlushFailed), failed);
    assert_eq!(step(DriverState::Idle, DriverEvent::FeedFailed), failed);
    assert_eq!(step(DriverState::ProcessingBlock(5), DriverEvent::FeedFailed), failed);
    assert_eq!(step(DriverState::FlushingBlock(5), DriverEvent::FeedFailed), failed);
}

#[test]
fn the_next_block_must_stand_higher() {
    let failed = (DriverState::Failed, DriverAction::Abort);
    assert_eq!(
        step(DriverState::FlushingBlock(100), DriverEvent::FlushSucceeded { next: Some(100) }),
        failed
    );
    assert_eq!(
        step(DriverState::FlushingBlock(100), DriverEvent::FlushSucceeded { next: Some(99) }),
        failed
    );
}

#[test]
fn events_out_of_turn_lead_to_failed() {
    let failed = (DriverState::Failed, DriverAction::Abort);
    assert_eq!(step(DriverState::Idle, DriverEvent::EventsSubmitted), failed);
    assert_eq!(step(DriverState::Idle, DriverEvent::FlushSucceeded { next: None }), failed);
    assert_eq!(step(DriverState::ProcessingBlock(1), DriverEvent::BlockReceived(2)), failed);
    assert_eq!(step(DriverState::ProcessingBlock(1), DriverEvent::FlushFailed), failed);
    assert_eq!(
        step(DriverState::ProcessingBlock(1), DriverEvent::FlushSucceeded { next: Some(2) }),
        failed
    );
    assert_eq!(step(DriverState::FlushingBlock(1), DriverEvent::EventsSubmitted), failed);
    assert_eq!(step(DriverState::FlushingBlock(1), DriverEvent::ExtractionFailed), failed);
}

#[test]
fn nothing_leads_out_of_failed() {
    let events = [
        DriverEvent::BlockReceived(1),
        DriverEvent::EventsSubmitted,
        DriverEvent::FlushSucceeded { next: Some(2) },
        DriverEvent::FlushSucceeded { next: None },
        DriverEvent::ExtractionFailed,
        DriverEvent::FlushFailed,
        DriverEvent::FeedFailed,
    ];
    for event in events {
        assert_eq!(step(DriverState::Failed, event), (DriverState::Failed, DriverAction::Abort));
    }
}

#[test]
fn explicit_range_is_flushed_once_per_height_in_order() {
    let range = parse_block_range(&["100".to_string(), "200".to_string()]).unwrap();
    let (start, end) = match range {
        BlockRange::Range { start_inclusive, end_exclusive: Some(end) } => (start_inclusive, end),
        other => panic!("{other:?}"),
    };
    let heights: Vec<u64> = (start..end).collect();
    let mut driver = Driver::new(MemoryHandler::new(1_000_000), None);
    assert_eq!(driver.current_state(), DriverState::Idle);
    assert_eq!(driver.run(&feed_of(&heights)), Ok(()));
    assert_eq!(driver.current_state(), DriverState::Idle);
    assert_eq!(driver.failure_cause(), None);
    let handler = driver.into_handler();
    let expected: Vec<u64> = (100..200).collect();
    assert_eq!(handler.flushed_heights(), &expected);
    let logged: Vec<u64> = handler.logged_block_infos().iter().map(|e| e.key).collect();
    assert_eq!(logged, expected);
    assert!(handler.logged_claims().is_empty());
}

#[test]
fn empty_feed_leaves_the_driver_idle() {
    let mut driver = Driver::new(MemoryHandler::new(10), None);
    assert_eq!(driver.run(&vec![]), Ok(()));
    assert_eq!(driver.current_state(), DriverState::Idle);
    assert!(driver.handler_ref().flushed_heights().is_empty());
}

#[test]
fn heights_may_skip_but_not_go_back() {
    let mut driver = Driver::new(MemoryHandler::new(10), None);
    assert_eq!(driver.run(&feed_of(&[5, 6, 9, 20])), Ok(()));
    assert_eq!(driver.handler_ref().flushed_heights(), &vec![5, 6, 9, 20]);

    let mut driver = Driver::new(MemoryHandler::new(10), None);
    assert_eq!(driver.run(&feed_of(&[5, 6, 6, 7])), Err(PipelineError::FeedUnavailable));
    assert_eq!(driver.current_state(), DriverState::Failed);
    assert_eq!(driver.failure_cause(), Some(PipelineError::FeedUnavailable));
    let handler = driver.handler_ref();
    assert_eq!(handler.flushed_heights(), &vec![5, 6]);
    let logged: Vec<u64> = handler.logged_block_infos().iter().map(|e| e.key).collect();
    assert_eq!(logged, vec![5, 6]);
}

#[test]
fn a_failed_flush_stops_the_run() {
    let mut handler = MemoryHandler::new(10);
    handler.set_reachable(false);
    let mut driver = Driver::new(handler, None);
    assert_eq!(driver.run(&feed_of(&[1, 2, 3])), Err(PipelineError::SinkUnavailable));
    assert_eq!(driver.current_state(), DriverState::Failed);
    assert!(driver.handler_ref().flushed_heights().is_empty());
    assert!(driver.handler_ref().logged_block_infos().is_empty());
}

#[test]
fn a_failed_driver_stays_failed() {
    let mut handler = MemoryHandler::new(10);
    handler.set_reachable(false);
    let mut driver = Driver::new(handler, None);
    assert_eq!(driver.run(&feed_of(&[1])), Err(PipelineError::SinkUnavailable));
    assert_eq!(driver.run(&feed_of(&[2, 3])), Err(PipelineError::SinkUnavailable));
    assert_eq!(driver.run(&vec![]), Err(PipelineError::SinkUnavailable));
    assert_eq!(driver.current_state(), DriverState::Failed);
}

#[test]
fn a_driver_can_run_one_range_after_another() {
    let mut driver = Driver::new(MemoryHandler::new(10), None);
    assert_eq!(driver.run(&feed_of(&[1, 2])), Ok(()));
    assert_eq!(driver.run(&feed_of(&[3])), Ok(()));
    assert_eq!(driver.handler_ref().flushed_heights(), &vec![1, 2, 3]);
}

#[test]
fn without_a_filter_no_claims_are_collected() {
    let feed = vec![feed_block(
        1,
        vec![claim_call("alice.testnet", "round-1.example.testnet", 2, ExecutionStatus::SuccessValue)],
    )];
    let mut driver = Driver::new(MemoryHandler::new(10), None);
    assert_eq!(driver.run(&feed), Ok(()));
    assert!(driver.handler_ref().logged_claims().is_empty());
    assert_eq!(driver.handler_ref().logged_block_infos().len(), 1);
}

#[test]
fn ten_blocks_of_claims_tally_by_round() {
    let ok = ExecutionStatus::SuccessValue;
    let handed_on = ExecutionStatus::SuccessReceiptId;
    let failed = ExecutionStatus::Failure;
    let feed = vec![
        feed_block(170000000, vec![claim_call("a.testnet", "round-1.example.testnet", 1, ok)]),
        feed_block(170000001, vec![]),
        feed_block(
            170000002,
            vec![
                claim_call("b.testnet", "round-1.example.testnet", 1, failed),
                claim_call("c.testnet", "round-2.example.testnet", 2, ok),
                claim_call("d.testnet", "unrelated.testnet", 1, ok),
            ],
        ),
        feed_block(170000003, vec![claim_call("e.testnet", "round-2.example.testnet", 1, handed_on)]),
        feed_block(170000004, vec![claim_call("f.testnet", "example.testnet", 1, ok)]),
        feed_block(170000005, vec![claim_call("g.testnet", "round-3.example.testnet", 0, ok)]),
        feed_block(170000006, vec![claim_call("h", "round-3.example.testnet", 1, failed)]),
        feed_block(
            170000007,
            vec![
                claim_call("i.testnet", "round-1.example.testnet", 1, ok),
                claim_call("j.testnet", "round-1.example.testnet", 1, ok),
            ],
        ),
        feed_block(170000008, vec![claim_call("k.testnet", "round-2.example.testnet", 1, failed)]),
        feed_block(170000009, vec![claim_call("l.testnet", "round-9.other.testnet", 3, ok)]),
    ];
    let mut driver = Driver::new(MemoryHandler::new(1_000_000), Some(testnet_filter()));
    assert_eq!(driver.run(&feed), Ok(()));
    let handler = driver.into_handler();
    let mut tally: BTreeMap<String, (u32, u32)> = BTreeMap::new();
    for entry in handler.logged_claims() {
        let counts = tally.entry(entry.record.round_account_id.clone()).or_default();
        if entry.record.is_success {
            counts.0 += 1;
        } else {
            counts.1 += 1;
        }
    }
    let expected: BTreeMap<String, (u32, u32)> = [
        ("round-1.example.testnet".to_string(), (3, 1)),
        ("round-2.example.testnet".to_string(), (3, 1)),
        ("round-3.example.testnet".to_string(), (0, 1)),
    ]
    .into_iter()
    .collect();
    assert_eq!(tally, expected);
    let keys: Vec<u64> = handler.logged_claims().iter().map(|e| e.key).collect();
    let mut sorted = keys.clone();
    sorted.sort();
    assert_eq!(keys, sorted);
    assert_eq!(handler.flushed_heights().len(), 10);
    let top_level: Vec<&str> = handler
        .logged_claims()
        .iter()
        .filter(|e| e.record.claimed_account_id == "h")
        .map(|e| e.record.claimed_parent_account_id.as_str())
        .collect();
    assert_eq!(top_level, vec!["system"]);
}

#[test]
fn claims_of_a_block_follow_its_statistics_in_receipt_order() {
    let feed = vec![feed_block(
        8,
        vec![
            claim_call("first.near", "round-1.example.near", 1, ExecutionStatus::SuccessValue),
            claim_call("second.near", "round-1.example.near", 2, ExecutionStatus::SuccessValue),
            claim_call("third.near", "round-2.example.near", 1, ExecutionStatus::Failure),
        ],
    )];
    let mut driver = Driver::new(MemoryHandler::new(100), Some(testnet_filter()));
    assert_eq!(driver.run(&feed), Ok(()));
    let signers: Vec<&str> = driver
        .handler_ref()
        .logged_claims()
        .iter()
        .map(|e| e.record.claimed_account_id.as_str())
        .collect();
    assert_eq!(signers, vec!["first.near", "second.near", "second.near", "third.near"]);
}
