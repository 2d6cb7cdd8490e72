use block_indexer::stream::{BoundedLog, EventStream, FlushBatch, StreamEntry};

fn entry(key: u64, record: &str) -> StreamEntry<String> {
    StreamEntry { key, record: record.to_string() }
}

fn keys_of(entries: &[StreamEntry<String>]) -> Vec<u64> {
    entries.iter().map(|e| e.key).collect()
}

#[test]
fn publish_only_buffers() {
    let mut stream: EventStream<String> = EventStream::new("block_info".to_string());
    assert_eq!(stream.pending_len(), 0);
    stream.publish("a".to_string(), 1);
    stream.publish("b".to_string(), 1);
    assert_eq!(stream.pending_len(), 2);
}

#[test]
fn flush_takes_what_is_due_in_publication_order() {
    let mut stream: EventStream<String> = EventStream::new("block_info".to_string());
    stream.publish("a".to_string(), 10);
    stream.publish("b".to_string(), 10);
    stream.publish("c".to_string(), 11);
    stream.publish("d".to_string(), 12);
    let batch = stream.flush(11, 1000).unwrap();
    assert_eq!(
        batch,
        FlushBatch {
            stream: "block_info".to_string(),
            entries: vec![entry(10, "a"), entry(10, "b"), entry(11, "c")],
            max_len: 1000,
        }
    );
    assert_eq!(stream.pending_len(), 1);
    let rest = stream.flush(12, 1000).unwrap();
    assert_eq!(rest.entries, vec![entry(12, "d")]);
    assert_eq!(stream.pending_len(), 0);
}

#[test]
fn flush_with_nothing_due_gives_no_batch() {
    let mut stream: EventStream<String> = EventStream::new("s".to_string());
    assert_eq!(stream.flush(5, 10), None);
    stream.publish("late".to_string(), 9);
    assert_eq!(stream.flush(8, 10), None);
    assert_eq!(stream.pending_len(), 1);
    assert_eq!(stream.flush(9, 10).unwrap().entries, vec![entry(9, "late")]);
}

#[test]
fn flush_includes_the_checkpoint_itself() {
    let mut stream: EventStream<String> = EventStream::new("s".to_string());
    stream.publish("at".to_string(), 7);
    stream.publish("past".to_string(), 8);
    let batch = stream.flush(7, 3).unwrap();
    assert_eq!(keys_of(&batch.entries), vec![7]);
    assert_eq!(batch.max_len, 3);
}

#[test]
fn flush_leaves_later_keys_even_between_earlier_ones() {
    let mut stream: EventStream<String> = EventStream::new("s".to_string());
    stream.publish("x".to_string(), 3);
    stream.publish("y".to_string(), 9);
    stream.publish("z".to_string(), 4);
    let batch = stream.flush(5, 10).unwrap();
    assert_eq!(batch.entries, vec![entry(3, "x"), entry(4, "z")]);
    assert_eq!(stream.flush(9, 10).unwrap().entries, vec![entry(9, "y")]);
}

#[test]
fn log_appends_in_order() {
    let mut log: BoundedLog<String> = BoundedLog::new();
    assert_eq!(log.len(), 0);
    log.append(entry(1, "a"));
    log.append(entry(2, "b"));
    assert_eq!(log.entries(), &vec![entry(1, "a"), entry(2, "b")]);
}

#[test]
fn trim_keeps_the_most_recent() {
    let mut log: BoundedLog<String> = BoundedLog::new();
    for key in 1..=5 {
        log.append(entry(key, "r"));
    }
    log.trim(7);
    assert_eq!(keys_of(log.entries()), vec![1, 2, 3, 4, 5]);
    log.trim(5);
    assert_eq!(keys_of(log.entries()), vec![1, 2, 3, 4, 5]);
    log.trim(2);
    assert_eq!(keys_of(log.entries()), vec![4, 5]);
    log.trim(0);
    assert_eq!(log.len(), 0);
}

#[test]
fn trim_can_be_repeated() {
    let mut log: BoundedLog<String> = BoundedLog::new();
    for key in 1..=6 {
        log.append(entry(key, "r"));
    }
    log.trim(3);
    let once = log.entries().clone();
    log.trim(3);
    assert_eq!(log.entries(), &once);
    assert_eq!(keys_of(log.entries()), vec![4, 5, 6]);
}

#[test]
fn apply_appends_then_trims() {
    let mut log: BoundedLog<String> = BoundedLog::new();
    log.apply(FlushBatch {
        stream: "s".to_string(),
        entries: vec![entry(1, "a"), entry(1, "b"), entry(1, "c")],
        max_len: 4,
    });
    assert_eq!(keys_of(log.entries()), vec![1, 1, 1]);
    log.apply(FlushBatch {
        stream: "s".to_string(),
        entries: vec![entry(2, "d"), entry(2, "e"), entry(2, "f")],
        max_len: 4,
    });
    assert_eq!(
        log.entries(),
        &vec![entry(1, "c"), entry(2, "d"), entry(2, "e"), entry(2, "f")]
    );
}

#[test]
fn batch_larger_than_the_cap_keeps_its_end() {
    let mut log: BoundedLog<String> = BoundedLog::new();
    log.append(entry(1, "old"));
    log.apply(FlushBatch {
        stream: "s".to_string(),
        entries: vec![entry(2, "a"), entry(2, "b"), entry(2, "c")],
        max_len: 2,
    });
    assert_eq!(log.entries(), &vec![entry(2, "b"), entry(2, "c")]);
}

#[test]
fn log_never_exceeds_the_cap_after_a_flush() {
    let mut stream: EventStream<String> = EventStream::new("s".to_string());
    let mut log: BoundedLog<String> = BoundedLog::new();
    let mut published: Vec<u64> = vec![];
    for height in 0..50u64 {
        for n in 0..(height % 4) {
            stream.publish(format!("{height}-{n}"), height);
            published.push(height);
        }
        if let Some(batch) = stream.flush(height, 5) {
            log.apply(batch);
        }
        assert!(log.len() <= 5);
        let held = keys_of(log.entries());
        let expected: Vec<u64> =
            published[published.len().saturating_sub(5).min(published.len())..].to_vec();
        if published.len() >= 5 {
            assert_eq!(held, expected);
        }
    }
}
