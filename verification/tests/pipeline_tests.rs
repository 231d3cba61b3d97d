use blob_ingest::aggregate::aggregate;
use blob_ingest::chain::build_block;
use blob_ingest::pipeline::{BlockFetch, Ingest};
use blob_ingest::store::{make_key, Store};
use blob_ingest::types::{FetchError, Policy, RawBlock, Transaction};

fn structured_input(count: u64, size: u64) -> Vec<u8> {
    let mut v = vec![0u8; 64];
    v[24..32].copy_from_slice(&count.to_be_bytes());
    v[56..64].copy_from_slice(&size.to_be_bytes());
    v
}

fn blob_tx(hash_byte: u8, input: Vec<u8>) -> Transaction {
    Transaction {
        hash: vec![hash_byte; 32],
        from: vec![0x11; 20],
        to: Some(vec![0x22; 20]),
        value: vec![0x01; 32],
        gas: vec![0x02; 32],
        gas_price: vec![0x03; 32],
        input,
        transaction_type: Some(3),
    }
}

fn raw_block(number: u64, timestamp: u64, tx_hashes: Vec<Vec<u8>>) -> RawBlock {
    RawBlock {
        number: Some(number),
        hash: Some(vec![0xbb; 32]),
        parent_hash: vec![0xcc; 32],
        nonce: None,
        logs_bloom: None,
        transactions_root: vec![0; 32],
        state_root: vec![0; 32],
        receipts_root: vec![0; 32],
        difficulty: vec![0; 32],
        total_difficulty: Some(vec![0x09; 32]),
        extra_data: Vec::new(),
        size: Some(1234),
        gas_limit: vec![0; 32],
        gas_used: 21000,
        timestamp,
        base_fee_per_gas: None,
        transactions: tx_hashes,
        uncles: Vec::new(),
    }
}

fn three_block_events() -> Vec<BlockFetch> {
    // Block 100: two blob transactions. Block 101: none. Block 102: one
    // malformed blob transaction.
    let t1 = blob_tx(0x01, structured_input(5, 1024));
    let t2 = blob_tx(0x02, structured_input(5, 1024));
    let t3 = blob_tx(0x03, vec![0u8; 10]);
    vec![
        BlockFetch::Fetched(
            raw_block(100, 1000, vec![t1.hash.clone(), t2.hash.clone()]),
            vec![Some(t1), Some(t2)],
        ),
        BlockFetch::Fetched(raw_block(101, 1001, Vec::new()), Vec::new()),
        BlockFetch::Fetched(raw_block(102, 1002, vec![t3.hash.clone()]), vec![Some(t3)]),
    ]
}

#[test]
fn missing_transaction_is_a_counted_soft_failure() {
    let t1 = blob_tx(0x01, structured_input(5, 1024));
    let missing_hash = vec![0x02; 32];
    let raw = raw_block(100, 1000, vec![t1.hash.clone(), missing_hash]);
    let (block, missing) = build_block(Some(raw), &vec![Some(t1), None]).unwrap();
    assert_eq!(missing, 1);
    assert_eq!(block.transactions.len(), 1);
    assert_eq!(block.transactions[0].hash, vec![0x01; 32]);
}

#[test]
fn missing_transaction_does_not_abort_the_block() {
    let policy = Policy::conventional(b"mainnet".to_vec());
    let mut ing = Ingest::new(policy, 100, 100, Store::new());
    let t1 = blob_tx(0x01, structured_input(5, 1024));
    let raw = raw_block(100, 1000, vec![t1.hash.clone(), vec![0x02; 32]]);
    let report = ing
        .ingest_block(BlockFetch::Fetched(raw, vec![Some(t1), None]))
        .unwrap();
    assert_eq!(report.missing_txs, 1);
    assert_eq!(report.records_added, 1);
    assert_eq!(ing.last_processed, Some(100));
}

#[test]
fn unconfirmed_block_is_block_not_found() {
    let policy = Policy::conventional(b"mainnet".to_vec());
    let mut ing = Ingest::new(policy, 100, 100, Store::new());
    let mut raw = raw_block(100, 1000, Vec::new());
    raw.total_difficulty = None;
    let r = ing.ingest_block(BlockFetch::Fetched(raw, Vec::new()));
    assert_eq!(r, Err(FetchError::BlockNotFound));
    // Nothing changed: the walk can resume from the same block.
    assert_eq!(ing.next_block(), Some(100));
    assert_eq!(ing.records.len(), 0);
    assert_eq!(ing.store.len(), 0);
}

#[test]
fn absent_block_and_transport_fault_are_hard_failures() {
    let policy = Policy::conventional(b"mainnet".to_vec());
    let mut ing = Ingest::new(policy, 100, 101, Store::new());
    assert_eq!(
        ing.ingest_block(BlockFetch::Absent),
        Err(FetchError::BlockNotFound)
    );
    assert_eq!(
        ing.ingest_block(BlockFetch::Transport),
        Err(FetchError::TransportError)
    );
    assert_eq!(ing.next_block(), Some(100));
    assert_eq!(ing.last_processed, None);
}

#[test]
fn three_block_scenario_counts_two_records_and_one_decode_failure() {
    let policy = Policy::conventional(b"mainnet".to_vec());
    let mut ing = Ingest::new(policy, 100, 102, Store::new());
    let mut records_added = 0;
    let mut decode_failures = 0;
    for ev in three_block_events() {
        let report = ing.ingest_block(ev).unwrap();
        records_added += report.records_added;
        decode_failures += report.decode_failures;
    }
    assert_eq!(records_added, 2);
    assert_eq!(decode_failures, 1);
    assert_eq!(ing.records.len(), 2);
    assert_eq!(ing.store.len(), 2);
    assert_eq!(ing.last_processed, Some(102));
    assert_eq!(ing.next_block(), None);

    let dist = aggregate(&ing.records);
    assert_eq!(dist.groups(), 1);
    assert_eq!(dist.occurrences_of(5, Some(1024)), 2);
}

#[test]
fn reingesting_the_same_range_leaves_the_store_unchanged() {
    let policy = Policy::conventional(b"mainnet".to_vec());

    let mut first = Ingest::new(policy.clone(), 100, 102, Store::new());
    let mut events = three_block_events();
    first.ingest_all(&mut events).unwrap();
    assert_eq!(first.store.len(), 2);

    // Second run over the same range, against the store the first run left.
    let mut second = Ingest::new(policy, 100, 102, first.store);
    let mut events_again = three_block_events();
    second.ingest_all(&mut events_again).unwrap();

    assert_eq!(second.store.len(), 2);
    let k1 = make_key(&b"mainnet".to_vec(), &vec![0x01; 32]);
    let k2 = make_key(&b"mainnet".to_vec(), &vec![0x02; 32]);
    let r1 = second.store.get(&k1).unwrap();
    assert_eq!(r1.blob_count, 5);
    assert_eq!(r1.blob_size, Some(1024));
    assert_eq!(r1.block_timestamp, 1000);
    assert!(second.store.get(&k2).is_some());
    // No key for the malformed transaction.
    let k3 = make_key(&b"mainnet".to_vec(), &vec![0x03; 32]);
    assert!(second.store.get(&k3).is_none());
}

#[test]
fn run_stops_at_the_first_hard_failure_and_keeps_prior_writes() {
    let policy = Policy::conventional(b"mainnet".to_vec());
    let mut ing = Ingest::new(policy, 100, 102, Store::new());
    let mut events = three_block_events();
    events[1] = BlockFetch::Transport;
    let r = ing.ingest_all(&mut events);
    assert_eq!(r, Err(FetchError::TransportError));
    // The first block's records are committed; the failing block is next.
    assert_eq!(ing.store.len(), 2);
    assert_eq!(ing.next_block(), Some(101));
    assert_eq!(ing.last_processed, Some(100));
}

#[test]
fn empty_range_ingests_nothing() {
    let policy = Policy::conventional(b"mainnet".to_vec());
    let mut ing = Ingest::new(policy, 10, 9, Store::new());
    assert_eq!(ing.next_block(), None);
    let mut events: Vec<BlockFetch> = Vec::new();
    assert_eq!(ing.ingest_all(&mut events), Ok(()));
    assert_eq!(ing.store.len(), 0);
    assert_eq!(ing.records.len(), 0);
}
