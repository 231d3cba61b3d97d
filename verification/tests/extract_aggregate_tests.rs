use blob_ingest::aggregate::aggregate;
use blob_ingest::extract::extract;
use blob_ingest::types::{BlobTransaction, Block, Policy, Transaction};

fn structured_input(count: u64, size: u64) -> Vec<u8> {
    let mut v = vec![0u8; 64];
    v[24..32].copy_from_slice(&count.to_be_bytes());
    v[56..64].copy_from_slice(&size.to_be_bytes());
    v
}

fn tx(hash_byte: u8, tx_type: Option<u64>, to: Option<Vec<u8>>, input: Vec<u8>) -> Transaction {
    Transaction {
        hash: vec![hash_byte; 32],
        from: vec![0x11; 20],
        to,
        value: vec![0x01; 32],
        gas: vec![0x02; 32],
        gas_price: vec![0x03; 32],
        input,
        transaction_type: tx_type,
    }
}

fn block_with(transactions: Vec<Transaction>) -> Block {
    Block {
        number: 42,
        hash: vec![0xbb; 32],
        parent_hash: vec![0xcc; 32],
        nonce: None,
        logs_bloom: None,
        transactions_root: vec![0; 32],
        state_root: vec![0; 32],
        receipts_root: vec![0; 32],
        difficulty: vec![0; 32],
        total_difficulty: vec![0; 32],
        extra_data: Vec::new(),
        size: Some(1234),
        gas_limit: vec![0; 32],
        gas_used: 21000,
        timestamp: 1_700_000_000,
        base_fee_per_gas: None,
        transactions,
        uncles: Vec::new(),
    }
}

#[test]
fn extract_builds_one_record_per_match() {
    let policy = Policy::conventional(b"mainnet".to_vec());
    let block = block_with(vec![
        tx(0x01, Some(3), Some(vec![0x22; 20]), structured_input(5, 1024)),
        tx(0x02, Some(2), Some(vec![0x22; 20]), structured_input(5, 1024)),
        tx(0x03, None, Some(vec![0x22; 20]), structured_input(5, 1024)),
    ]);
    let (records, decode_failures, missing_recipients) = extract(&policy, &block);
    assert_eq!(records.len(), 1);
    assert_eq!(decode_failures, 0);
    assert_eq!(missing_recipients, 0);
    let rec = &records[0];
    assert_eq!(rec.chain, b"mainnet".to_vec());
    assert_eq!(rec.tx_hash, vec![0x01; 32]);
    assert_eq!(rec.from, vec![0x11; 20]);
    assert_eq!(rec.to, vec![0x22; 20]);
    assert_eq!(rec.value, vec![0x01; 32]);
    assert_eq!(rec.gas, vec![0x02; 32]);
    assert_eq!(rec.gas_price, vec![0x03; 32]);
    assert_eq!(rec.block_timestamp, 1_700_000_000);
    assert_eq!(rec.blob_count, 5);
    assert_eq!(rec.blob_size, Some(1024));
}

#[test]
fn extract_counts_decode_failures_and_continues() {
    let policy = Policy::conventional(b"mainnet".to_vec());
    let block = block_with(vec![
        tx(0x01, Some(3), Some(vec![0x22; 20]), vec![0u8; 10]),
        tx(0x02, Some(3), Some(vec![0x22; 20]), structured_input(2, 8)),
    ]);
    let (records, decode_failures, missing_recipients) = extract(&policy, &block);
    assert_eq!(records.len(), 1);
    assert_eq!(records[0].tx_hash, vec![0x02; 32]);
    assert_eq!(decode_failures, 1);
    assert_eq!(missing_recipients, 0);
}

#[test]
fn contract_creation_is_excluded_from_persistence() {
    let policy = Policy::conventional(b"mainnet".to_vec());
    let block = block_with(vec![tx(0x01, Some(3), None, structured_input(5, 1024))]);
    let (records, decode_failures, missing_recipients) = extract(&policy, &block);
    assert_eq!(records.len(), 0);
    assert_eq!(decode_failures, 0);
    assert_eq!(missing_recipients, 1);
}

#[test]
fn extract_keeps_block_order() {
    let policy = Policy::conventional(b"mainnet".to_vec());
    let block = block_with(vec![
        tx(0x01, Some(3), Some(vec![0x22; 20]), structured_input(1, 1)),
        tx(0x02, Some(3), Some(vec![0x22; 20]), structured_input(2, 2)),
        tx(0x03, Some(3), Some(vec![0x22; 20]), structured_input(3, 3)),
    ]);
    let (records, _, _) = extract(&policy, &block);
    let counts: Vec<u64> = records.iter().map(|r| r.blob_count).collect();
    assert_eq!(counts, vec![1, 2, 3]);
}

fn record(count: u64, size: Option<u64>) -> BlobTransaction {
    BlobTransaction {
        chain: b"mainnet".to_vec(),
        tx_hash: vec![0xaa; 32],
        from: vec![0x11; 20],
        to: vec![0x22; 20],
        value: vec![0; 32],
        gas: vec![0; 32],
        gas_price: vec![0; 32],
        block_timestamp: 0,
        blob_count: count,
        blob_size: size,
    }
}

#[test]
fn aggregate_counts_per_pair() {
    let records = vec![
        record(5, Some(1024)),
        record(1, None),
        record(5, Some(1024)),
        record(5, Some(2048)),
    ];
    let dist = aggregate(&records);
    assert_eq!(dist.groups(), 3);
    assert_eq!(dist.occurrences_of(5, Some(1024)), 2);
    assert_eq!(dist.occurrences_of(5, Some(2048)), 1);
    assert_eq!(dist.occurrences_of(1, None), 1);
    assert_eq!(dist.occurrences_of(9, Some(9)), 0);
}

#[test]
fn aggregate_of_nothing_is_empty() {
    let dist = aggregate(&Vec::new());
    assert_eq!(dist.groups(), 0);
    assert_eq!(dist.occurrences_of(0, None), 0);
}
