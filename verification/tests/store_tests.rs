use blob_ingest::store::{make_key, Store};
use blob_ingest::types::BlobTransaction;

fn record(chain: &[u8], hash_byte: u8, count: u64) -> BlobTransaction {
    BlobTransaction {
        chain: chain.to_vec(),
        tx_hash: vec![hash_byte; 32],
        from: vec![0x11; 20],
        to: vec![0x22; 20],
        value: vec![0; 32],
        gas: vec![0; 32],
        gas_price: vec![0; 32],
        block_timestamp: 1_700_000_000,
        blob_count: count,
        blob_size: Some(4096),
    }
}

#[test]
fn key_is_chain_colon_hash() {
    let key = make_key(&b"mainnet".to_vec(), &vec![0xab, 0xcd]);
    let mut expected = b"mainnet".to_vec();
    expected.push(b':');
    expected.extend_from_slice(&[0xab, 0xcd]);
    assert_eq!(key, expected);
}

#[test]
fn upsert_then_get_returns_the_record() {
    let mut store = Store::new();
    let rec = record(b"mainnet", 0xaa, 5);
    store.upsert(rec.clone());
    let key = make_key(&rec.chain, &rec.tx_hash);
    assert_eq!(store.get(&key), Some(&rec));
    assert_eq!(store.len(), 1);
}

#[test]
fn reingesting_the_same_record_does_not_duplicate() {
    let mut store = Store::new();
    let rec = record(b"mainnet", 0xaa, 5);
    store.upsert(rec.clone());
    store.upsert(rec.clone());
    store.upsert(rec.clone());
    assert_eq!(store.len(), 1);
    let key = make_key(&rec.chain, &rec.tx_hash);
    assert_eq!(store.get(&key), Some(&rec));
}

#[test]
fn upsert_is_a_blind_overwrite() {
    let mut store = Store::new();
    store.upsert(record(b"mainnet", 0xaa, 5));
    let newer = record(b"mainnet", 0xaa, 9);
    store.upsert(newer.clone());
    assert_eq!(store.len(), 1);
    let key = make_key(&newer.chain, &newer.tx_hash);
    assert_eq!(store.get(&key), Some(&newer));
}

#[test]
fn distinct_hashes_get_distinct_keys() {
    let mut store = Store::new();
    store.upsert(record(b"mainnet", 0xaa, 5));
    store.upsert(record(b"mainnet", 0xbb, 7));
    assert_eq!(store.len(), 2);
}

#[test]
fn same_hash_on_different_chains_does_not_collide() {
    let mut store = Store::new();
    store.upsert(record(b"mainnet", 0xaa, 5));
    store.upsert(record(b"goerli", 0xaa, 7));
    assert_eq!(store.len(), 2);
    let k1 = make_key(&b"mainnet".to_vec(), &vec![0xaa; 32]);
    let k2 = make_key(&b"goerli".to_vec(), &vec![0xaa; 32]);
    assert_eq!(store.get(&k1).unwrap().blob_count, 5);
    assert_eq!(store.get(&k2).unwrap().blob_count, 7);
}

#[test]
fn get_of_an_unknown_key_is_none() {
    let store = Store::new();
    assert_eq!(store.get(&b"mainnet:whatever".to_vec()), None);
    assert_eq!(store.len(), 0);
}
