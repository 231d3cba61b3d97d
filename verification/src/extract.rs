//! Classification and extraction stage: runs the classifier and decoder over
//! a block's transactions, in order, and builds one persisted record per
//! successful match. Decode failures and absent recipients are soft,
//! per-transaction failures: each is counted and the transaction skipped,
//! never aborting the block.

use crate::classifier::{is_blob_spec, is_blob_transaction};
use crate::decoder::{decode, decode_spec};
use crate::types::{
    clone_bytes, BlobTransaction, Block, Policy, PolicyModel, RecordModel, TxModel,
};
use crate::chain::tx_views;
use vstd::prelude::*;

verus! {

/// The record persisted for one classified and decoded transaction, carrying
/// the block's timestamp. Defined only where the transaction has a
/// recipient.
pub open spec fn record_of(
    policy: PolicyModel,
    timestamp: u64,
    tx: TxModel,
    count: u64,
    size: Option<u64>,
) -> RecordModel {
    RecordModel {
        chain: policy.chain,
        tx_hash: tx.hash,
        from: tx.from,
        to: tx.to->Some_0,
        value: tx.value,
        gas: tx.gas,
        gas_price: tx.gas_price,
        block_timestamp: timestamp,
        blob_count: count,
        blob_size: size,
    }
}

/// What extraction yields over a transaction sequence: the records in block
/// order, the decode-failure count, and the missing-recipient count.
pub open spec fn extract_spec(policy: PolicyModel, timestamp: u64, txs: Seq<TxModel>) -> (
    Seq<RecordModel>,
    nat,
    nat,
)
    decreases txs.len(),
{
    if txs.len() == 0 {
        (Seq::empty(), 0nat, 0nat)
    } else {
        let prior = extract_spec(policy, timestamp, txs.drop_last());
        let tx = txs.last();
        if !is_blob_spec(policy.blob_type, tx.transaction_type) {
            prior
        } else {
            match decode_spec(policy.scheme, tx.input) {
                Err(_) => (prior.0, prior.1 + 1, prior.2),
                Ok((count, size)) => match tx.to {
                    None => (prior.0, prior.1, prior.2 + 1),
                    Some(_) => (
                        prior.0.push(record_of(policy, timestamp, tx, count, size)),
                        prior.1,
                        prior.2,
                    ),
                },
            }
        }
    }
}

/// Extraction never yields more records or counts failures more often than
/// the block has transactions.
pub proof fn lemma_extract_counts_bound(policy: PolicyModel, timestamp: u64, txs: Seq<TxModel>)
    ensures
        extract_spec(policy, timestamp, txs).0.len() + extract_spec(policy, timestamp, txs).1
            + extract_spec(policy, timestamp, txs).2 <= txs.len(),
    decreases txs.len(),
{
    if txs.len() > 0 {
        lemma_extract_counts_bound(policy, timestamp, txs.drop_last());
    }
}

/// The mathematical values of a record sequence.
pub open spec fn rec_views(s: Seq<BlobTransaction>) -> Seq<RecordModel> {
    s.map_values(|b: BlobTransaction| b@)
}

/// Runs classifier and decoder over each transaction of a confirmed block,
/// in order. Returns the records of the transactions that classified as blob
/// transactions and decoded with a recipient present, then the
/// decode-failure count, then the missing-recipient count.
pub fn extract(policy: &Policy, block: &Block) -> (r: (Vec<BlobTransaction>, usize, usize))
    ensures
        rec_views(r.0@) == extract_spec(policy@, block.timestamp, tx_views(block.transactions@)).0,
        r.1 == extract_spec(policy@, block.timestamp, tx_views(block.transactions@)).1,
        r.2 == extract_spec(policy@, block.timestamp, tx_views(block.transactions@)).2,
{
    let n = block.transactions.len();
    let mut records: Vec<BlobTransaction> = Vec::new();
    let mut decode_failures: usize = 0;
    let mut missing_fields: usize = 0;
    let mut i: usize = 0;
    while i < n
        invariant
            i <= n,
            n == block.transactions@.len(),
            rec_views(records@) == extract_spec(
                policy@,
                block.timestamp,
                tx_views(block.transactions@.subrange(0, i as int)),
            ).0,
            decode_failures == extract_spec(
                policy@,
                block.timestamp,
                tx_views(block.transactions@.subrange(0, i as int)),
            ).1,
            missing_fields == extract_spec(
                policy@,
                block.timestamp,
                tx_views(block.transactions@.subrange(0, i as int)),
            ).2,
            decode_failures + missing_fields <= i,
        decreases n - i,
    {
        proof {
            let pre = tx_views(block.transactions@.subrange(0, i as int));
            let post = tx_views(block.transactions@.subrange(0, i + 1));
            assert(post.drop_last() =~= pre);
            assert(post.last() == block.transactions@[i as int]@);
        }
        let tx = &block.transactions[i];
        if is_blob_transaction(policy, tx) {
            match decode(policy.scheme, &tx.input) {
                Err(_) => {
                    decode_failures += 1;
                },
                Ok((count, size)) => {
                    match &tx.to {
                        None => {
                            missing_fields += 1;
                        },
                        Some(to) => {
                            let ghost before = records@;
                            let rec = BlobTransaction {
                                chain: clone_bytes(&policy.chain),
                                tx_hash: clone_bytes(&tx.hash),
                                from: clone_bytes(&tx.from),
                                to: clone_bytes(to),
                                value: clone_bytes(&tx.value),
                                gas: clone_bytes(&tx.gas),
                                gas_price: clone_bytes(&tx.gas_price),
                                block_timestamp: block.timestamp,
                                blob_count: count,
                                blob_size: size,
                            };
                            records.push(rec);
                            proof {
                                assert(rec_views(records@) =~= rec_views(before).push(
                                    records@.last()@,
                                ));
                            }
                        },
                    }
                },
            }
        }
        i += 1;
    }
    proof {
        assert(block.transactions@.subrange(0, n as int) =~= block.transactions@);
    }
    (records, decode_failures, missing_fields)
}

} // verus!
