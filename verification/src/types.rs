//! Data model of the pipeline: normalized blocks and transactions as plain
//! values, the derived blob-transaction record, the ingestion policy, and the
//! error taxonomy of the fetch path.
//!
//! Hashes, addresses and 256-bit quantities are carried as byte vectors; the
//! fields the logic computes with (block number, timestamp, gas used, blob
//! count and size) are plain unsigned integers.

use crate::decoder::DecodeScheme;
use vstd::prelude::*;

verus! {

/// Hard failures of the fetch path: either aborts the current range walk;
/// both are resumable from the last fully processed block.
#[derive(Debug, Clone, Copy, PartialEq, Eq, Structural)]
pub enum FetchError {
    /// An underlying network or RPC fault.
    TransportError,
    /// The client returned no block for the requested number, or a block
    /// missing a field required for it to count as confirmed.
    BlockNotFound,
}

/// A fully fetched transaction, normalized to plain values.
#[derive(Debug, Clone, PartialEq, Eq)]
pub struct Transaction {
    pub hash: Vec<u8>,
    pub from: Vec<u8>,
    /// Absent for contract creation.
    pub to: Option<Vec<u8>>,
    pub value: Vec<u8>,
    pub gas: Vec<u8>,
    pub gas_price: Vec<u8>,
    pub input: Vec<u8>,
    pub transaction_type: Option<u64>,
}

/// The mathematical value of a `Transaction`.
pub struct TxModel {
    pub hash: Seq<u8>,
    pub from: Seq<u8>,
    pub to: Option<Seq<u8>>,
    pub value: Seq<u8>,
    pub gas: Seq<u8>,
    pub gas_price: Seq<u8>,
    pub input: Seq<u8>,
    pub transaction_type: Option<u64>,
}

pub open spec fn opt_bytes_view(o: Option<Vec<u8>>) -> Option<Seq<u8>> {
    match o {
        Some(v) => Some(v@),
        None => None,
    }
}

impl View for Transaction {
    type V = TxModel;

    open spec fn view(&self) -> TxModel {
        TxModel {
            hash: self.hash@,
            from: self.from@,
            to: opt_bytes_view(self.to),
            value: self.value@,
            gas: self.gas@,
            gas_price: self.gas_price@,
            input: self.input@,
            transaction_type: self.transaction_type,
        }
    }
}

/// A block as the node client reports it: confirmation-critical fields are
/// still optional, and transactions are present only as hash references.
#[derive(Debug, Clone, PartialEq, Eq)]
pub struct RawBlock {
    pub number: Option<u64>,
    pub hash: Option<Vec<u8>>,
    pub parent_hash: Vec<u8>,
    pub nonce: Option<Vec<u8>>,
    pub logs_bloom: Option<Vec<u8>>,
    pub transactions_root: Vec<u8>,
    pub state_root: Vec<u8>,
    pub receipts_root: Vec<u8>,
    pub difficulty: Vec<u8>,
    pub total_difficulty: Option<Vec<u8>>,
    pub extra_data: Vec<u8>,
    pub size: Option<u64>,
    pub gas_limit: Vec<u8>,
    pub gas_used: u64,
    pub timestamp: u64,
    pub base_fee_per_gas: Option<Vec<u8>>,
    /// Hashes of the block's transactions, in block order.
    pub transactions: Vec<Vec<u8>>,
    pub uncles: Vec<Vec<u8>>,
}

/// A confirmed block: number, hash and total difficulty are present, and the
/// referenced transactions that could be fetched are attached in block order.
#[derive(Debug, Clone, PartialEq, Eq)]
pub struct Block {
    pub number: u64,
    pub hash: Vec<u8>,
    pub parent_hash: Vec<u8>,
    pub nonce: Option<Vec<u8>>,
    pub logs_bloom: Option<Vec<u8>>,
    pub transactions_root: Vec<u8>,
    pub state_root: Vec<u8>,
    pub receipts_root: Vec<u8>,
    pub difficulty: Vec<u8>,
    pub total_difficulty: Vec<u8>,
    pub extra_data: Vec<u8>,
    pub size: Option<u64>,
    pub gas_limit: Vec<u8>,
    pub gas_used: u64,
    pub timestamp: u64,
    pub base_fee_per_gas: Option<Vec<u8>>,
    pub transactions: Vec<Transaction>,
    pub uncles: Vec<Vec<u8>>,
}

/// The record persisted for each classified blob transaction. Every field is
/// required; in particular a recipient is required, so contract-creation
/// transactions are never persisted.
#[derive(Debug, Clone, PartialEq, Eq)]
pub struct BlobTransaction {
    /// Chain tag qualifying the storage key, e.g. the bytes of "mainnet".
    pub chain: Vec<u8>,
    pub tx_hash: Vec<u8>,
    pub from: Vec<u8>,
    pub to: Vec<u8>,
    pub value: Vec<u8>,
    pub gas: Vec<u8>,
    pub gas_price: Vec<u8>,
    pub block_timestamp: u64,
    pub blob_count: u64,
    /// Absent under a decode strategy that defines no size.
    pub blob_size: Option<u64>,
}

/// The mathematical value of a `BlobTransaction`.
pub struct RecordModel {
    pub chain: Seq<u8>,
    pub tx_hash: Seq<u8>,
    pub from: Seq<u8>,
    pub to: Seq<u8>,
    pub value: Seq<u8>,
    pub gas: Seq<u8>,
    pub gas_price: Seq<u8>,
    pub block_timestamp: u64,
    pub blob_count: u64,
    pub blob_size: Option<u64>,
}

impl View for BlobTransaction {
    type V = RecordModel;

    open spec fn view(&self) -> RecordModel {
        RecordModel {
            chain: self.chain@,
            tx_hash: self.tx_hash@,
            from: self.from@,
            to: self.to@,
            value: self.value@,
            gas: self.gas@,
            gas_price: self.gas_price@,
            block_timestamp: self.block_timestamp,
            blob_count: self.blob_count,
            blob_size: self.blob_size,
        }
    }
}

/// The designated transaction-type discriminant of blob transactions under
/// the conventional policy.
pub const BLOB_TX_TYPE: u64 = 3;

/// The configuration of a run: which chain tags the storage keys, which
/// type discriminant marks a blob transaction, and which decode strategy
/// applies to its input bytes. Surfaced as configuration so the discriminant
/// and strategy are auditable rather than buried constants.
#[derive(Debug, Clone, PartialEq, Eq)]
pub struct Policy {
    pub chain: Vec<u8>,
    pub blob_type: u64,
    pub scheme: DecodeScheme,
}

/// The mathematical value of a `Policy`.
pub struct PolicyModel {
    pub chain: Seq<u8>,
    pub blob_type: u64,
    pub scheme: DecodeScheme,
}

impl View for Policy {
    type V = PolicyModel;

    open spec fn view(&self) -> PolicyModel {
        PolicyModel { chain: self.chain@, blob_type: self.blob_type, scheme: self.scheme }
    }
}

/// Copies a byte vector.
pub fn clone_bytes(v: &Vec<u8>) -> (r: Vec<u8>)
    ensures
        r@ == v@,
{
    let mut out: Vec<u8> = Vec::new();
    let mut i: usize = 0;
    while i < v.len()
        invariant
            i <= v@.len(),
            out@ == v@.subrange(0, i as int),
        decreases v@.len() - i,
    {
        out.push(v[i]);
        proof {
            assert(v@.subrange(0, i as int).push(v@[i as int]) =~= v@.subrange(0, i + 1));
        }
        i += 1;
    }
    proof {
        assert(v@.subrange(0, v@.len() as int) =~= v@);
    }
    out
}

/// Copies an optional byte vector.
pub fn clone_opt_bytes(v: &Option<Vec<u8>>) -> (r: Option<Vec<u8>>)
    ensures
        opt_bytes_view(r) == opt_bytes_view(*v),
{
    match v {
        Some(inner) => Some(clone_bytes(inner)),
        None => None,
    }
}

/// Copies a transaction, preserving its mathematical value.
pub fn clone_transaction(t: &Transaction) -> (r: Transaction)
    ensures
        r@ == t@,
{
    Transaction {
        hash: clone_bytes(&t.hash),
        from: clone_bytes(&t.from),
        to: clone_opt_bytes(&t.to),
        value: clone_bytes(&t.value),
        gas: clone_bytes(&t.gas),
        gas_price: clone_bytes(&t.gas_price),
        input: clone_bytes(&t.input),
        transaction_type: t.transaction_type,
    }
}

/// Copies a record, preserving its mathematical value.
pub fn clone_record(b: &BlobTransaction) -> (r: BlobTransaction)
    ensures
        r@ == b@,
{
    BlobTransaction {
        chain: clone_bytes(&b.chain),
        tx_hash: clone_bytes(&b.tx_hash),
        from: clone_bytes(&b.from),
        to: clone_bytes(&b.to),
        value: clone_bytes(&b.value),
        gas: clone_bytes(&b.gas),
        gas_price: clone_bytes(&b.gas_price),
        block_timestamp: b.block_timestamp,
        blob_count: b.blob_count,
        blob_size: b.blob_size,
    }
}

impl Policy {
    pub fn new(chain: Vec<u8>, blob_type: u64, scheme: DecodeScheme) -> (r: Policy)
        ensures
            r@ == (PolicyModel { chain: chain@, blob_type, scheme }),
    {
        Policy { chain, blob_type, scheme }
    }

    /// The conventional policy: the designated blob discriminant with the
    /// structured-header decode strategy.
    pub fn conventional(chain: Vec<u8>) -> (r: Policy)
        ensures
            r@ == (PolicyModel {
                chain: chain@,
                blob_type: BLOB_TX_TYPE,
                scheme: DecodeScheme::StructuredHeader,
            }),
    {
        Policy { chain, blob_type: BLOB_TX_TYPE, scheme: DecodeScheme::StructuredHeader }
    }
}

} // verus!
