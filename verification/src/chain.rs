//! Chain reader: normalizes what the node client hands back into a confirmed
//! `Block`. The client may return no block at all, a block missing a
//! confirmation-critical field, or — for any referenced transaction — no
//! transaction detail. The first two are hard failures; a referenced but
//! missing transaction is a soft failure that is counted and skipped.

use crate::types::{clone_transaction, Block, FetchError, RawBlock, Transaction, TxModel};
use vstd::prelude::*;

verus! {

/// A block counts as confirmed only when its number, hash and total
/// difficulty are present; absence is a fetch error, never a null value
/// propagated onward.
pub open spec fn header_complete(raw: RawBlock) -> bool {
    raw.number is Some && raw.hash is Some && raw.total_difficulty is Some
}

pub open spec fn opt_tx_model(o: Option<Transaction>) -> Option<TxModel> {
    match o {
        Some(t) => Some(t@),
        None => None,
    }
}

/// The mathematical values of a sequence of per-hash fetch outcomes.
pub open spec fn fetched_models(s: Seq<Option<Transaction>>) -> Seq<Option<TxModel>> {
    s.map_values(|o: Option<Transaction>| opt_tx_model(o))
}

/// The transactions that were actually retrieved, in block order.
pub open spec fn present_txs(s: Seq<Option<TxModel>>) -> Seq<TxModel>
    decreases s.len(),
{
    if s.len() == 0 {
        Seq::empty()
    } else {
        match s.last() {
            Some(t) => present_txs(s.drop_last()).push(t),
            None => present_txs(s.drop_last()),
        }
    }
}

/// How many referenced transactions the client failed to return.
pub open spec fn missing_count(s: Seq<Option<TxModel>>) -> nat
    decreases s.len(),
{
    if s.len() == 0 {
        0
    } else {
        missing_count(s.drop_last()) + if s.last() is None {
            1nat
        } else {
            0nat
        }
    }
}

/// The mathematical values of a transaction sequence.
pub open spec fn tx_views(s: Seq<Transaction>) -> Seq<TxModel> {
    s.map_values(|t: Transaction| t@)
}

/// Builds a confirmed block from the client's answer for one block number
/// and its per-referenced-hash transaction fetch outcomes.
///
/// No block, or a block missing a confirmation-critical field, is a hard
/// `BlockNotFound` failure. A missing transaction is skipped and counted;
/// the retrieved ones are kept in block order. The second component of a
/// successful result is that soft-failure count.
pub fn build_block(fetched: Option<RawBlock>, txs: &Vec<Option<Transaction>>) -> (r: Result<
    (Block, usize),
    FetchError,
>)
    requires
        fetched is Some ==> txs@.len() == fetched->Some_0.transactions@.len(),
    ensures
        fetched is None ==> r == Err::<(Block, usize), FetchError>(FetchError::BlockNotFound),
        fetched is Some && !header_complete(fetched->Some_0) ==> r == Err::<
            (Block, usize),
            FetchError,
        >(FetchError::BlockNotFound),
        fetched is Some && header_complete(fetched->Some_0) ==> r is Ok && ({
            let raw = fetched->Some_0;
            let b = r->Ok_0.0;
            &&& b.number == raw.number->Some_0
            &&& b.hash == raw.hash->Some_0
            &&& b.parent_hash == raw.parent_hash
            &&& b.nonce == raw.nonce
            &&& b.logs_bloom == raw.logs_bloom
            &&& b.transactions_root == raw.transactions_root
            &&& b.state_root == raw.state_root
            &&& b.receipts_root == raw.receipts_root
            &&& b.difficulty == raw.difficulty
            &&& b.total_difficulty == raw.total_difficulty->Some_0
            &&& b.extra_data == raw.extra_data
            &&& b.size == raw.size
            &&& b.gas_limit == raw.gas_limit
            &&& b.gas_used == raw.gas_used
            &&& b.timestamp == raw.timestamp
            &&& b.base_fee_per_gas == raw.base_fee_per_gas
            &&& b.uncles == raw.uncles
            &&& tx_views(b.transactions@) == present_txs(fetched_models(txs@))
            &&& r->Ok_0.1 == missing_count(fetched_models(txs@))
        }),
{
    let raw = match fetched {
        Some(raw) => raw,
        None => {
            return Err(FetchError::BlockNotFound);
        },
    };
    let number = match raw.number {
        Some(n) => n,
        None => {
            return Err(FetchError::BlockNotFound);
        },
    };
    let hash = match raw.hash {
        Some(h) => h,
        None => {
            return Err(FetchError::BlockNotFound);
        },
    };
    let total_difficulty = match raw.total_difficulty {
        Some(d) => d,
        None => {
            return Err(FetchError::BlockNotFound);
        },
    };
    let n = txs.len();
    let mut kept: Vec<Transaction> = Vec::new();
    let mut missing: usize = 0;
    let mut i: usize = 0;
    while i < n
        invariant
            i <= n,
            n == txs@.len(),
            tx_views(kept@) == present_txs(fetched_models(txs@.subrange(0, i as int))),
            missing == missing_count(fetched_models(txs@.subrange(0, i as int))),
            missing <= i,
        decreases n - i,
    {
        proof {
            let pre = fetched_models(txs@.subrange(0, i as int));
            let post = fetched_models(txs@.subrange(0, i + 1));
            assert(post.drop_last() =~= pre);
            assert(post.last() == opt_tx_model(txs@[i as int]));
        }
        match &txs[i] {
            Some(t) => {
                let ghost before = kept@;
                let c = clone_transaction(t);
                kept.push(c);
                proof {
                    assert(tx_views(kept@) =~= tx_views(before).push(c@));
                }
            },
            None => {
                missing += 1;
            },
        }
        i += 1;
    }
    proof {
        assert(txs@.subrange(0, n as int) =~= txs@);
    }
    let block = Block {
        number,
        hash,
        parent_hash: raw.parent_hash,
        nonce: raw.nonce,
        logs_bloom: raw.logs_bloom,
        transactions_root: raw.transactions_root,
        state_root: raw.state_root,
        receipts_root: raw.receipts_root,
        difficulty: raw.difficulty,
        total_difficulty,
        extra_data: raw.extra_data,
        size: raw.size,
        gas_limit: raw.gas_limit,
        gas_used: raw.gas_used,
        timestamp: raw.timestamp,
        base_fee_per_gas: raw.base_fee_per_gas,
        transactions: kept,
        uncles: raw.uncles,
    };
    Ok((block, missing))
}

} // verus!
