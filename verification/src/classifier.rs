//! Transaction classifier: decides whether a transaction is a blob
//! transaction from its type discriminant. Pure computation, no I/O.

use crate::types::{Policy, Transaction};
use vstd::prelude::*;

verus! {

/// A transaction is a blob transaction exactly when its type discriminant is
/// present and equals the designated blob discriminant. An absent
/// discriminant never classifies as a blob transaction.
pub open spec fn is_blob_spec(blob_type: u64, tx_type: Option<u64>) -> bool {
    tx_type == Some(blob_type)
}

/// Classifies a transaction under the given policy.
pub fn is_blob_transaction(policy: &Policy, tx: &Transaction) -> (r: bool)
    ensures
        r == is_blob_spec(policy.blob_type, tx.transaction_type),
{
    match tx.transaction_type {
        Some(t) => t == policy.blob_type,
        None => false,
    }
}

} // verus!
