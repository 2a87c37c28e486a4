//! The error taxonomy: store errors, per-transaction errors tagged with the
//! transaction's index within the block, and block-level resource errors
//! carrying the measured and the allowed value.

use vstd::prelude::*;

verus! {

/// Errors raised by chain-store classification.
#[derive(Clone, Copy, Debug, PartialEq, Eq)]
pub enum StoreError {
    /// The candidate block's parent is absent from the store.
    UnknownParent,
}

/// What is wrong with one transaction.
#[derive(Clone, Copy, Debug, PartialEq, Eq)]
pub enum TransactionError {
    /// The transaction's lock time has not yet passed, while the lock-time
    /// deployment is active.
    NotFinal,
    /// The transaction has no inputs.
    Empty,
    /// A coinbase transaction stands where none may, or a non-coinbase
    /// transaction carries a null input.
    MisplacedCoinbase,
    /// The transaction alone exceeds the signature-operation cap.
    Sigops,
    /// The transaction's counted size exceeds the weight cap.
    Size,
    /// An input references an output unknown to every provider layer; the
    /// referenced transaction id is attached.
    UnknownReference(u64),
    /// The transaction spends a coinbase output before its maturity depth
    /// has elapsed.
    Maturity,
    /// The transaction's total output value exceeds its total resolved
    /// input value.
    Overspend,
}

/// Result of verifying a block (or a header).
#[derive(Clone, Copy, Debug, PartialEq, Eq)]
pub enum Error {
    /// The block has no transactions.
    Empty,
    /// The block's first transaction is not a coinbase.
    Coinbase,
    /// The header's timestamp lies too far in the future.
    Timestamp,
    /// The block's counted size exceeds the weight cap.
    Size,
    /// The header's merkle root does not match the transaction list.
    MerkleRoot,
    /// Transaction at the attached zero-based index failed with the
    /// attached cause.
    Transaction(usize, TransactionError),
    /// The block's aggregate signature-operation count exceeds the
    /// network's cap.
    MaximumSigops,
    /// The coinbase claims more than the height-appropriate subsidy plus
    /// the block's fees; both the allowed maximum and the claimed value
    /// are attached.
    CoinbaseOverspend { expected_max: u128, actual: u128 },
    /// A store/classification error, passed through unchanged.
    Database(StoreError),
}

} // verus!
