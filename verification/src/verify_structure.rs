//! Structural pre-verification: pure checks of a header, a block or a
//! standalone transaction against the network rules and a caller-supplied
//! wall-clock timestamp.  No chain state is read, so a failing object is
//! rejected before any contextual work.

use vstd::prelude::*;

use crate::chain::{
    input_script_lens, input_sigops, lemma_input_sigops_le_lens, lemma_isl_take,
    lemma_osl_take, lemma_output_sigops_le_lens, lemma_script_lens_nonneg,
    lemma_script_sigops_bound, lemma_transaction_weight_parts, lemma_weight_prefix_monotone,
    merkle_root, output_script_lens, output_sigops, script_sigops, spec_merkle_root,
    transaction_sigops, transaction_weight, weight_prefix, Block, BlockHeader, Transaction,
};
use crate::consensus::{MAX_BLOCK_SIGOPS, MAX_BLOCK_WEIGHT, MAX_FUTURE_DRIFT, OP_CHECKSIG};
use crate::error::{Error, TransactionError};

verus! {

// ---------------------------------------------------------------------------
// Header rules

/// Structural fault of a header: a timestamp too far past the supplied
/// wall-clock time.
pub open spec fn spec_header_error(h: BlockHeader, current_time: u32) -> Option<Error> {
    if h.time > current_time + MAX_FUTURE_DRIFT {
        Option::Some(Error::Timestamp)
    } else {
        Option::None
    }
}

/// Structural header verification.
pub fn verify_header(h: &BlockHeader, current_time: u32) -> (r: Result<(), Error>)
    ensures
        match r {
            Result::Ok(u) => spec_header_error(*h, current_time) is None,
            Result::Err(e) => spec_header_error(*h, current_time) == Option::Some(e),
        },
{
    if (h.time as u64) > (current_time as u64) + (MAX_FUTURE_DRIFT as u64) {
        Result::Err(Error::Timestamp)
    } else {
        Result::Ok(())
    }
}

// ---------------------------------------------------------------------------
// Null-input rules

/// Whether any input of `tx` carries the null reference.
pub open spec fn spec_tx_null_input(tx: Transaction) -> bool {
    exists|k: int| 0 <= k < tx.inputs@.len() && tx.inputs@[k].previous_output.spec_is_null()
}

/// First transaction at index `i` or later that carries a null input.
pub open spec fn spec_null_scan(txs: Seq<Transaction>, i: int) -> Option<int>
    decreases txs.len() - i,
{
    if i < 0 || i >= txs.len() {
        Option::None
    } else if spec_tx_null_input(txs[i]) {
        Option::Some(i)
    } else {
        spec_null_scan(txs, i + 1)
    }
}

fn has_null_input(tx: &Transaction) -> (r: bool)
    ensures
        r == spec_tx_null_input(*tx),
{
    let mut k: usize = 0;
    while k < tx.inputs.len()
        invariant
            k <= tx.inputs@.len(),
            forall|m: int| 0 <= m < k ==> !tx.inputs@[m].previous_output.spec_is_null(),
        decreases tx.inputs@.len() - k,
    {
        if tx.inputs[k].previous_output.is_null() {
            return true;
        }
        k = k + 1;
    }
    false
}

proof fn lemma_null_scan_shift(txs: Seq<Transaction>, i: int, j: int)
    requires
        0 <= i <= j <= txs.len(),
        forall|k: int| i <= k < j ==> !spec_tx_null_input(txs[k]),
    ensures
        spec_null_scan(txs, i) == spec_null_scan(txs, j),
    decreases j - i,
{
    if i < j {
        lemma_null_scan_shift(txs, i + 1, j);
    }
}

// ---------------------------------------------------------------------------
// Weight rules

/// Computes a transaction's weight exactly, unless it exceeds `cap`.
fn transaction_weight_capped(tx: &Transaction, cap: u64) -> (r: Option<u64>)
    ensures
        match r {
            Option::Some(w) => w == transaction_weight(*tx) && w <= cap,
            Option::None => transaction_weight(*tx) > cap,
        },
{
    proof {
        lemma_transaction_weight_parts(*tx);
        lemma_script_lens_nonneg(tx.inputs@, tx.outputs@);
    }
    if cap < 1 {
        return Option::None;
    }
    let mut acc: u64 = 1;
    let nin: usize = tx.inputs.len();
    let nout: usize = tx.outputs.len();
    if (nin as u64) > cap - acc {
        return Option::None;
    }
    acc = acc + nin as u64;
    if (nout as u64) > cap - acc {
        return Option::None;
    }
    acc = acc + nout as u64;
    let mut i: usize = 0;
    while i < nin
        invariant
            i <= nin,
            nin == tx.inputs@.len(),
            nout == tx.outputs@.len(),
            acc == 1 + nin + nout + input_script_lens(tx.inputs@.take(i as int)),
            acc <= cap,
        decreases nin - i,
    {
        proof {
            assert(tx.inputs@.take(i + 1).drop_last() =~= tx.inputs@.take(i as int));
            lemma_isl_take(tx.inputs@, i + 1);
            lemma_osl_take(tx.outputs@, 0);
        }
        let c: usize = tx.inputs[i].script_sig.len();
        if (c as u64) > cap - acc {
            proof {
                lemma_script_lens_nonneg(tx.inputs@, tx.outputs@);
            }
            return Option::None;
        }
        acc = acc + c as u64;
        i = i + 1;
    }
    proof {
        assert(tx.inputs@.take(nin as int) =~= tx.inputs@);
    }
    let mut j: usize = 0;
    while j < nout
        invariant
            j <= nout,
            nin == tx.inputs@.len(),
            nout == tx.outputs@.len(),
            acc == 1 + nin + nout + input_script_lens(tx.inputs@) + output_script_lens(
                tx.outputs@.take(j as int),
            ),
            acc <= cap,
        decreases nout - j,
    {
        proof {
            assert(tx.outputs@.take(j + 1).drop_last() =~= tx.outputs@.take(j as int));
            lemma_osl_take(tx.outputs@, j + 1);
        }
        let c: usize = tx.outputs[j].script_pubkey.len();
        if (c as u64) > cap - acc {
            return Option::None;
        }
        acc = acc + c as u64;
        j = j + 1;
    }
    proof {
        assert(tx.outputs@.take(nout as int) =~= tx.outputs@);
    }
    Option::Some(acc)
}

/// Whether the block's weight stays within the cap.
fn block_weight_within_limit(txs: &Vec<Transaction>) -> (r: bool)
    ensures
        r == (weight_prefix(txs@, txs@.len() as int) <= MAX_BLOCK_WEIGHT),
{
    let mut w: u64 = 0;
    let mut i: usize = 0;
    while i < txs.len()
        invariant
            i <= txs@.len(),
            w == weight_prefix(txs@, i as int),
            w <= MAX_BLOCK_WEIGHT,
        decreases txs@.len() - i,
    {
        match transaction_weight_capped(&txs[i], MAX_BLOCK_WEIGHT - w) {
            Option::None => {
                proof {
                    lemma_weight_prefix_monotone(txs@, i + 1, txs@.len() as int);
                }
                return false;
            },
            Option::Some(tw) => {
                w = w + tw;
                i = i + 1;
            },
        }
    }
    true
}

// ---------------------------------------------------------------------------
// Sigop counting (executable)

/// Counts the sigops of one script.
fn script_sigops_count(s: &Vec<u8>) -> (r: u64)
    ensures
        r == script_sigops(s@),
{
    let mut acc: u64 = 0;
    let mut i: usize = 0;
    while i < s.len()
        invariant
            i <= s@.len(),
            acc == script_sigops(s@.take(i as int)),
            acc <= i,
        decreases s@.len() - i,
    {
        proof {
            assert(s@.take(i + 1).drop_last() =~= s@.take(i as int));
            lemma_script_sigops_bound(s@.take(i as int));
        }
        if s[i] == OP_CHECKSIG {
            acc = acc + 1;
        }
        i = i + 1;
    }
    proof {
        assert(s@.take(s@.len() as int) =~= s@);
    }
    acc
}

/// Counts a transaction's sigops.  The weight bound keeps every running
/// count far below the integer limits.
pub fn transaction_sigops_count(tx: &Transaction) -> (r: u64)
    requires
        transaction_weight(*tx) <= MAX_BLOCK_WEIGHT,
    ensures
        r == transaction_sigops(*tx),
{
    proof {
        lemma_transaction_weight_parts(*tx);
        lemma_script_lens_nonneg(tx.inputs@, tx.outputs@);
    }
    let mut acc: u64 = 0;
    let mut i: usize = 0;
    while i < tx.inputs.len()
        invariant
            i <= tx.inputs@.len(),
            transaction_weight(*tx) <= MAX_BLOCK_WEIGHT,
            acc == input_sigops(tx.inputs@.take(i as int)),
            acc <= MAX_BLOCK_WEIGHT,
        decreases tx.inputs@.len() - i,
    {
        proof {
            assert(tx.inputs@.take(i + 1).drop_last() =~= tx.inputs@.take(i as int));
            lemma_input_sigops_le_lens(tx.inputs@.take(i + 1));
            lemma_isl_take(tx.inputs@, i + 1);
            lemma_transaction_weight_parts(*tx);
        }
        let c = script_sigops_count(&tx.inputs[i].script_sig);
        acc = acc + c;
        i = i + 1;
    }
    proof {
        assert(tx.inputs@.take(tx.inputs@.len() as int) =~= tx.inputs@);
    }
    let mut j: usize = 0;
    let mut out_acc: u64 = 0;
    while j < tx.outputs.len()
        invariant
            j <= tx.outputs@.len(),
            transaction_weight(*tx) <= MAX_BLOCK_WEIGHT,
            acc == input_sigops(tx.inputs@),
            acc <= MAX_BLOCK_WEIGHT,
            out_acc == output_sigops(tx.outputs@.take(j as int)),
            out_acc <= MAX_BLOCK_WEIGHT,
        decreases tx.outputs@.len() - j,
    {
        proof {
            assert(tx.outputs@.take(j + 1).drop_last() =~= tx.outputs@.take(j as int));
            lemma_output_sigops_le_lens(tx.outputs@.take(j + 1));
            lemma_osl_take(tx.outputs@, j + 1);
            lemma_transaction_weight_parts(*tx);
        }
        let c = script_sigops_count(&tx.outputs[j].script_pubkey);
        out_acc = out_acc + c;
        j = j + 1;
    }
    proof {
        assert(tx.outputs@.take(tx.outputs@.len() as int) =~= tx.outputs@);
        lemma_input_sigops_le_lens(tx.inputs@);
        lemma_output_sigops_le_lens(tx.outputs@);
        lemma_isl_take(tx.inputs@, tx.inputs@.len() as int);
        lemma_osl_take(tx.outputs@, tx.outputs@.len() as int);
    }
    acc + out_acc
}

// ---------------------------------------------------------------------------
// Block structure

/// Structural fault of a block, first one in rule order: header timestamp,
/// non-emptiness, a coinbase first and nowhere else (no null input past the
/// first transaction), the weight cap, and the merkle commitment.
pub open spec fn spec_block_structural_error(b: Block, current_time: u32) -> Option<Error> {
    if b.header.time > current_time + MAX_FUTURE_DRIFT {
        Option::Some(Error::Timestamp)
    } else if b.transactions@.len() == 0 {
        Option::Some(Error::Empty)
    } else if !b.transactions@[0].spec_is_coinbase() {
        Option::Some(Error::Coinbase)
    } else {
        match spec_null_scan(b.transactions@, 1) {
            Option::Some(i) => Option::Some(
                Error::Transaction(i as usize, TransactionError::MisplacedCoinbase),
            ),
            Option::None => {
                if weight_prefix(b.transactions@, b.transactions@.len() as int)
                    > MAX_BLOCK_WEIGHT {
                    Option::Some(Error::Size)
                } else if b.header.merkle_root != spec_merkle_root(b.transactions@) {
                    Option::Some(Error::MerkleRoot)
                } else {
                    Option::None
                }
            },
        }
    }
}

/// Structural pre-verification of a block.
pub fn check_block_structure(b: &Block, current_time: u32) -> (r: Result<(), Error>)
    ensures
        match r {
            Result::Ok(u) => spec_block_structural_error(*b, current_time) is None,
            Result::Err(e) => spec_block_structural_error(*b, current_time) == Option::Some(e),
        },
{
    if let Result::Err(e) = verify_header(&b.header, current_time) {
        return Result::Err(e);
    }
    if b.transactions.len() == 0 {
        return Result::Err(Error::Empty);
    }
    if !b.transactions[0].is_coinbase() {
        return Result::Err(Error::Coinbase);
    }
    let mut i: usize = 1;
    while i < b.transactions.len()
        invariant
            1 <= i <= b.transactions@.len(),
            spec_header_error(b.header, current_time) is None,
            b.transactions@[0].spec_is_coinbase(),
            forall|k: int| 1 <= k < i ==> !spec_tx_null_input(b.transactions@[k]),
        decreases b.transactions@.len() - i,
    {
        if has_null_input(&b.transactions[i]) {
            proof {
                lemma_null_scan_shift(b.transactions@, 1, i as int);
            }
            return Result::Err(
                Error::Transaction(i, TransactionError::MisplacedCoinbase),
            );
        }
        i = i + 1;
    }
    proof {
        lemma_null_scan_shift(b.transactions@, 1, b.transactions@.len() as int);
    }
    if !block_weight_within_limit(&b.transactions) {
        return Result::Err(Error::Size);
    }
    if b.header.merkle_root != merkle_root(&b.transactions) {
        return Result::Err(Error::MerkleRoot);
    }
    Result::Ok(())
}

// ---------------------------------------------------------------------------
// Standalone transaction structure

/// Structural fault of a standalone transaction offered for the pool:
/// no coinbase (and no null input), at least one input, the weight cap,
/// and the per-transaction sigop cap.
pub open spec fn spec_mempool_structural_error(tx: Transaction) -> Option<TransactionError> {
    if tx.inputs@.len() == 0 {
        Option::Some(TransactionError::Empty)
    } else if spec_tx_null_input(tx) {
        Option::Some(TransactionError::MisplacedCoinbase)
    } else if transaction_weight(tx) > MAX_BLOCK_WEIGHT {
        Option::Some(TransactionError::Size)
    } else if transaction_sigops(tx) > MAX_BLOCK_SIGOPS {
        Option::Some(TransactionError::Sigops)
    } else {
        Option::None
    }
}

/// Structural pre-verification of a standalone transaction.
pub fn check_mempool_transaction_structure(tx: &Transaction) -> (r: Result<(), TransactionError>)
    ensures
        match r {
            Result::Ok(u) => spec_mempool_structural_error(*tx) is None,
            Result::Err(e) => spec_mempool_structural_error(*tx) == Option::Some(e),
        },
{
    if tx.inputs.len() == 0 {
        return Result::Err(TransactionError::Empty);
    }
    if has_null_input(tx) {
        return Result::Err(TransactionError::MisplacedCoinbase);
    }
    match transaction_weight_capped(tx, MAX_BLOCK_WEIGHT) {
        Option::None => {
            return Result::Err(TransactionError::Size);
        },
        Option::Some(w) => {},
    }
    if transaction_sigops_count(tx) > MAX_BLOCK_SIGOPS {
        return Result::Err(TransactionError::Sigops);
    }
    Result::Ok(())
}

} // verus!
