//! Contextual acceptance: validation of a candidate block, or of a
//! standalone transaction offered for the pool, against chain state
//! reachable through the output resolver and a deployment snapshot.
//!
//! The block acceptor works against an overlay view (the canonical chain
//! up to the fork height, then the pending branch), with the candidate's
//! own earlier transactions layered on top, so same-block spend chains
//! resolve uniformly.  Acceptance is all-or-nothing: the first failing
//! transaction, in block order, determines the reported index and cause.

use vstd::prelude::*;

use crate::chain::{
    lemma_sum_output_values_bound, lemma_transaction_weight_le_block,
    lemma_transaction_weight_parts, lemma_weight_prefix_monotone, output_value_total,
    sigops_prefix, sum_output_values, transaction_weight, weight_prefix, Block, OutPoint,
    Transaction, TransactionInput,
};
use crate::consensus::{
    block_subsidy, spec_block_subsidy, COINBASE_MATURITY, LOCKTIME_THRESHOLD, MAX_BLOCK_SIGOPS,
    MAX_BLOCK_WEIGHT,
};
use crate::deployments::BlockDeployments;
use crate::error::{Error, TransactionError};
use crate::store::{
    find_output_in_txs, find_output_in_view, lemma_first_tx_with_output, resolve_view_output,
    route_blocks, tx_provides, ResolvedOutput,
};
use crate::verify_structure::transaction_sigops_count;

verus! {

// ---------------------------------------------------------------------------
// The output resolver for block context

/// Resolves an outpoint through the layered providers: the candidate's own
/// earlier transactions (whose outputs count as confirmed at the
/// candidate's height, the view's length) first, then the overlay view.
pub open spec fn spec_resolve(view: Seq<Block>, prefix: Seq<Transaction>, op: OutPoint) -> Option<
    (u64, bool, int),
> {
    match find_output_in_txs(prefix, op) {
        Option::Some((v, cb)) => Option::Some((v, cb, view.len() as int)),
        Option::None => find_output_in_view(view, op),
    }
}

/// Whether one input resolves and, if it spends a coinbase output, passes
/// the maturity rule at `height`.
pub open spec fn spec_input_ok(
    view: Seq<Block>,
    prefix: Seq<Transaction>,
    inp: TransactionInput,
    height: int,
) -> bool {
    match spec_resolve(view, prefix, inp.previous_output) {
        Option::Some((v, cb, h)) => !(cb && h + COINBASE_MATURITY > height),
        Option::None => false,
    }
}

/// The first failing input at index `i` or later: an unknown reference or
/// an immature coinbase spend.
pub open spec fn spec_input_error(
    view: Seq<Block>,
    prefix: Seq<Transaction>,
    inputs: Seq<TransactionInput>,
    i: int,
    height: int,
) -> Option<TransactionError>
    decreases inputs.len() - i,
{
    if i < 0 || i >= inputs.len() {
        Option::None
    } else {
        match spec_resolve(view, prefix, inputs[i].previous_output) {
            Option::None => Option::Some(
                TransactionError::UnknownReference(inputs[i].previous_output.tx_hash),
            ),
            Option::Some((v, cb, h)) => {
                if cb && h + COINBASE_MATURITY > height {
                    Option::Some(TransactionError::Maturity)
                } else {
                    spec_input_error(view, prefix, inputs, i + 1, height)
                }
            },
        }
    }
}

/// Passing inputs do not change where the scan ends up.
pub proof fn lemma_input_error_shift(
    view: Seq<Block>,
    prefix: Seq<Transaction>,
    inputs: Seq<TransactionInput>,
    height: int,
    i: int,
    j: int,
)
    requires
        0 <= i <= j <= inputs.len(),
        forall|k: int| i <= k < j ==> spec_input_ok(view, prefix, inputs[k], height),
    ensures
        spec_input_error(view, prefix, inputs, i, height) == spec_input_error(
            view,
            prefix,
            inputs,
            j,
            height,
        ),
    decreases j - i,
{
    if i < j {
        assert(spec_input_ok(view, prefix, inputs[i], height));
        lemma_input_error_shift(view, prefix, inputs, height, i + 1, j);
    }
}

/// Total resolved value of the first `n` inputs (an unresolved input
/// contributes nothing; the total is only read once all inputs resolve).
pub open spec fn spec_input_total(
    view: Seq<Block>,
    prefix: Seq<Transaction>,
    inputs: Seq<TransactionInput>,
    n: int,
) -> int
    decreases n,
{
    if n <= 0 {
        0
    } else {
        spec_input_total(view, prefix, inputs, n - 1) + match spec_resolve(
            view,
            prefix,
            inputs[n - 1].previous_output,
        ) {
            Option::Some((v, cb, h)) => v as int,
            Option::None => 0int,
        }
    }
}

pub proof fn lemma_input_total_bound(
    view: Seq<Block>,
    prefix: Seq<Transaction>,
    inputs: Seq<TransactionInput>,
    n: int,
)
    requires
        n >= 0,
    ensures
        0 <= spec_input_total(view, prefix, inputs, n) <= n * (u64::MAX as int),
    decreases n,
{
    if n > 0 {
        lemma_input_total_bound(view, prefix, inputs, n - 1);
    }
}

// ---------------------------------------------------------------------------
// Per-transaction contextual rules

/// Whether `tx` is final at `height` under time context `time`: a zero
/// lock time always is; below the threshold the lock time is a height,
/// at or above it a timestamp.
pub open spec fn spec_is_final(tx: Transaction, height: int, time: u32) -> bool {
    tx.lock_time == 0 || (if tx.lock_time < LOCKTIME_THRESHOLD {
        tx.lock_time <= height
    } else {
        tx.lock_time <= time
    })
}

fn transaction_final(tx: &Transaction, height: u32, time: u32) -> (r: bool)
    ensures
        r == spec_is_final(*tx, height as int, time),
{
    tx.lock_time == 0 || (if tx.lock_time < LOCKTIME_THRESHOLD {
        tx.lock_time <= height
    } else {
        tx.lock_time <= time
    })
}

/// The contextual fault of transaction `i` of the candidate: the coinbase
/// (index zero) is exempt; others must be final while the lock-time
/// deployment is active, must resolve every input maturely, and must not
/// claim more output value than they resolve.
pub open spec fn spec_tx_error(
    view: Seq<Block>,
    txs: Seq<Transaction>,
    i: int,
    height: int,
    lock_active: bool,
    time_ctx: u32,
) -> Option<TransactionError> {
    if i == 0 {
        Option::None
    } else {
        let tx = txs[i];
        let prefix = txs.take(i);
        if lock_active && !spec_is_final(tx, height, time_ctx) {
            Option::Some(TransactionError::NotFinal)
        } else {
            match spec_input_error(view, prefix, tx.inputs@, 0, height) {
                Option::Some(e) => Option::Some(e),
                Option::None => {
                    if sum_output_values(tx.outputs@) > spec_input_total(
                        view,
                        prefix,
                        tx.inputs@,
                        tx.inputs@.len() as int,
                    ) {
                        Option::Some(TransactionError::Overspend)
                    } else {
                        Option::None
                    }
                },
            }
        }
    }
}

/// The first acceptance fault at transaction index `i` or later: the
/// transaction's own fault, tagged with its index, or the block-level
/// sigop cap crossed by the running count through that transaction.
pub open spec fn spec_scan(
    view: Seq<Block>,
    txs: Seq<Transaction>,
    i: int,
    height: int,
    lock_active: bool,
    time_ctx: u32,
) -> Option<Error>
    decreases txs.len() - i,
{
    if i < 0 || i >= txs.len() {
        Option::None
    } else {
        match spec_tx_error(view, txs, i, height, lock_active, time_ctx) {
            Option::Some(te) => Option::Some(Error::Transaction(i as usize, te)),
            Option::None => {
                if sigops_prefix(txs, i + 1) > MAX_BLOCK_SIGOPS {
                    Option::Some(Error::MaximumSigops)
                } else {
                    spec_scan(view, txs, i + 1, height, lock_active, time_ctx)
                }
            },
        }
    }
}

/// Passing transactions do not change where the scan ends up.
pub proof fn lemma_scan_shift(
    view: Seq<Block>,
    txs: Seq<Transaction>,
    height: int,
    lock_active: bool,
    time_ctx: u32,
    i: int,
    j: int,
)
    requires
        0 <= i <= j <= txs.len(),
        forall|k: int|
            i <= k < j ==> spec_tx_error(view, txs, k, height, lock_active, time_ctx) is None,
        forall|k: int| i <= k < j ==> #[trigger] sigops_prefix(txs, k + 1) <= MAX_BLOCK_SIGOPS,
    ensures
        spec_scan(view, txs, i, height, lock_active, time_ctx) == spec_scan(
            view,
            txs,
            j,
            height,
            lock_active,
            time_ctx,
        ),
    decreases j - i,
{
    if i < j {
        assert(spec_tx_error(view, txs, i, height, lock_active, time_ctx) is None);
        lemma_scan_shift(view, txs, height, lock_active, time_ctx, i + 1, j);
    }
}

// ---------------------------------------------------------------------------
// Block-level value rules

/// Total fees of the first `n` transactions (the coinbase pays no fee):
/// resolved input value minus output value, summed.
pub open spec fn spec_fees(view: Seq<Block>, txs: Seq<Transaction>, n: int) -> int
    decreases n,
{
    if n <= 1 {
        0
    } else {
        spec_fees(view, txs, n - 1) + spec_input_total(
            view,
            txs.take(n - 1),
            txs[n - 1].inputs@,
            txs[n - 1].inputs@.len() as int,
        ) - sum_output_values(txs[n - 1].outputs@)
    }
}

/// The coinbase claim rule: the first transaction's total output value may
/// not exceed the height-appropriate subsidy plus the block's fees.
pub open spec fn spec_coinbase_claim_error(
    view: Seq<Block>,
    txs: Seq<Transaction>,
    height: int,
) -> Option<Error> {
    let max_claim = spec_block_subsidy(height as u32) + spec_fees(view, txs, txs.len() as int);
    let actual = sum_output_values(txs[0].outputs@);
    if actual > max_claim {
        Option::Some(
            Error::CoinbaseOverspend { expected_max: max_claim as u128, actual: actual as u128 },
        )
    } else {
        Option::None
    }
}

/// The whole contextual acceptance of a candidate block against a view:
/// the transaction scan, then the coinbase claim.
pub open spec fn spec_accept_block(
    view: Seq<Block>,
    txs: Seq<Transaction>,
    height: int,
    lock_active: bool,
    time_ctx: u32,
) -> Option<Error> {
    match spec_scan(view, txs, 0, height, lock_active, time_ctx) {
        Option::Some(e) => Option::Some(e),
        Option::None => spec_coinbase_claim_error(view, txs, height),
    }
}

// ---------------------------------------------------------------------------
// Executable resolution

/// Looks `op` up among the first `n` transactions of `txs`.
fn find_output_in_prefix(txs: &Vec<Transaction>, n: usize, op: OutPoint) -> (r: Option<(u64, bool)>)
    requires
        n <= txs@.len(),
    ensures
        r == find_output_in_txs(txs@.take(n as int), op),
{
    let ghost prefix = txs@.take(n as int);
    let mut k: usize = 0;
    while k < n
        invariant
            k <= n,
            n <= txs@.len(),
            prefix == txs@.take(n as int),
            forall|m: int| 0 <= m < k ==> !tx_provides(prefix[m], op),
        decreases n - k,
    {
        proof {
            assert(prefix[k as int] == txs@[k as int]);
        }
        if txs[k].hash == op.tx_hash && (op.index as usize) < txs[k].outputs.len() {
            proof {
                lemma_first_tx_with_output(prefix, op);
                assert(tx_provides(prefix[k as int], op));
            }
            let cb = txs[k].is_coinbase();
            return Option::Some((txs[k].outputs[op.index as usize].value, cb));
        }
        k = k + 1;
    }
    proof {
        lemma_first_tx_with_output(prefix, op);
    }
    Option::None
}

/// Resolves an outpoint for transaction `prefix_len` of the candidate:
/// first through the candidate's earlier transactions, then through the
/// overlay view.
fn resolve_tx_output(
    canon: &Vec<Block>,
    fork_height: usize,
    side: &Vec<Block>,
    route: &Vec<usize>,
    txs: &Vec<Transaction>,
    prefix_len: usize,
    op: OutPoint,
) -> (r: Option<ResolvedOutput>)
    requires
        fork_height < canon@.len(),
        canon@.len() + route@.len() < 0x100000000,
        forall|k: int| 0 <= k < route@.len() ==> (route@[k] as int) < side@.len(),
        prefix_len <= txs@.len(),
    ensures
        ({
            let view = canon@.take(fork_height + 1) + route_blocks(side@, route@);
            let prefix = txs@.take(prefix_len as int);
            match r {
                Option::None => spec_resolve(view, prefix, op) is None,
                Option::Some(ro) => spec_resolve(view, prefix, op) == Option::Some(
                    (ro.value, ro.is_coinbase, ro.height as int),
                ),
            }
        }),
{
    match find_output_in_prefix(txs, prefix_len, op) {
        Option::Some((value, is_coinbase)) => {
            let height: u32 = (fork_height + 1 + route.len()) as u32;
            Option::Some(ResolvedOutput { value, is_coinbase, height })
        },
        Option::None => resolve_view_output(canon, fork_height, side, route, op),
    }
}

// ---------------------------------------------------------------------------
// Executable block acceptance

/// Contextual acceptance of a candidate block at `height` against the
/// overlay view `canon[..=fork_height] ++ route`, under the given
/// deployment snapshot.  The time context of lock-time checks is the
/// candidate header's own timestamp.
pub fn accept_block(
    canon: &Vec<Block>,
    fork_height: usize,
    side: &Vec<Block>,
    route: &Vec<usize>,
    block: &Block,
    height: u32,
    deployments: BlockDeployments,
) -> (r: Result<(), Error>)
    requires
        fork_height < canon@.len(),
        canon@.len() + route@.len() < 0x100000000,
        forall|k: int| 0 <= k < route@.len() ==> (route@[k] as int) < side@.len(),
        height as int == fork_height + 1 + route@.len(),
        block.transactions@.len() >= 1,
        weight_prefix(block.transactions@, block.transactions@.len() as int)
            <= MAX_BLOCK_WEIGHT,
    ensures
        ({
            let view = canon@.take(fork_height + 1) + route_blocks(side@, route@);
            match r {
                Result::Ok(u) => spec_accept_block(
                    view,
                    block.transactions@,
                    height as int,
                    deployments.lock_time_active,
                    block.header.time,
                ) is None,
                Result::Err(e) => spec_accept_block(
                    view,
                    block.transactions@,
                    height as int,
                    deployments.lock_time_active,
                    block.header.time,
                ) == Option::Some(e),
            }
        }),
{
    let ghost view = canon@.take(fork_height + 1) + route_blocks(side@, route@);
    let ghost txs = block.transactions@;
    let ghost lock_active = deployments.lock_time_active;
    let ghost time_ctx = block.header.time;
    let ghost h = height as int;
    let n: usize = block.transactions.len();
    let mut sig_acc: u64 = 0;
    let mut fees: u128 = 0;
    let mut i: usize = 0;
    while i < n
        invariant
            i <= n,
            n == txs.len(),
            n >= 1,
            txs == block.transactions@,
            view == canon@.take(fork_height + 1) + route_blocks(side@, route@),
            fork_height < canon@.len(),
            canon@.len() + route@.len() < 0x100000000,
            forall|k: int| 0 <= k < route@.len() ==> (route@[k] as int) < side@.len(),
            h == height as int,
            h == fork_height + 1 + route@.len(),
            lock_active == deployments.lock_time_active,
            time_ctx == block.header.time,
            weight_prefix(txs, n as int) <= MAX_BLOCK_WEIGHT,
            forall|k: int| 0 <= k < i ==> spec_tx_error(view, txs, k, h, lock_active, time_ctx)
                is None,
            forall|k: int| 0 <= k < i ==> #[trigger] sigops_prefix(txs, k + 1) <= MAX_BLOCK_SIGOPS,
            sig_acc == sigops_prefix(txs, i as int),
            sig_acc <= MAX_BLOCK_SIGOPS,
            fees == spec_fees(view, txs, i as int),
            0 <= fees <= weight_prefix(txs, i as int) * (u64::MAX as int),
        decreases n - i,
    {
        let ghost txv = txs[i as int];
        let ghost prefix = txs.take(i as int);
        proof {
            lemma_transaction_weight_le_block(txs, i as int);
            lemma_transaction_weight_parts(txv);
            lemma_weight_prefix_monotone(txs, i as int, n as int);
            lemma_weight_prefix_monotone(txs, 0, i as int);
        }
        let mut in_total: u128 = 0;
        if i > 0 {
            if deployments.lock_time_active && !transaction_final(
                &block.transactions[i],
                height,
                block.header.time,
            ) {
                proof {
                    lemma_scan_shift(view, txs, h, lock_active, time_ctx, 0, i as int);
                }
                return Result::Err(Error::Transaction(i, TransactionError::NotFinal));
            }
            let nin: usize = block.transactions[i].inputs.len();
            let mut j: usize = 0;
            while j < nin
                invariant
                    j <= nin,
                    0 < i < n,
                    n == txs.len(),
                    txs == block.transactions@,
                    txv == txs[i as int],
                    prefix == txs.take(i as int),
                    nin == txv.inputs@.len(),
                    view == canon@.take(fork_height + 1) + route_blocks(side@, route@),
                    fork_height < canon@.len(),
                    canon@.len() + route@.len() < 0x100000000,
                    forall|k: int| 0 <= k < route@.len() ==> (route@[k] as int) < side@.len(),
                    h == height as int,
                    h == fork_height + 1 + route@.len(),
                    lock_active == deployments.lock_time_active,
                    time_ctx == block.header.time,
                    !(lock_active && !spec_is_final(txv, h, time_ctx)),
                    forall|k: int|
                        0 <= k < i ==> spec_tx_error(view, txs, k, h, lock_active, time_ctx)
                            is None,
                    forall|k: int|
                        0 <= k < i ==> #[trigger] sigops_prefix(txs, k + 1) <= MAX_BLOCK_SIGOPS,
                    forall|k: int| 0 <= k < j ==> spec_input_ok(view, prefix, txv.inputs@[k], h),
                    in_total == spec_input_total(view, prefix, txv.inputs@, j as int),
                    0 <= in_total <= (j as int) * (u64::MAX as int),
                    nin <= MAX_BLOCK_WEIGHT,
                decreases nin - j,
            {
                let op = block.transactions[i].inputs[j].previous_output;
                proof {
                    lemma_input_total_bound(view, prefix, txv.inputs@, j as int);
                    assert((j + 1) * (u64::MAX as int) <= 0x10000000000000000 * (u64::MAX as int))
                        by (nonlinear_arith)
                        requires j + 1 <= 0x10000000000000000;
                }
                match resolve_tx_output(
                    canon,
                    fork_height,
                    side,
                    route,
                    &block.transactions,
                    i,
                    op,
                ) {
                    Option::None => {
                        proof {
                            lemma_input_error_shift(view, prefix, txv.inputs@, h, 0, j as int);
                            lemma_scan_shift(view, txs, h, lock_active, time_ctx, 0, i as int);
                        }
                        return Result::Err(
                            Error::Transaction(i, TransactionError::UnknownReference(op.tx_hash)),
                        );
                    },
                    Option::Some(ro) => {
                        if ro.is_coinbase && (ro.height as u64) + (COINBASE_MATURITY as u64) > (
                        height as u64) {
                            proof {
                                lemma_input_error_shift(view, prefix, txv.inputs@, h, 0, j as int);
                                lemma_scan_shift(view, txs, h, lock_active, time_ctx, 0, i as int);
                            }
                            return Result::Err(Error::Transaction(i, TransactionError::Maturity));
                        }
                        in_total = in_total + ro.value as u128;
                        j = j + 1;
                    },
                }
            }
            let out_total = output_value_total(&block.transactions[i].outputs);
            proof {
                lemma_input_error_shift(view, prefix, txv.inputs@, h, 0, nin as int);
            }
            if out_total > in_total {
                proof {
                    lemma_scan_shift(view, txs, h, lock_active, time_ctx, 0, i as int);
                }
                return Result::Err(Error::Transaction(i, TransactionError::Overspend));
            }
            proof {
                lemma_input_total_bound(view, prefix, txv.inputs@, nin as int);
                lemma_sum_output_values_bound(txv.outputs@);
                assert(fees + (in_total - out_total) <= (weight_prefix(txs, i as int)
                    + transaction_weight(txv)) * (u64::MAX as int));
                assert(weight_prefix(txs, i + 1) == weight_prefix(txs, i as int)
                    + transaction_weight(txv));
                lemma_weight_prefix_monotone(txs, i + 1, n as int);
                assert((weight_prefix(txs, i + 1)) * (u64::MAX as int) <= (
                MAX_BLOCK_WEIGHT as int) * (u64::MAX as int)) by (nonlinear_arith)
                    requires
                        weight_prefix(txs, i + 1) <= MAX_BLOCK_WEIGHT as int,
                        weight_prefix(txs, i + 1) >= 0,
                ;
            }
            fees = fees + (in_total - out_total);
        }
        let t_sig = transaction_sigops_count(&block.transactions[i]);
        let new_sig: u64 = sig_acc + t_sig;
        proof {
            assert(sigops_prefix(txs, i + 1) == sigops_prefix(txs, i as int)
                + crate::chain::transaction_sigops(txv));
            assert(spec_tx_error(view, txs, i as int, h, lock_active, time_ctx) is None);
        }
        if new_sig > MAX_BLOCK_SIGOPS {
            proof {
                lemma_scan_shift(view, txs, h, lock_active, time_ctx, 0, i as int);
            }
            return Result::Err(Error::MaximumSigops);
        }
        sig_acc = new_sig;
        proof {
            if i > 0 {
                assert(fees == spec_fees(view, txs, i + 1));
            } else {
                assert(spec_fees(view, txs, 1) == 0);
            }
        }
        i = i + 1;
    }
    proof {
        lemma_scan_shift(view, txs, h, lock_active, time_ctx, 0, n as int);
    }
    let subsidy = block_subsidy(height);
    let claim: u128 = subsidy as u128 + fees;
    let actual = output_value_total(&block.transactions[0].outputs);
    if actual > claim {
        return Result::Err(Error::CoinbaseOverspend { expected_max: claim, actual });
    }
    Result::Ok(())
}

// ---------------------------------------------------------------------------
// Laws of block acceptance

/// Spending a coinbase output before its maturity depth fails with
/// `Maturity` at that transaction's index: if the scan reaches transaction
/// `i` with every earlier transaction and running sigop count passing, the
/// transaction is final where that is demanded, its inputs before `j`
/// pass, and input `j` resolves to a coinbase output confirmed at a height
/// within the maturity depth of `height`, then acceptance rejects the
/// block with exactly that error.
pub proof fn lemma_maturity_rejection(
    view: Seq<Block>,
    txs: Seq<Transaction>,
    i: int,
    j: int,
    height: int,
    lock_active: bool,
    time_ctx: u32,
)
    requires
        0 < i < txs.len(),
        forall|k: int|
            0 <= k < i ==> spec_tx_error(view, txs, k, height, lock_active, time_ctx) is None,
        forall|k: int| 0 <= k < i ==> #[trigger] sigops_prefix(txs, k + 1) <= MAX_BLOCK_SIGOPS,
        lock_active ==> spec_is_final(txs[i], height, time_ctx),
        0 <= j < txs[i].inputs@.len(),
        forall|k: int| 0 <= k < j ==> spec_input_ok(view, txs.take(i), txs[i].inputs@[k], height),
        ({
            match spec_resolve(view, txs.take(i), txs[i].inputs@[j].previous_output) {
                Option::Some((v, cb, ch)) => cb && ch + COINBASE_MATURITY > height,
                Option::None => false,
            }
        }),
    ensures
        spec_accept_block(view, txs, height, lock_active, time_ctx) == Option::Some(
            Error::Transaction(i as usize, TransactionError::Maturity),
        ),
{
    lemma_input_error_shift(view, txs.take(i), txs[i].inputs@, height, 0, j);
    lemma_scan_shift(view, txs, height, lock_active, time_ctx, 0, i);
}

/// A transaction whose total output value exceeds its total resolved input
/// value fails with `Overspend` at its index, provided the scan reaches it
/// and all its inputs resolve maturely.  Same-block spends resolve through
/// the candidate's own earlier transactions, so this covers chains within
/// one block.
pub proof fn lemma_overspend_rejection(
    view: Seq<Block>,
    txs: Seq<Transaction>,
    i: int,
    height: int,
    lock_active: bool,
    time_ctx: u32,
)
    requires
        0 < i < txs.len(),
        forall|k: int|
            0 <= k < i ==> spec_tx_error(view, txs, k, height, lock_active, time_ctx) is None,
        forall|k: int| 0 <= k < i ==> #[trigger] sigops_prefix(txs, k + 1) <= MAX_BLOCK_SIGOPS,
        lock_active ==> spec_is_final(txs[i], height, time_ctx),
        spec_input_error(view, txs.take(i), txs[i].inputs@, 0, height) is None,
        sum_output_values(txs[i].outputs@) > spec_input_total(
            view,
            txs.take(i),
            txs[i].inputs@,
            txs[i].inputs@.len() as int,
        ),
    ensures
        spec_accept_block(view, txs, height, lock_active, time_ctx) == Option::Some(
            Error::Transaction(i as usize, TransactionError::Overspend),
        ),
{
    lemma_scan_shift(view, txs, height, lock_active, time_ctx, 0, i);
}

/// Crossing the block sigop cap fails with the block-level error,
/// independent of which transaction pushed the running count over: if the
/// scan reaches transaction `i`, transaction `i` itself has no fault of
/// its own, and the count through `i` exceeds the cap, acceptance rejects
/// the block with `MaximumSigops`.
pub proof fn lemma_sigops_rejection(
    view: Seq<Block>,
    txs: Seq<Transaction>,
    i: int,
    height: int,
    lock_active: bool,
    time_ctx: u32,
)
    requires
        0 <= i < txs.len(),
        forall|k: int|
            0 <= k <= i ==> spec_tx_error(view, txs, k, height, lock_active, time_ctx) is None,
        forall|k: int| 0 <= k < i ==> #[trigger] sigops_prefix(txs, k + 1) <= MAX_BLOCK_SIGOPS,
        sigops_prefix(txs, i + 1) > MAX_BLOCK_SIGOPS,
    ensures
        spec_accept_block(view, txs, height, lock_active, time_ctx) == Option::Some(
            Error::MaximumSigops,
        ),
{
    lemma_scan_shift(view, txs, height, lock_active, time_ctx, 0, i);
}

/// A coinbase claiming more than the height-appropriate subsidy plus the
/// block's fees fails with `CoinbaseOverspend`, carrying both the allowed
/// maximum and the claimed value, once every transaction and the sigop cap
/// pass.
pub proof fn lemma_coinbase_overspend_rejection(
    view: Seq<Block>,
    txs: Seq<Transaction>,
    height: int,
    lock_active: bool,
    time_ctx: u32,
)
    requires
        txs.len() >= 1,
        forall|k: int|
            0 <= k < txs.len() ==> spec_tx_error(view, txs, k, height, lock_active, time_ctx)
                is None,
        forall|k: int|
            0 <= k < txs.len() ==> #[trigger] sigops_prefix(txs, k + 1) <= MAX_BLOCK_SIGOPS,
        sum_output_values(txs[0].outputs@) > spec_block_subsidy(height as u32) + spec_fees(
            view,
            txs,
            txs.len() as int,
        ),
    ensures
        spec_accept_block(view, txs, height, lock_active, time_ctx) == Option::Some(
            Error::CoinbaseOverspend {
                expected_max: (spec_block_subsidy(height as u32) + spec_fees(
                    view,
                    txs,
                    txs.len() as int,
                )) as u128,
                actual: sum_output_values(txs[0].outputs@) as u128,
            },
        ),
{
    lemma_scan_shift(view, txs, height, lock_active, time_ctx, 0, txs.len() as int);
}

// ---------------------------------------------------------------------------
// The pool-transaction acceptor

/// One output a caller-supplied provider can answer with: the outpoint it
/// sits at, its value, whether its producer is a coinbase, and the height
/// it counts as confirmed at.
#[derive(Clone, Copy, Debug)]
pub struct OutputEntry {
    pub out_point: OutPoint,
    pub value: u64,
    pub is_coinbase: bool,
    pub height: u32,
}

/// A plain-value output provider, as handed in by the pool: entries are
/// tried in order, first hit wins.
#[derive(Clone, Debug)]
pub struct OutputStore {
    pub entries: Vec<OutputEntry>,
}

/// Index of the first entry answering for `op`.
pub open spec fn first_entry_with(entries: Seq<OutputEntry>, op: OutPoint) -> Option<int>
    decreases entries.len(),
{
    if entries.len() == 0 {
        Option::None
    } else if entries[0].out_point == op {
        Option::Some(0int)
    } else {
        match first_entry_with(entries.skip(1), op) {
            Option::Some(i) => Option::Some(i + 1),
            Option::None => Option::None,
        }
    }
}

pub proof fn lemma_first_entry_with(entries: Seq<OutputEntry>, op: OutPoint)
    ensures
        match first_entry_with(entries, op) {
            Option::None => forall|k: int| 0 <= k < entries.len() ==> entries[k].out_point != op,
            Option::Some(i) => 0 <= i < entries.len() && entries[i].out_point == op && forall|
                k: int,
            | 0 <= k < i ==> entries[k].out_point != op,
        },
    decreases entries.len(),
{
    if entries.len() > 0 && entries[0].out_point != op {
        lemma_first_entry_with(entries.skip(1), op);
        match first_entry_with(entries.skip(1), op) {
            Option::None => {
                assert forall|k: int| 0 <= k < entries.len() implies entries[k].out_point != op by {
                    if k > 0 {
                        assert(entries[k] == entries.skip(1)[k - 1]);
                    }
                }
            },
            Option::Some(i) => {
                assert(entries[i + 1] == entries.skip(1)[i]);
                assert forall|k: int| 0 <= k < i + 1 implies entries[k].out_point != op by {
                    if k > 0 {
                        assert(entries[k] == entries.skip(1)[k - 1]);
                    }
                }
            },
        }
    }
}

/// What the provider resolves `op` to.
pub open spec fn spec_pool_resolve(entries: Seq<OutputEntry>, op: OutPoint) -> Option<
    (u64, bool, int),
> {
    match first_entry_with(entries, op) {
        Option::Some(i) => Option::Some(
            (entries[i].value, entries[i].is_coinbase, entries[i].height as int),
        ),
        Option::None => Option::None,
    }
}

fn resolve_pool_output(provider: &OutputStore, op: OutPoint) -> (r: Option<ResolvedOutput>)
    ensures
        match r {
            Option::None => spec_pool_resolve(provider.entries@, op) is None,
            Option::Some(ro) => spec_pool_resolve(provider.entries@, op) == Option::Some(
                (ro.value, ro.is_coinbase, ro.height as int),
            ),
        },
{
    let mut k: usize = 0;
    while k < provider.entries.len()
        invariant
            k <= provider.entries@.len(),
            forall|m: int| 0 <= m < k ==> provider.entries@[m].out_point != op,
        decreases provider.entries@.len() - k,
    {
        let e = provider.entries[k];
        if e.out_point.tx_hash == op.tx_hash && e.out_point.index == op.index {
            proof {
                lemma_first_entry_with(provider.entries@, op);
                assert(provider.entries@[k as int].out_point == op);
            }
            return Option::Some(
                ResolvedOutput { value: e.value, is_coinbase: e.is_coinbase, height: e.height },
            );
        }
        k = k + 1;
    }
    proof {
        lemma_first_entry_with(provider.entries@, op);
    }
    Option::None
}

/// Whether one input resolves through the provider and passes maturity.
pub open spec fn spec_pool_input_ok(
    entries: Seq<OutputEntry>,
    inp: TransactionInput,
    height: int,
) -> bool {
    match spec_pool_resolve(entries, inp.previous_output) {
        Option::Some((v, cb, h)) => !(cb && h + COINBASE_MATURITY > height),
        Option::None => false,
    }
}

/// The first failing input at index `i` or later, against the provider.
pub open spec fn spec_pool_input_error(
    entries: Seq<OutputEntry>,
    inputs: Seq<TransactionInput>,
    i: int,
    height: int,
) -> Option<TransactionError>
    decreases inputs.len() - i,
{
    if i < 0 || i >= inputs.len() {
        Option::None
    } else {
        match spec_pool_resolve(entries, inputs[i].previous_output) {
            Option::None => Option::Some(
                TransactionError::UnknownReference(inputs[i].previous_output.tx_hash),
            ),
            Option::Some((v, cb, h)) => {
                if cb && h + COINBASE_MATURITY > height {
                    Option::Some(TransactionError::Maturity)
                } else {
                    spec_pool_input_error(entries, inputs, i + 1, height)
                }
            },
        }
    }
}

pub proof fn lemma_pool_input_error_shift(
    entries: Seq<OutputEntry>,
    inputs: Seq<TransactionInput>,
    height: int,
    i: int,
    j: int,
)
    requires
        0 <= i <= j <= inputs.len(),
        forall|k: int| i <= k < j ==> spec_pool_input_ok(entries, inputs[k], height),
    ensures
        spec_pool_input_error(entries, inputs, i, height) == spec_pool_input_error(
            entries,
            inputs,
            j,
            height,
        ),
    decreases j - i,
{
    if i < j {
        assert(spec_pool_input_ok(entries, inputs[i], height));
        lemma_pool_input_error_shift(entries, inputs, height, i + 1, j);
    }
}

/// Total resolved value of the first `n` inputs, against the provider.
pub open spec fn spec_pool_input_total(
    entries: Seq<OutputEntry>,
    inputs: Seq<TransactionInput>,
    n: int,
) -> int
    decreases n,
{
    if n <= 0 {
        0
    } else {
        spec_pool_input_total(entries, inputs, n - 1) + match spec_pool_resolve(
            entries,
            inputs[n - 1].previous_output,
        ) {
            Option::Some((v, cb, h)) => v as int,
            Option::None => 0int,
        }
    }
}

pub proof fn lemma_pool_input_total_bound(
    entries: Seq<OutputEntry>,
    inputs: Seq<TransactionInput>,
    n: int,
)
    requires
        n >= 0,
    ensures
        0 <= spec_pool_input_total(entries, inputs, n) <= n * (u64::MAX as int),
    decreases n,
{
    if n > 0 {
        lemma_pool_input_total_bound(entries, inputs, n - 1);
    }
}

/// Contextual acceptance of a standalone transaction at a hypothetical
/// `height` and `time`: finality while the lock-time deployment is active,
/// input resolution with maturity, and the overspend rule.
pub open spec fn spec_accept_pool_transaction(
    entries: Seq<OutputEntry>,
    tx: Transaction,
    height: u32,
    time: u32,
    lock_active: bool,
) -> Option<TransactionError> {
    if lock_active && !spec_is_final(tx, height as int, time) {
        Option::Some(TransactionError::NotFinal)
    } else {
        match spec_pool_input_error(entries, tx.inputs@, 0, height as int) {
            Option::Some(e) => Option::Some(e),
            Option::None => {
                if sum_output_values(tx.outputs@) > spec_pool_input_total(
                    entries,
                    tx.inputs@,
                    tx.inputs@.len() as int,
                ) {
                    Option::Some(TransactionError::Overspend)
                } else {
                    Option::None
                }
            },
        }
    }
}

/// Contextual acceptance of a standalone transaction against the
/// caller-supplied provider.
pub fn accept_mempool_transaction(
    provider: &OutputStore,
    tx: &Transaction,
    height: u32,
    time: u32,
    deployments: BlockDeployments,
) -> (r: Result<(), TransactionError>)
    requires
        transaction_weight(*tx) <= MAX_BLOCK_WEIGHT,
    ensures
        match r {
            Result::Ok(u) => spec_accept_pool_transaction(
                provider.entries@,
                *tx,
                height,
                time,
                deployments.lock_time_active,
            ) is None,
            Result::Err(e) => spec_accept_pool_transaction(
                provider.entries@,
                *tx,
                height,
                time,
                deployments.lock_time_active,
            ) == Option::Some(e),
        },
{
    let ghost entries = provider.entries@;
    let ghost h = height as int;
    if deployments.lock_time_active && !transaction_final(tx, height, time) {
        return Result::Err(TransactionError::NotFinal);
    }
    proof {
        lemma_transaction_weight_parts(*tx);
    }
    let nin: usize = tx.inputs.len();
    let mut in_total: u128 = 0;
    let mut j: usize = 0;
    while j < nin
        invariant
            j <= nin,
            nin == tx.inputs@.len(),
            entries == provider.entries@,
            h == height as int,
            !(deployments.lock_time_active && !spec_is_final(*tx, h, time)),
            forall|k: int| 0 <= k < j ==> spec_pool_input_ok(entries, tx.inputs@[k], h),
            in_total == spec_pool_input_total(entries, tx.inputs@, j as int),
            0 <= in_total <= (j as int) * (u64::MAX as int),
        decreases nin - j,
    {
        let op = tx.inputs[j].previous_output;
        proof {
            lemma_pool_input_total_bound(entries, tx.inputs@, j as int);
            assert((j + 1) * (u64::MAX as int) <= 0x10000000000000000 * (u64::MAX as int))
                by (nonlinear_arith)
                requires j + 1 <= 0x10000000000000000;
        }
        match resolve_pool_output(provider, op) {
            Option::None => {
                proof {
                    lemma_pool_input_error_shift(entries, tx.inputs@, h, 0, j as int);
                }
                return Result::Err(TransactionError::UnknownReference(op.tx_hash));
            },
            Option::Some(ro) => {
                if ro.is_coinbase && (ro.height as u64) + (COINBASE_MATURITY as u64) > (height
                    as u64) {
                    proof {
                        lemma_pool_input_error_shift(entries, tx.inputs@, h, 0, j as int);
                    }
                    return Result::Err(TransactionError::Maturity);
                }
                in_total = in_total + ro.value as u128;
                j = j + 1;
            },
        }
    }
    proof {
        lemma_pool_input_error_shift(entries, tx.inputs@, h, 0, nin as int);
    }
    let out_total = output_value_total(&tx.outputs);
    if out_total > in_total {
        return Result::Err(TransactionError::Overspend);
    }
    Result::Ok(())
}

} // verus!
