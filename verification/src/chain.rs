//! The chain data model: outpoints, transactions, headers and blocks, with
//! the spec-level measures (value sums, sigop counts, weight, merkle root)
//! that the consensus rules are stated over.
//!
//! Identities are content-addressed hashes computed once and carried with
//! the object; the model holds them as plain 64-bit values that the rules
//! treat opaquely.

use vstd::prelude::*;

use crate::consensus::OP_CHECKSIG;

verus! {

/// Reference to a prior transaction output: the producing transaction's id
/// plus the output's index.
#[derive(Clone, Copy, Debug, PartialEq, Eq, Structural)]
pub struct OutPoint {
    pub tx_hash: u64,
    pub index: u32,
}

impl OutPoint {
    /// The null reference, carried only by a coinbase input.
    pub open spec fn spec_is_null(self) -> bool {
        self.tx_hash == 0 && self.index == u32::MAX
    }

    pub fn is_null(&self) -> (r: bool)
        ensures
            r == self.spec_is_null(),
    {
        self.tx_hash == 0 && self.index == u32::MAX
    }

    pub fn null() -> (r: OutPoint)
        ensures
            r.spec_is_null(),
    {
        OutPoint { tx_hash: 0, index: u32::MAX }
    }
}

/// One transaction input: the output it spends plus its unlock script.
#[derive(Clone, Debug)]
pub struct TransactionInput {
    pub previous_output: OutPoint,
    pub script_sig: Vec<u8>,
}

/// One transaction output: a value plus its lock script.
#[derive(Clone, Debug)]
pub struct TransactionOutput {
    pub value: u64,
    pub script_pubkey: Vec<u8>,
}

/// A transaction, with its cached identity hash.
#[derive(Clone, Debug)]
pub struct Transaction {
    pub hash: u64,
    pub lock_time: u32,
    pub inputs: Vec<TransactionInput>,
    pub outputs: Vec<TransactionOutput>,
}

impl Transaction {
    /// A coinbase has exactly one input, and that input is null.
    pub open spec fn spec_is_coinbase(self) -> bool {
        self.inputs@.len() == 1 && self.inputs@[0].previous_output.spec_is_null()
    }

    pub fn is_coinbase(&self) -> (r: bool)
        ensures
            r == self.spec_is_coinbase(),
    {
        self.inputs.len() == 1 && self.inputs[0].previous_output.is_null()
    }
}

/// A block header.  `parent_hash` links to the previous block; the merkle
/// root commits to the transaction list.
#[derive(Clone, Copy, Debug)]
pub struct BlockHeader {
    pub version: u32,
    pub parent_hash: u64,
    pub merkle_root: u64,
    pub time: u32,
}

/// A block: header plus ordered transactions, with its cached identity hash.
#[derive(Clone, Debug)]
pub struct Block {
    pub hash: u64,
    pub header: BlockHeader,
    pub transactions: Vec<Transaction>,
}

// ---------------------------------------------------------------------------
// Value sums

/// Total value of a sequence of outputs.
pub open spec fn sum_output_values(s: Seq<TransactionOutput>) -> int
    decreases s.len(),
{
    if s.len() == 0 {
        0
    } else {
        sum_output_values(s.drop_last()) + s.last().value
    }
}

pub proof fn lemma_sum_output_values_bound(s: Seq<TransactionOutput>)
    ensures
        0 <= sum_output_values(s) <= s.len() * (u64::MAX as int),
    decreases s.len(),
{
    if s.len() > 0 {
        lemma_sum_output_values_bound(s.drop_last());
    }
}

/// Computes the total output value.  The result fits a `u128` because the
/// number of outputs is below `2^64` and each value below `2^64`.
pub fn output_value_total(outputs: &Vec<TransactionOutput>) -> (r: u128)
    ensures
        r == sum_output_values(outputs@),
{
    let mut acc: u128 = 0;
    let mut i: usize = 0;
    while i < outputs.len()
        invariant
            i <= outputs@.len(),
            acc == sum_output_values(outputs@.take(i as int)),
            acc <= (i as int) * (u64::MAX as int),
        decreases outputs@.len() - i,
    {
        proof {
            assert(outputs@.take(i + 1).drop_last() =~= outputs@.take(i as int));
            assert((i + 1) * (u64::MAX as int) <= 0x10000000000000000 * (u64::MAX as int))
                by (nonlinear_arith)
                requires i + 1 <= 0x10000000000000000;
        }
        acc = acc + outputs[i].value as u128;
        i = i + 1;
    }
    proof {
        assert(outputs@.take(outputs@.len() as int) =~= outputs@);
    }
    acc
}

// ---------------------------------------------------------------------------
// Sigop counting

/// Number of sigops in one script: the count of bytes equal to the
/// checksig opcode.
pub open spec fn script_sigops(s: Seq<u8>) -> int
    decreases s.len(),
{
    if s.len() == 0 {
        0
    } else {
        script_sigops(s.drop_last()) + if s.last() == OP_CHECKSIG {
            1int
        } else {
            0int
        }
    }
}

pub proof fn lemma_script_sigops_bound(s: Seq<u8>)
    ensures
        0 <= script_sigops(s) <= s.len(),
    decreases s.len(),
{
    if s.len() > 0 {
        lemma_script_sigops_bound(s.drop_last());
    }
}

/// Sigops of the unlock scripts of a sequence of inputs.
pub open spec fn input_sigops(s: Seq<TransactionInput>) -> int
    decreases s.len(),
{
    if s.len() == 0 {
        0
    } else {
        input_sigops(s.drop_last()) + script_sigops(s.last().script_sig@)
    }
}

/// Sigops of the lock scripts of a sequence of outputs.
pub open spec fn output_sigops(s: Seq<TransactionOutput>) -> int
    decreases s.len(),
{
    if s.len() == 0 {
        0
    } else {
        output_sigops(s.drop_last()) + script_sigops(s.last().script_pubkey@)
    }
}

/// Total sigops of one transaction, over all its scripts.
pub open spec fn transaction_sigops(tx: Transaction) -> int {
    input_sigops(tx.inputs@) + output_sigops(tx.outputs@)
}

/// Total sigops of the first `n` transactions of a block.
pub open spec fn sigops_prefix(txs: Seq<Transaction>, n: int) -> int
    decreases n,
{
    if n <= 0 {
        0
    } else {
        sigops_prefix(txs, n - 1) + transaction_sigops(txs[n - 1])
    }
}

// ---------------------------------------------------------------------------
// Weight (counted size)

/// Total length of the unlock scripts of a sequence of inputs.
pub open spec fn input_script_lens(s: Seq<TransactionInput>) -> int
    decreases s.len(),
{
    if s.len() == 0 {
        0
    } else {
        input_script_lens(s.drop_last()) + s.last().script_sig@.len()
    }
}

/// Total length of the lock scripts of a sequence of outputs.
pub open spec fn output_script_lens(s: Seq<TransactionOutput>) -> int
    decreases s.len(),
{
    if s.len() == 0 {
        0
    } else {
        output_script_lens(s.drop_last()) + s.last().script_pubkey@.len()
    }
}

/// Counted size of one transaction: one unit for the transaction itself,
/// one per input and output, and one per script byte.
pub open spec fn transaction_weight(tx: Transaction) -> int {
    1 + tx.inputs@.len() + tx.outputs@.len() + input_script_lens(tx.inputs@)
        + output_script_lens(tx.outputs@)
}

/// Counted size of the first `n` transactions of a block.
pub open spec fn weight_prefix(txs: Seq<Transaction>, n: int) -> int
    decreases n,
{
    if n <= 0 {
        0
    } else {
        weight_prefix(txs, n - 1) + transaction_weight(txs[n - 1])
    }
}

/// Counted size of a whole block.
pub open spec fn block_weight(b: Block) -> int {
    weight_prefix(b.transactions@, b.transactions@.len() as int)
}

pub proof fn lemma_script_lens_nonneg(i: Seq<TransactionInput>, o: Seq<TransactionOutput>)
    ensures
        input_script_lens(i) >= 0,
        output_script_lens(o) >= 0,
    decreases i.len() + o.len(),
{
    if i.len() > 0 {
        lemma_script_lens_nonneg(i.drop_last(), o);
    } else if o.len() > 0 {
        lemma_script_lens_nonneg(i, o.drop_last());
    }
}

pub proof fn lemma_transaction_weight_parts(tx: Transaction)
    ensures
        transaction_weight(tx) >= 1,
        tx.inputs@.len() <= transaction_weight(tx),
        tx.outputs@.len() <= transaction_weight(tx),
        input_script_lens(tx.inputs@) <= transaction_weight(tx),
        output_script_lens(tx.outputs@) <= transaction_weight(tx),
        0 <= transaction_sigops(tx) <= transaction_weight(tx),
{
    lemma_script_lens_nonneg(tx.inputs@, tx.outputs@);
    lemma_input_sigops_le_lens(tx.inputs@);
    lemma_output_sigops_le_lens(tx.outputs@);
}

pub proof fn lemma_input_sigops_le_lens(s: Seq<TransactionInput>)
    ensures
        0 <= input_sigops(s) <= input_script_lens(s),
    decreases s.len(),
{
    if s.len() > 0 {
        lemma_input_sigops_le_lens(s.drop_last());
        lemma_script_sigops_bound(s.last().script_sig@);
    }
}

pub proof fn lemma_output_sigops_le_lens(s: Seq<TransactionOutput>)
    ensures
        0 <= output_sigops(s) <= output_script_lens(s),
    decreases s.len(),
{
    if s.len() > 0 {
        lemma_output_sigops_le_lens(s.drop_last());
        lemma_script_sigops_bound(s.last().script_pubkey@);
    }
}

/// A prefix of the inputs contributes at most the whole script total.
pub proof fn lemma_isl_take(s: Seq<TransactionInput>, m: int)
    requires
        0 <= m <= s.len(),
    ensures
        0 <= input_script_lens(s.take(m)) <= input_script_lens(s),
    decreases s.len() - m,
{
    lemma_script_lens_nonneg(s.take(m), Seq::empty());
    if m == s.len() {
        assert(s.take(m) =~= s);
    } else {
        assert(s.take(m + 1).drop_last() =~= s.take(m));
        lemma_isl_take(s, m + 1);
    }
}

/// A prefix of the outputs contributes at most the whole script total.
pub proof fn lemma_osl_take(s: Seq<TransactionOutput>, m: int)
    requires
        0 <= m <= s.len(),
    ensures
        0 <= output_script_lens(s.take(m)) <= output_script_lens(s),
    decreases s.len() - m,
{
    lemma_script_lens_nonneg(Seq::empty(), s.take(m));
    if m == s.len() {
        assert(s.take(m) =~= s);
    } else {
        assert(s.take(m + 1).drop_last() =~= s.take(m));
        lemma_osl_take(s, m + 1);
    }
}

/// Every transaction's weight is contained in any prefix sum that covers
/// it, and prefix sums only grow.
pub proof fn lemma_weight_prefix_monotone(txs: Seq<Transaction>, m: int, n: int)
    requires
        0 <= m <= n,
    ensures
        weight_prefix(txs, m) <= weight_prefix(txs, n),
        weight_prefix(txs, n) >= 0,
    decreases n,
{
    if n > 0 {
        if m == n {
            lemma_weight_prefix_monotone(txs, 0, n - 1);
            lemma_transaction_weight_parts(txs[n - 1]);
        } else {
            lemma_weight_prefix_monotone(txs, m, n - 1);
            lemma_transaction_weight_parts(txs[n - 1]);
        }
    }
}

/// A single transaction's weight is bounded by the block's weight.
pub proof fn lemma_transaction_weight_le_block(txs: Seq<Transaction>, i: int)
    requires
        0 <= i < txs.len(),
    ensures
        transaction_weight(txs[i]) <= weight_prefix(txs, txs.len() as int),
{
    lemma_weight_prefix_monotone(txs, 0, i);
    lemma_weight_prefix_monotone(txs, i + 1, txs.len() as int);
}

// ---------------------------------------------------------------------------
// Merkle root

/// The rule set's commitment of a header to its transaction list: the
/// transaction ids combined by wrapping 64-bit addition, in order.
pub open spec fn spec_merkle_root(txs: Seq<Transaction>) -> u64
    decreases txs.len(),
{
    if txs.len() == 0 {
        0u64
    } else {
        let rest = spec_merkle_root(txs.drop_last());
        let h = txs.last().hash;
        if rest + h > u64::MAX {
            (rest + h - 0x10000000000000000) as u64
        } else {
            (rest + h) as u64
        }
    }
}

/// Computes the merkle root of a transaction list.
pub fn merkle_root(txs: &Vec<Transaction>) -> (r: u64)
    ensures
        r == spec_merkle_root(txs@),
{
    let mut acc: u64 = 0;
    let mut i: usize = 0;
    while i < txs.len()
        invariant
            i <= txs@.len(),
            acc == spec_merkle_root(txs@.take(i as int)),
        decreases txs@.len() - i,
    {
        proof {
            assert(txs@.take(i + 1).drop_last() =~= txs@.take(i as int));
        }
        acc = acc.wrapping_add(txs[i].hash);
        i = i + 1;
    }
    proof {
        assert(txs@.take(txs@.len() as int) =~= txs@);
    }
    acc
}

} // verus!
