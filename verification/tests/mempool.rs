//! Pool-transaction tests: the structural gate, provider resolution,
//! maturity, overspend, lock-time gating through deployments, and the
//! arithmetic units the rules are built on.

use verification::accept::{OutputEntry, OutputStore};
use verification::chain::merkle_root;
use verification::consensus::block_subsidy;
use verification::deployments::Activation;
use verification::{
    BackwardsCompatibleChainVerifier as ChainVerifier, Block, BlockHeader, ChainStore,
    ConsensusParams, Network, OutPoint, Transaction, TransactionError, TransactionInput,
    TransactionOutput,
};

fn out(value: u64) -> TransactionOutput {
    TransactionOutput { value, script_pubkey: vec![] }
}

fn input(tx_hash: u64, index: u32) -> TransactionInput {
    TransactionInput { previous_output: OutPoint { tx_hash, index }, script_sig: vec![] }
}

fn coinbase_input() -> TransactionInput {
    TransactionInput { previous_output: OutPoint { tx_hash: 0, index: u32::MAX }, script_sig: vec![] }
}

fn tx(hash: u64, inputs: Vec<TransactionInput>, outputs: Vec<TransactionOutput>) -> Transaction {
    Transaction { hash, lock_time: 0, inputs, outputs }
}

fn block(hash: u64, parent: u64, txs: Vec<Transaction>) -> Block {
    let root = merkle_root(&txs);
    Block {
        hash,
        header: BlockHeader { version: 0, parent_hash: parent, merkle_root: root, time: 0 },
        transactions: txs,
    }
}

fn versioned_block(hash: u64, parent: u64, version: u32) -> Block {
    let txs = vec![tx(hash + 1000, vec![coinbase_input()], vec![])];
    let root = merkle_root(&txs);
    Block {
        hash,
        header: BlockHeader { version, parent_hash: parent, merkle_root: root, time: 0 },
        transactions: txs,
    }
}

fn plain_verifier() -> ChainVerifier {
    let genesis = block(1, 0, vec![tx(10, vec![coinbase_input()], vec![])]);
    let storage = ChainStore { canon: vec![genesis], side: vec![] };
    ChainVerifier::new(storage, ConsensusParams::new(Network::Unitest))
}

fn entry(tx_hash: u64, index: u32, value: u64, is_coinbase: bool, height: u32) -> OutputEntry {
    OutputEntry { out_point: OutPoint { tx_hash, index }, value, is_coinbase, height }
}

#[test]
fn mempool_transaction_happy() {
    let verifier = plain_verifier();
    let provider = OutputStore { entries: vec![entry(40, 0, 50, false, 3)] };
    let candidate = tx(41, vec![input(40, 0)], vec![out(49)]);
    assert_eq!(Ok(()), verifier.verify_mempool_transaction(&provider, 10, 5000, &candidate));
}

#[test]
fn mempool_unknown_reference() {
    let verifier = plain_verifier();
    let provider = OutputStore { entries: vec![] };
    let candidate = tx(41, vec![input(40, 0)], vec![out(1)]);
    assert_eq!(
        Err(TransactionError::UnknownReference(40)),
        verifier.verify_mempool_transaction(&provider, 10, 5000, &candidate)
    );
}

#[test]
fn mempool_immature_coinbase_spend() {
    let verifier = plain_verifier();
    let provider = OutputStore { entries: vec![entry(40, 0, 50, true, 50)] };
    let candidate = tx(41, vec![input(40, 0)], vec![out(1)]);
    // 50 + 100 > 60: still immature at height 60
    assert_eq!(
        Err(TransactionError::Maturity),
        verifier.verify_mempool_transaction(&provider, 60, 5000, &candidate)
    );
    // 50 + 100 <= 150: mature at height 150
    assert_eq!(Ok(()), verifier.verify_mempool_transaction(&provider, 150, 5000, &candidate));
}

#[test]
fn mempool_overspend() {
    let verifier = plain_verifier();
    let provider = OutputStore { entries: vec![entry(40, 0, 50, false, 3)] };
    let candidate = tx(41, vec![input(40, 0)], vec![out(51)]);
    assert_eq!(
        Err(TransactionError::Overspend),
        verifier.verify_mempool_transaction(&provider, 10, 5000, &candidate)
    );
}

#[test]
fn mempool_rejects_empty_and_coinbase() {
    let verifier = plain_verifier();
    let provider = OutputStore { entries: vec![] };
    let no_inputs = tx(41, vec![], vec![out(1)]);
    assert_eq!(
        Err(TransactionError::Empty),
        verifier.verify_mempool_transaction(&provider, 10, 5000, &no_inputs)
    );
    let coinbase = tx(42, vec![coinbase_input()], vec![out(1)]);
    assert_eq!(
        Err(TransactionError::MisplacedCoinbase),
        verifier.verify_mempool_transaction(&provider, 10, 5000, &coinbase)
    );
}

#[test]
fn mempool_rejects_oversized_and_sigop_heavy() {
    let verifier = plain_verifier();
    let provider = OutputStore { entries: vec![entry(40, 0, 50, false, 3)] };

    let heavy = Transaction {
        hash: 41,
        lock_time: 0,
        inputs: vec![TransactionInput {
            previous_output: OutPoint { tx_hash: 40, index: 0 },
            script_sig: vec![0u8; 1000001],
        }],
        outputs: vec![],
    };
    assert_eq!(
        Err(TransactionError::Size),
        verifier.verify_mempool_transaction(&provider, 10, 5000, &heavy)
    );

    let sigop_heavy = Transaction {
        hash: 42,
        lock_time: 0,
        inputs: vec![TransactionInput {
            previous_output: OutPoint { tx_hash: 40, index: 0 },
            script_sig: vec![172u8; 20001],
        }],
        outputs: vec![],
    };
    assert_eq!(
        Err(TransactionError::Sigops),
        verifier.verify_mempool_transaction(&provider, 10, 5000, &sigop_heavy)
    );
}

#[test]
fn lock_time_enforced_only_while_deployment_active() {
    let genesis = block(1, 0, vec![tx(10, vec![coinbase_input()], vec![])]);
    let storage = ChainStore { canon: vec![genesis], side: vec![] };
    let provider = OutputStore { entries: vec![entry(40, 0, 50, false, 0)] };

    let mut locked = tx(41, vec![input(40, 0)], vec![out(1)]);
    locked.lock_time = 500;  // a height bound, not yet reached at height 10

    // deployment registered and active from height zero: rejected
    let mut gated = ConsensusParams::new(Network::Unitest);
    gated.lock_time_deployment = Some(Activation::AtHeight(0));
    let genesis2 = block(1, 0, vec![tx(10, vec![coinbase_input()], vec![])]);
    let storage2 = ChainStore { canon: vec![genesis2], side: vec![] };
    let strict = ChainVerifier::new(storage2, gated);
    assert_eq!(
        Err(TransactionError::NotFinal),
        strict.verify_mempool_transaction(&provider, 10, 5000, &locked)
    );
    // reached lock height: accepted again
    assert_eq!(Ok(()), strict.verify_mempool_transaction(&provider, 500, 5000, &locked));

    // no deployment registered: the lock time is not checked
    let lax = ChainVerifier::new(storage, ConsensusParams::new(Network::Unitest));
    assert_eq!(Ok(()), lax.verify_mempool_transaction(&provider, 10, 5000, &locked));
}

#[test]
fn time_interpreted_lock_time() {
    let provider = OutputStore { entries: vec![entry(40, 0, 50, false, 0)] };
    let mut gated = ConsensusParams::new(Network::Unitest);
    gated.lock_time_deployment = Some(Activation::AtHeight(0));
    let genesis = block(1, 0, vec![tx(10, vec![coinbase_input()], vec![])]);
    let storage = ChainStore { canon: vec![genesis], side: vec![] };
    let verifier = ChainVerifier::new(storage, gated);

    let mut locked = tx(41, vec![input(40, 0)], vec![out(1)]);
    locked.lock_time = 600000000;  // above the threshold: a timestamp
    assert_eq!(
        Err(TransactionError::NotFinal),
        verifier.verify_mempool_transaction(&provider, 10, 599999999, &locked)
    );
    assert_eq!(Ok(()), verifier.verify_mempool_transaction(&provider, 10, 600000000, &locked));
}

#[test]
fn signalled_deployment_counts_window() {
    // three of the last four headers below height 4 signal on bit zero
    let b0 = versioned_block(1, 0, 1);
    let b1 = versioned_block(2, 1, 1);
    let b2 = versioned_block(3, 2, 0);
    let b3 = versioned_block(4, 3, 1);
    let storage = ChainStore { canon: vec![b0, b1, b2, b3], side: vec![] };

    let mut gated = ConsensusParams::new(Network::Unitest);
    gated.lock_time_deployment =
        Some(Activation::Signalled { bit: 0, window: 4, threshold: 3 });
    let verifier = ChainVerifier::new(storage, gated);

    let provider = OutputStore { entries: vec![entry(40, 0, 50, false, 0)] };
    let mut locked = tx(41, vec![input(40, 0)], vec![out(1)]);
    locked.lock_time = 400000000;  // a height bound far above any tested height

    // at height 4 the window [0,4) holds three signals: active, so rejected
    assert_eq!(
        Err(TransactionError::NotFinal),
        verifier.verify_mempool_transaction(&provider, 4, 5000, &locked)
    );
    // at height 3 the window [0,3) holds only two signals: inactive
    assert_eq!(Ok(()), verifier.verify_mempool_transaction(&provider, 3, 5000, &locked));
}

#[test]
fn subsidy_halves_on_schedule() {
    assert_eq!(5000000000, block_subsidy(0));
    assert_eq!(5000000000, block_subsidy(209999));
    assert_eq!(2500000000, block_subsidy(210000));
    assert_eq!(1250000000, block_subsidy(420000));
    assert_eq!(0, block_subsidy(64 * 210000));
}

#[test]
fn merkle_root_is_wrapping_sum_of_ids() {
    let a = tx(1, vec![coinbase_input()], vec![]);
    let b = tx(2, vec![], vec![out(5)]);
    let c = tx(3, vec![], vec![]);
    assert_eq!(0, merkle_root(&vec![]));
    assert_eq!(6, merkle_root(&vec![a, b, c]));
    let big = tx(u64::MAX, vec![], vec![]);
    let two = tx(2, vec![], vec![]);
    assert_eq!(1, merkle_root(&vec![big, two]));
}
