//! Block-path tests: origin classification, maturity, same-block spend
//! chains, sigops, coinbase claims, and the structural gate.

use verification::chain::merkle_root;
use verification::{
    BackwardsCompatibleChainVerifier as ChainVerifier, Block, BlockHeader, BlockOrigin,
    ChainStore, ConsensusParams, Error, Network, OutPoint, StoreError, Transaction,
    TransactionError, TransactionInput, TransactionOutput, VerificationLevel,
};

fn out(value: u64) -> TransactionOutput {
    TransactionOutput { value, script_pubkey: vec![] }
}

fn input(tx_hash: u64, index: u32) -> TransactionInput {
    TransactionInput { previous_output: OutPoint { tx_hash, index }, script_sig: vec![] }
}

fn script_input(tx_hash: u64, index: u32, script_sig: Vec<u8>) -> TransactionInput {
    TransactionInput { previous_output: OutPoint { tx_hash, index }, script_sig }
}

fn coinbase_input() -> TransactionInput {
    TransactionInput { previous_output: OutPoint { tx_hash: 0, index: u32::MAX }, script_sig: vec![] }
}

fn tx(hash: u64, inputs: Vec<TransactionInput>, outputs: Vec<TransactionOutput>) -> Transaction {
    Transaction { hash, lock_time: 0, inputs, outputs }
}

fn block(hash: u64, parent: u64, txs: Vec<Transaction>) -> Block {
    let root = merkle_root(&txs);
    Block {
        hash,
        header: BlockHeader { version: 0, parent_hash: parent, merkle_root: root, time: 0 },
        transactions: txs,
    }
}

fn store_with(canon: Vec<Block>) -> ChainStore {
    ChainStore { canon, side: vec![] }
}

fn unitest() -> ConsensusParams {
    ConsensusParams::new(Network::Unitest)
}

#[test]
fn verify_orphan() {
    let genesis = block(1, 0, vec![tx(10, vec![coinbase_input()], vec![])]);
    let storage = store_with(vec![genesis]);
    let b2 = block(2, 99, vec![tx(11, vec![coinbase_input()], vec![])]);
    let verifier = ChainVerifier::new(storage, unitest());
    assert_eq!(
        Err(Error::Database(StoreError::UnknownParent)),
        verifier.verify(VerificationLevel::Full, &b2)
    );
}

#[test]
fn verify_smoky() {
    let genesis = block(1, 0, vec![tx(10, vec![coinbase_input()], vec![])]);
    let storage = store_with(vec![genesis]);
    let b1 = block(2, 1, vec![tx(11, vec![coinbase_input()], vec![out(50)])]);
    let verifier = ChainVerifier::new(storage, unitest());
    assert!(verifier.verify(VerificationLevel::Full, &b1).is_ok());
}

#[test]
fn first_tx() {
    let b0 = block(1, 0, vec![tx(10, vec![coinbase_input()], vec![])]);
    let b1 = block(2, 1, vec![tx(11, vec![coinbase_input()], vec![])]);
    let storage = store_with(vec![b0, b1]);
    let b2 = block(3, 2, vec![tx(12, vec![coinbase_input()], vec![out(50)])]);
    let verifier = ChainVerifier::new(storage, unitest());
    assert!(verifier.verify(VerificationLevel::Full, &b2).is_ok());
}

#[test]
fn coinbase_maturity() {
    let genesis = block(1, 0, vec![tx(10, vec![coinbase_input()], vec![out(50)])]);
    let storage = store_with(vec![genesis]);

    let candidate = block(
        2,
        1,
        vec![
            tx(11, vec![coinbase_input()], vec![out(1)]),
            tx(12, vec![input(10, 0)], vec![out(2)]),
        ],
    );

    let verifier = ChainVerifier::new(storage, unitest());
    let expected = Err(Error::Transaction(1, TransactionError::Maturity));
    assert_eq!(expected, verifier.verify(VerificationLevel::Full, &candidate));
}

#[test]
fn non_coinbase_happy() {
    let genesis = block(
        1,
        0,
        vec![
            tx(10, vec![coinbase_input()], vec![out(1)]),
            tx(11, vec![], vec![out(50)]),
        ],
    );
    let storage = store_with(vec![genesis]);

    let candidate = block(
        2,
        1,
        vec![
            tx(12, vec![coinbase_input()], vec![out(2)]),
            tx(13, vec![input(11, 0)], vec![out(1)]),
        ],
    );

    let verifier = ChainVerifier::new(storage, unitest());
    assert!(verifier.verify(VerificationLevel::Full, &candidate).is_ok());
}

#[test]
fn transaction_references_same_block_happy() {
    let genesis = block(
        1,
        0,
        vec![
            tx(10, vec![coinbase_input()], vec![out(1)]),
            tx(11, vec![], vec![out(50)]),
        ],
    );
    let storage = store_with(vec![genesis]);

    let candidate = block(
        2,
        1,
        vec![
            tx(12, vec![coinbase_input()], vec![out(2)]),
            tx(13, vec![input(11, 0)], vec![out(30), out(20)]),
            tx(14, vec![input(13, 0)], vec![out(30)]),
        ],
    );

    let verifier = ChainVerifier::new(storage, unitest());
    assert!(verifier.verify(VerificationLevel::Full, &candidate).is_ok());
}

#[test]
fn transaction_references_same_block_overspend() {
    let genesis = block(
        1,
        0,
        vec![
            tx(10, vec![coinbase_input()], vec![out(1)]),
            tx(11, vec![], vec![out(50)]),
        ],
    );
    let storage = store_with(vec![genesis]);

    let candidate = block(
        2,
        1,
        vec![
            tx(12, vec![coinbase_input()], vec![out(2)]),
            tx(13, vec![input(11, 0)], vec![out(19), out(31)]),
            tx(14, vec![input(13, 0)], vec![out(20)]),
            tx(15, vec![input(13, 1)], vec![out(20)]),
        ],
    );

    let verifier = ChainVerifier::new(storage, unitest());
    let expected = Err(Error::Transaction(2, TransactionError::Overspend));
    assert_eq!(expected, verifier.verify(VerificationLevel::Full, &candidate));
}

#[test]
fn coinbase_happy() {
    let genesis = block(1, 0, vec![tx(10, vec![coinbase_input()], vec![out(50)])]);
    let genesis_coinbase = 10u64;

    // waiting 100 blocks for the genesis coinbase to become spendable
    let mut canon = vec![genesis];
    for i in 0..100u64 {
        let parent = canon.last().unwrap().hash;
        let dummy = block(100 + i, parent, vec![tx(200 + i, vec![coinbase_input()], vec![])]);
        canon.push(dummy);
    }
    let storage = store_with(canon);
    let best_hash = storage.best_block().hash;

    let candidate = block(
        300,
        best_hash,
        vec![
            tx(301, vec![coinbase_input()], vec![]),
            tx(302, vec![input(genesis_coinbase, 0)], vec![]),
        ],
    );

    let verifier = ChainVerifier::new(storage, unitest());
    assert!(verifier.verify(VerificationLevel::Full, &candidate).is_ok());
}

#[test]
fn absoulte_sigops_overflow_block() {
    let genesis = block(
        1,
        0,
        vec![
            tx(10, vec![coinbase_input()], vec![]),
            tx(11, vec![], vec![out(50)]),
        ],
    );
    let storage = store_with(vec![genesis]);

    let sigs_tx1 = vec![172u8; 81000];
    let sigs_tx2 = vec![172u8; 81001];

    let candidate = block(
        2,
        1,
        vec![
            tx(12, vec![coinbase_input()], vec![]),
            tx(13, vec![script_input(11, 0, sigs_tx1)], vec![]),
            tx(14, vec![script_input(11, 0, sigs_tx2)], vec![]),
        ],
    );

    let verifier = ChainVerifier::new(storage, unitest());
    let expected = Err(Error::MaximumSigops);
    assert_eq!(expected, verifier.verify(VerificationLevel::Full, &candidate));
}

#[test]
fn coinbase_overspend() {
    let genesis = block(1, 0, vec![tx(10, vec![coinbase_input()], vec![])]);
    let storage = store_with(vec![genesis]);

    let candidate = block(2, 1, vec![tx(11, vec![coinbase_input()], vec![out(5000000001)])]);

    let verifier = ChainVerifier::new(storage, unitest());
    let expected = Err(Error::CoinbaseOverspend { expected_max: 5000000000, actual: 5000000001 });
    assert_eq!(expected, verifier.verify(VerificationLevel::Full, &candidate));
}

#[test]
fn no_verification_level_accepts_anything() {
    let genesis = block(1, 0, vec![tx(10, vec![coinbase_input()], vec![])]);
    let storage = store_with(vec![genesis]);
    // structurally broken and an orphan: still accepted at NoVerification
    let junk = block(2, 99, vec![]);
    let verifier = ChainVerifier::new(storage, unitest());
    assert_eq!(Ok(()), verifier.verify(VerificationLevel::NoVerification, &junk));
}

#[test]
fn best_tip_consistent_around_verify() {
    let genesis = block(1, 0, vec![tx(10, vec![coinbase_input()], vec![])]);
    let storage = store_with(vec![genesis]);
    let verifier = ChainVerifier::new(storage, unitest());

    let best = verifier.store.best_block();
    assert_eq!(Some(best.hash), verifier.store.block_hash(best.number));

    let b1 = block(2, 1, vec![tx(11, vec![coinbase_input()], vec![out(50)])]);
    assert!(verifier.verify(VerificationLevel::Full, &b1).is_ok());

    let best_after = verifier.store.best_block();
    assert_eq!(Some(best_after.hash), verifier.store.block_hash(best_after.number));
    assert_eq!(best, best_after);
}

#[test]
fn verify_is_idempotent_at_fixed_time() {
    let genesis = block(1, 0, vec![tx(10, vec![coinbase_input()], vec![out(50)])]);
    let storage = store_with(vec![genesis]);
    let verifier = ChainVerifier::new(storage, unitest());

    let candidate = block(
        2,
        1,
        vec![
            tx(11, vec![coinbase_input()], vec![out(1)]),
            tx(12, vec![input(10, 0)], vec![out(2)]),
        ],
    );
    let first = verifier.verify_block(VerificationLevel::Full, &candidate, 1000);
    let second = verifier.verify_block(VerificationLevel::Full, &candidate, 1000);
    assert_eq!(first, second);
    assert_eq!(first, Err(Error::Transaction(1, TransactionError::Maturity)));
}

#[test]
fn empty_block_rejected() {
    let genesis = block(1, 0, vec![tx(10, vec![coinbase_input()], vec![])]);
    let verifier = ChainVerifier::new(store_with(vec![genesis]), unitest());
    let empty = block(2, 1, vec![]);
    assert_eq!(Err(Error::Empty), verifier.verify(VerificationLevel::Full, &empty));
}

#[test]
fn first_transaction_must_be_coinbase() {
    let genesis = block(1, 0, vec![tx(10, vec![coinbase_input()], vec![out(50)])]);
    let verifier = ChainVerifier::new(store_with(vec![genesis]), unitest());
    let bad = block(2, 1, vec![tx(11, vec![input(10, 0)], vec![out(1)])]);
    assert_eq!(Err(Error::Coinbase), verifier.verify(VerificationLevel::Full, &bad));
}

#[test]
fn misplaced_coinbase_rejected() {
    let genesis = block(1, 0, vec![tx(10, vec![coinbase_input()], vec![])]);
    let verifier = ChainVerifier::new(store_with(vec![genesis]), unitest());
    let bad = block(
        2,
        1,
        vec![
            tx(11, vec![coinbase_input()], vec![]),
            tx(12, vec![coinbase_input()], vec![]),
        ],
    );
    assert_eq!(
        Err(Error::Transaction(1, TransactionError::MisplacedCoinbase)),
        verifier.verify(VerificationLevel::Full, &bad)
    );
}

#[test]
fn merkle_mismatch_rejected() {
    let genesis = block(1, 0, vec![tx(10, vec![coinbase_input()], vec![])]);
    let verifier = ChainVerifier::new(store_with(vec![genesis]), unitest());
    let mut bad = block(2, 1, vec![tx(11, vec![coinbase_input()], vec![])]);
    bad.header.merkle_root = bad.header.merkle_root.wrapping_add(1);
    assert_eq!(Err(Error::MerkleRoot), verifier.verify(VerificationLevel::Full, &bad));
}

#[test]
fn future_timestamp_rejected() {
    let genesis = block(1, 0, vec![tx(10, vec![coinbase_input()], vec![])]);
    let verifier = ChainVerifier::new(store_with(vec![genesis]), unitest());
    let mut bad = block(2, 1, vec![tx(11, vec![coinbase_input()], vec![])]);
    bad.header.time = 10000;
    // time context 1000: drift bound is 1000 + 7200 < 10000
    assert_eq!(
        Err(Error::Timestamp),
        verifier.verify_block(VerificationLevel::Full, &bad, 1000)
    );
}

#[test]
fn oversized_block_rejected() {
    let genesis = block(1, 0, vec![tx(10, vec![coinbase_input()], vec![])]);
    let verifier = ChainVerifier::new(store_with(vec![genesis]), unitest());
    let big_script = vec![0u8; 1000001];
    let bad = block(
        2,
        1,
        vec![Transaction {
            hash: 11,
            lock_time: 0,
            inputs: vec![coinbase_input()],
            outputs: vec![TransactionOutput { value: 1, script_pubkey: big_script }],
        }],
    );
    assert_eq!(Err(Error::Size), verifier.verify(VerificationLevel::Full, &bad));
}

#[test]
fn unknown_input_reference_rejected() {
    let genesis = block(1, 0, vec![tx(10, vec![coinbase_input()], vec![])]);
    let verifier = ChainVerifier::new(store_with(vec![genesis]), unitest());
    let bad = block(
        2,
        1,
        vec![
            tx(11, vec![coinbase_input()], vec![]),
            tx(12, vec![input(77, 0)], vec![]),
        ],
    );
    assert_eq!(
        Err(Error::Transaction(1, TransactionError::UnknownReference(77))),
        verifier.verify(VerificationLevel::Full, &bad)
    );
}

#[test]
fn side_chain_block_verifies_against_overlay() {
    // canon: g (1) <- a (2); side branch: s1 (5) off g, holding an output
    let g = block(1, 0, vec![tx(10, vec![coinbase_input()], vec![])]);
    let a = block(2, 1, vec![tx(11, vec![coinbase_input()], vec![])]);
    let s1 = block(
        5,
        1,
        vec![
            tx(20, vec![coinbase_input()], vec![]),
            tx(21, vec![], vec![out(50)]),
        ],
    );
    let storage = ChainStore { canon: vec![g, a], side: vec![s1] };
    let verifier = ChainVerifier::new(storage, unitest());

    // candidate extends s1 and spends the branch's own output: resolved
    // through the fork overlay, and the branch overtakes the best chain
    let candidate = block(
        6,
        5,
        vec![
            tx(30, vec![coinbase_input()], vec![]),
            tx(31, vec![input(21, 0)], vec![out(50)]),
        ],
    );
    assert!(verifier.verify(VerificationLevel::Full, &candidate).is_ok());
}

#[test]
fn side_chain_immature_coinbase_spend_rejected() {
    let g = block(1, 0, vec![tx(10, vec![coinbase_input()], vec![])]);
    let a = block(2, 1, vec![tx(11, vec![coinbase_input()], vec![])]);
    let s1 = block(5, 1, vec![tx(20, vec![coinbase_input()], vec![out(9)])]);
    let storage = ChainStore { canon: vec![g, a], side: vec![s1] };
    let verifier = ChainVerifier::new(storage, unitest());

    let candidate = block(
        6,
        5,
        vec![
            tx(30, vec![coinbase_input()], vec![]),
            tx(31, vec![input(20, 0)], vec![out(9)]),
        ],
    );
    assert_eq!(
        Err(Error::Transaction(1, TransactionError::Maturity)),
        verifier.verify(VerificationLevel::Full, &candidate)
    );
}

#[test]
fn block_origin_classification() {
    // canon: g (1) <- a (2); side: s1 (5) off g
    let g = block(1, 0, vec![tx(10, vec![coinbase_input()], vec![])]);
    let a = block(2, 1, vec![tx(11, vec![coinbase_input()], vec![])]);
    let s1 = block(5, 1, vec![tx(20, vec![coinbase_input()], vec![])]);
    let storage = ChainStore { canon: vec![g.clone(), a], side: vec![s1] };

    let known = g;
    assert!(matches!(storage.block_origin(&known), Ok(BlockOrigin::KnownBlock)));

    let extension = block(6, 2, vec![tx(30, vec![coinbase_input()], vec![])]);
    match storage.block_origin(&extension) {
        Ok(BlockOrigin::CanonChain { block_number }) => assert_eq!(2, block_number),
        other => panic!("expected a canon-chain extension, got {:?}", other),
    }

    // attaches to g at height 0: height 1 does not overtake the best chain
    let side = block(7, 1, vec![tx(31, vec![coinbase_input()], vec![])]);
    match storage.block_origin(&side) {
        Ok(BlockOrigin::SideChain(fo)) => {
            assert_eq!(0, fo.fork_height);
            assert_eq!(1, fo.block_number);
        },
        other => panic!("expected a side chain, got {:?}", other),
    }

    // attaches to s1: the candidate resolves to height 2, past the best
    // height of 1, so the branch overtakes the best chain
    let overtaking = block(8, 5, vec![tx(32, vec![coinbase_input()], vec![])]);
    match storage.block_origin(&overtaking) {
        Ok(BlockOrigin::SideChainBecomingCanon(fo)) => {
            assert_eq!(0, fo.fork_height);
            assert_eq!(2, fo.block_number);
        },
        other => panic!("expected an overtaking side chain, got {:?}", other),
    }

    let orphan = block(9, 42, vec![tx(33, vec![coinbase_input()], vec![])]);
    assert!(matches!(storage.block_origin(&orphan), Err(StoreError::UnknownParent)));
}

#[test]
fn verify_block_header_smoky() {
    let genesis = block(1, 0, vec![tx(10, vec![coinbase_input()], vec![])]);
    let verifier = ChainVerifier::new(store_with(vec![genesis]), unitest());
    let header = BlockHeader { version: 0, parent_hash: 1, merkle_root: 0, time: 0 };
    assert!(verifier.verify_block_header(2, &header).is_ok());
    let far_future = BlockHeader { version: 0, parent_hash: 1, merkle_root: 0, time: u32::MAX };
    assert_eq!(Err(Error::Timestamp), verifier.verify_block_header(3, &far_future));
}
