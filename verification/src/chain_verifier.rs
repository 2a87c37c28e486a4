//! The verification orchestrator: classifies a candidate block's origin,
//! picks the store context (main chain or fork overlay), runs structural
//! then contextual checks, and translates failures into the public error
//! taxonomy.  Also exposes the header-only and pool-transaction entry
//! points.

use vstd::prelude::*;

use crate::accept::{
    accept_block, accept_mempool_transaction, spec_accept_block, spec_accept_pool_transaction,
    OutputStore,
};
use crate::chain::{Block, BlockHeader};
use crate::consensus::ConsensusParams;
use crate::deployments::{header_history, spec_lock_time_active, BlockDeployments};
use crate::error::{Error, StoreError, TransactionError};
use crate::store::{lemma_best_tip_consistent, route_blocks, BlockOrigin, ChainStore};
use crate::verify_structure::{
    check_block_structure, check_mempool_transaction_structure, spec_block_structural_error,
    spec_header_error, spec_mempool_structural_error, verify_header,
};

verus! {

/// How much of the pipeline runs.  `NoVerification` short-circuits to
/// success without inspecting the block; `Header` and `Full` both run the
/// whole structural and contextual pipeline of this rule set (the rule
/// variants that only a script checker distinguishes are out of scope).
#[derive(Clone, Copy, Debug, PartialEq, Eq, PartialOrd, Ord, Structural)]
pub enum VerificationLevel {
    NoVerification,
    Header,
    Full,
}

/// The top-level verifier: the chain store it reads, and the network's
/// consensus parameters.
#[derive(Clone, Debug)]
pub struct BackwardsCompatibleChainVerifier {
    pub store: ChainStore,
    pub consensus: ConsensusParams,
}

/// What verifying `b` at `level` against `store` returns, with
/// `current_time` as the wall-clock context of structural checks.  An
/// already-known block is a caller bug that the entry points exclude by
/// precondition; its value here is immaterial.
pub open spec fn spec_verify_block(
    store: ChainStore,
    consensus: ConsensusParams,
    level: VerificationLevel,
    b: Block,
    current_time: u32,
) -> Result<(), Error> {
    if level is NoVerification {
        Result::Ok(())
    } else {
        match spec_block_structural_error(b, current_time) {
            Option::Some(e) => Result::Err(e),
            Option::None => {
                if store.spec_contains(b.hash) {
                    Result::Ok(())
                } else {
                    match store.spec_parent_route(b) {
                        Option::None => Result::Err(Error::Database(StoreError::UnknownParent)),
                        Option::Some((fh, branch)) => {
                            let height = fh + 1 + branch.len();
                            let view = store.canon@.take(fh + 1) + branch;
                            let lock_active = spec_lock_time_active(
                                consensus,
                                header_history(store.canon@),
                                height as u32,
                            );
                            match spec_accept_block(
                                view,
                                b.transactions@,
                                height,
                                lock_active,
                                b.header.time,
                            ) {
                                Option::Some(e) => Result::Err(e),
                                Option::None => Result::Ok(()),
                            }
                        },
                    }
                }
            },
        }
    }
}

/// What structural header verification returns for time context `t`.
pub open spec fn spec_verify_header(h: BlockHeader, t: u32) -> Result<(), Error> {
    match spec_header_error(h, t) {
        Option::Some(e) => Result::Err(e),
        Option::None => Result::Ok(()),
    }
}

/// What verifying a standalone transaction for the pool returns: the
/// structural gate, then contextual acceptance under the deployment
/// snapshot resolved at `height` against the store's header history.
pub open spec fn spec_verify_mempool_transaction(
    consensus: ConsensusParams,
    store: ChainStore,
    entries: Seq<crate::accept::OutputEntry>,
    height: u32,
    time: u32,
    tx: crate::chain::Transaction,
) -> Result<(), TransactionError> {
    match spec_mempool_structural_error(tx) {
        Option::Some(e) => Result::Err(e),
        Option::None => {
            let lock_active = spec_lock_time_active(
                consensus,
                header_history(store.canon@),
                height,
            );
            match spec_accept_pool_transaction(entries, tx, height, time, lock_active) {
                Option::Some(e) => Result::Err(e),
                Option::None => Result::Ok(()),
            }
        },
    }
}

/// Relies on time::get_time of the time crate: the wall clock's seconds
/// since the Unix epoch.  The value depends on the environment, so nothing
/// is promised of it; callers state what holds whatever comes back.
#[verifier::external_body]
fn unix_time_seconds() -> u32 {
    time::get_time().sec as u32
}

impl BackwardsCompatibleChainVerifier {
    pub fn new(store: ChainStore, consensus: ConsensusParams) -> (r: Self)
        ensures
            r.store == store,
            r.consensus == consensus,
    {
        BackwardsCompatibleChainVerifier { store, consensus }
    }

    /// Verifies a candidate block at `level` with an explicit wall-clock
    /// context: the deterministic core of `verify`.
    pub fn verify_block(
        &self,
        level: VerificationLevel,
        block: &Block,
        current_time: u32,
    ) -> (r: Result<(), Error>)
        requires
            self.store.wf(),
            !(level is NoVerification) ==> !self.store.spec_contains(block.hash),
        ensures
            r == spec_verify_block(self.store, self.consensus, level, *block, current_time),
            self.store.spec_hash_at(self.store.spec_best_height()) == Option::Some(
                self.store.spec_best_hash(),
            ),
    {
        proof {
            lemma_best_tip_consistent(self.store);
        }
        if level == VerificationLevel::NoVerification {
            return Result::Ok(());
        }
        if let Result::Err(e) = check_block_structure(block, current_time) {
            return Result::Err(e);
        }
        let r: Result<(), Error> = match self.store.block_origin(block) {
            Result::Err(e) => Result::Err(Error::Database(e)),
            Result::Ok(origin) => match origin {
                BlockOrigin::KnownBlock => {
                    proof {
                        assert(false);
                    }
                    Result::Ok(())
                },
                BlockOrigin::CanonChain { block_number } => {
                    let fork_height: usize = self.store.canon.len() - 1;
                    let route: Vec<usize> = Vec::new();
                    let deployments = BlockDeployments::resolve(
                        &self.consensus,
                        block_number,
                        &self.store.canon,
                    );
                    proof {
                        assert(route_blocks(self.store.side@, route@) =~= Seq::<Block>::empty());
                        assert(self.store.canon@.take(fork_height + 1) + route_blocks(
                            self.store.side@,
                            route@,
                        ) =~= self.store.canon@.take(fork_height + 1));
                    }
                    accept_block(
                        &self.store.canon,
                        fork_height,
                        &self.store.side,
                        &route,
                        block,
                        block_number,
                        deployments,
                    )
                },
                BlockOrigin::SideChain(fo) => {
                    let deployments = BlockDeployments::resolve(
                        &self.consensus,
                        fo.block_number,
                        &self.store.canon,
                    );
                    accept_block(
                        &self.store.canon,
                        fo.fork_height as usize,
                        &self.store.side,
                        &fo.route,
                        block,
                        fo.block_number,
                        deployments,
                    )
                },
                BlockOrigin::SideChainBecomingCanon(fo) => {
                    let deployments = BlockDeployments::resolve(
                        &self.consensus,
                        fo.block_number,
                        &self.store.canon,
                    );
                    accept_block(
                        &self.store.canon,
                        fo.fork_height as usize,
                        &self.store.side,
                        &fo.route,
                        block,
                        fo.block_number,
                        deployments,
                    )
                },
            },
        };
        proof {
            let expected = spec_verify_block(
                self.store,
                self.consensus,
                level,
                *block,
                current_time,
            );
            match r {
                Result::Ok(u) => {
                    assert(r == expected);
                },
                Result::Err(e) => {
                    assert(r == expected);
                },
            }
        }
        r
    }

    /// Verifies a candidate block at `level`, reading the wall clock for
    /// the structural time context.  The best-tip consistency of the store
    /// holds before and after: verification never mutates the store.
    pub fn verify(&self, level: VerificationLevel, block: &Block) -> (r: Result<(), Error>)
        requires
            self.store.wf(),
            !(level is NoVerification) ==> !self.store.spec_contains(block.hash),
        ensures
            exists|t: u32|
                r == spec_verify_block(self.store, self.consensus, level, *block, t),
            level is NoVerification ==> r == Result::<(), Error>::Ok(()),
            self.store.spec_hash_at(self.store.spec_best_height()) == Option::Some(
                self.store.spec_best_hash(),
            ),
    {
        let current_time = unix_time_seconds();
        let r = self.verify_block(level, block, current_time);
        proof {
            assert(r == spec_verify_block(
                self.store,
                self.consensus,
                level,
                *block,
                current_time,
            ));
        }
        r
    }

    /// Structural verification of a lone header: proof-of-work-independent
    /// timestamp bounds only.  Deliberately incomplete relative to full
    /// contextual header rules: a known partial-verification mode.
    pub fn verify_block_header(&self, _hash: u64, header: &BlockHeader) -> (r: Result<(), Error>)
        ensures
            exists|t: u32| r == spec_verify_header(*header, t),
    {
        let current_time = unix_time_seconds();
        let r = verify_header(header, current_time);
        proof {
            match r {
                Result::Ok(u) => {
                    assert(r == spec_verify_header(*header, current_time));
                },
                Result::Err(e) => {
                    assert(r == spec_verify_header(*header, current_time));
                },
            }
        }
        r
    }

    /// Validates a standalone transaction for admission to a holding pool
    /// at a hypothetical next `height` and `time`, resolving previous
    /// outputs through the caller-supplied provider.
    pub fn verify_mempool_transaction(
        &self,
        prevout_provider: &OutputStore,
        height: u32,
        time: u32,
        transaction: &crate::chain::Transaction,
    ) -> (r: Result<(), TransactionError>)
        ensures
            r == spec_verify_mempool_transaction(
                self.consensus,
                self.store,
                prevout_provider.entries@,
                height,
                time,
                *transaction,
            ),
    {
        let deployments = BlockDeployments::resolve(&self.consensus, height, &self.store.canon);
        if let Result::Err(e) = check_mempool_transaction_structure(transaction) {
            return Result::Err(e);
        }
        let r = accept_mempool_transaction(prevout_provider, transaction, height, time, deployments);
        proof {
            let expected = spec_verify_mempool_transaction(
                self.consensus,
                self.store,
                prevout_provider.entries@,
                height,
                time,
                *transaction,
            );
            match r {
                Result::Ok(u) => {
                    assert(r == expected);
                },
                Result::Err(e) => {
                    assert(r == expected);
                },
            }
        }
        r
    }
}

// ---------------------------------------------------------------------------
// Laws of the orchestrator

/// The no-verification gate: at level `NoVerification` every block passes,
/// whatever the store, the parameters, the block or the time.
pub proof fn lemma_no_verification_level(
    store: ChainStore,
    consensus: ConsensusParams,
    b: Block,
    t: u32,
)
    ensures
        spec_verify_block(store, consensus, VerificationLevel::NoVerification, b, t)
            == Result::<(), Error>::Ok(()),
{
}

/// A structurally sound, unknown block whose parent hash is stored nowhere
/// fails with the unknown-parent store error.
pub proof fn lemma_unknown_parent(
    store: ChainStore,
    consensus: ConsensusParams,
    level: VerificationLevel,
    b: Block,
    t: u32,
)
    requires
        store.wf(),
        !(level is NoVerification),
        spec_block_structural_error(b, t) is None,
        !store.spec_contains(b.hash),
        !store.spec_contains(b.header.parent_hash),
    ensures
        spec_verify_block(store, consensus, level, b, t) == Result::<(), Error>::Err(
            Error::Database(StoreError::UnknownParent),
        ),
{
    assert(store.spec_parent_route(b) is None);
}

/// Idempotence: the verification result is a pure function of the store,
/// the parameters, the level, the block and the time context, so repeating
/// the same call against unchanged state yields the identical result.
pub proof fn lemma_verify_idempotent(
    store: ChainStore,
    consensus: ConsensusParams,
    level: VerificationLevel,
    b: Block,
    t: u32,
    r1: Result<(), Error>,
    r2: Result<(), Error>,
)
    requires
        r1 == spec_verify_block(store, consensus, level, b, t),
        r2 == spec_verify_block(store, consensus, level, b, t),
    ensures
        r1 == r2,
{
}

} // verus!
