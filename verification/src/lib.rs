//! Consensus-validation core of a blockchain full node.
//!
//! The crate decides whether a candidate block, or a standalone transaction
//! offered for a holding pool, is acceptable under the network's consensus
//! rules, given the current state of the chain.  Validation runs in two
//! phases: structural pre-verification (pure checks of the object itself
//! against network parameters and a caller-supplied wall-clock time), then
//! contextual acceptance against the chain state reachable through an
//! output resolver and a deployment snapshot.  Candidate blocks are first
//! classified relative to the current best chain (already known, extension
//! of the best tip, side chain, side chain overtaking the best chain), and
//! side-chain candidates are checked against a fork overlay that layers the
//! pending branch over the canonical store without mutating it.

pub mod accept;
pub mod chain;
pub mod chain_verifier;
pub mod consensus;
pub mod deployments;
pub mod error;
pub mod store;
pub mod verify_structure;

pub use chain::{Block, BlockHeader, OutPoint, Transaction, TransactionInput, TransactionOutput};
pub use chain_verifier::{BackwardsCompatibleChainVerifier, VerificationLevel};
pub use consensus::{ConsensusParams, Network};
pub use error::{Error, StoreError, TransactionError};
pub use store::{BlockOrigin, ChainStore, ForkOrigin};
