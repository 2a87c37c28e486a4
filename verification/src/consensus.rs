//! Network consensus parameters and the fixed resource limits of the rule set.

use vstd::prelude::*;

use crate::deployments::Activation;

verus! {

/// Number of confirming blocks a coinbase output needs before it may be spent.
pub const COINBASE_MATURITY: u32 = 100;

/// Hard cap on the aggregate signature-operation count of one block.
pub const MAX_BLOCK_SIGOPS: u64 = 20000;

/// Hard cap on the weight (counted size) of one block, and of one standalone
/// transaction offered for the pool.
pub const MAX_BLOCK_WEIGHT: u64 = 1000000;

/// A block header may not claim a timestamp further than this many seconds
/// after the wall-clock time supplied by the caller.
pub const MAX_FUTURE_DRIFT: u32 = 7200;

/// Lock-time values below this bound are block heights; values at or above
/// it are timestamps.
pub const LOCKTIME_THRESHOLD: u32 = 500000000;

/// Block subsidy before any halving, in the smallest currency unit.
pub const INITIAL_BLOCK_REWARD: u64 = 5000000000;

/// Number of blocks between two halvings of the subsidy.
pub const HALVING_INTERVAL: u32 = 210000;

/// The script opcode whose occurrences the sigop count counts.
pub const OP_CHECKSIG: u8 = 172;

/// Identity of the network whose rules apply.
#[derive(Clone, Copy, Debug, PartialEq, Eq, Structural)]
pub enum Network {
    Mainnet,
    Testnet,
    Unitest,
}

/// Consensus parameters: the network identity and the registered
/// height-gated deployments of the rule set.
#[derive(Clone, Copy, Debug)]
pub struct ConsensusParams {
    pub network: Network,
    /// Activation predicate of the lock-time enforcement deployment, if the
    /// feature is registered at all.  While inactive (or unregistered),
    /// transaction lock times are not checked.
    pub lock_time_deployment: Option<Activation>,
}

impl ConsensusParams {
    /// Parameters with no registered deployments, as used by the tests of
    /// the isolated network.
    pub fn new(network: Network) -> (r: ConsensusParams)
        ensures
            r.network == network,
            r.lock_time_deployment is None,
    {
        ConsensusParams { network, lock_time_deployment: None }
    }
}

/// How many halvings have happened at `height`.
pub open spec fn spec_halvings(height: u32) -> int {
    height as int / (HALVING_INTERVAL as int)
}

/// The block subsidy owed at `height`: the initial reward halved once per
/// elapsed halving interval, zero once shifted out entirely.
pub open spec fn spec_block_subsidy(height: u32) -> u64 {
    if spec_halvings(height) >= 64 {
        0u64
    } else {
        INITIAL_BLOCK_REWARD >> (spec_halvings(height) as u64)
    }
}

/// Computes the height-appropriate block subsidy.
pub fn block_subsidy(height: u32) -> (r: u64)
    ensures
        r == spec_block_subsidy(height),
{
    let halvings: u32 = height / HALVING_INTERVAL;
    if halvings >= 64 {
        0
    } else {
        INITIAL_BLOCK_REWARD >> (halvings as u64)
    }
}

} // verus!
