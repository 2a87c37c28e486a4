//! The deployment tracker: height-gated consensus features.
//!
//! A deployment's activation predicate is a pure function of the target
//! height and of the chain's header history below it, so re-resolving the
//! same height against the same headers always yields the same snapshot.

use vstd::prelude::*;

use crate::chain::{Block, BlockHeader};
use crate::consensus::ConsensusParams;

verus! {

/// Activation predicate of one deployment.
#[derive(Clone, Copy, Debug)]
pub enum Activation {
    /// Active once the target height reaches the threshold.
    AtHeight(u32),
    /// Active once at least `threshold` of the `window` headers directly
    /// below the target height signal support on version bit `bit`.
    Signalled { bit: u32, window: u32, threshold: u32 },
}

/// Whether one header signals support on version bit `bit`.
pub open spec fn spec_signals(h: BlockHeader, bit: u32) -> bool {
    bit < 32 && (h.version >> bit) & 1 == 1
}

/// Number of headers with heights in `[lo, hi)` that signal on `bit`.
/// Heights outside the available history count nothing.
pub open spec fn count_signals(headers: Seq<BlockHeader>, bit: u32, lo: int, hi: int) -> int
    decreases hi - lo,
{
    if hi <= lo {
        0
    } else {
        count_signals(headers, bit, lo, hi - 1) + if 0 <= hi - 1 < headers.len()
            && spec_signals(headers[hi - 1], bit) {
            1int
        } else {
            0int
        }
    }
}

/// Whether `act` holds at `height` against the given header history.
pub open spec fn spec_active(act: Activation, height: u32, headers: Seq<BlockHeader>) -> bool {
    match act {
        Activation::AtHeight(a) => height >= a,
        Activation::Signalled { bit, window, threshold } => count_signals(
            headers,
            bit,
            height as int - window as int,
            height as int,
        ) >= threshold,
    }
}

/// The header history of a sequence of blocks, in chain order.
pub open spec fn header_history(blocks: Seq<Block>) -> Seq<BlockHeader> {
    blocks.map_values(|b: Block| b.header)
}

/// Whether the lock-time enforcement deployment is active at `height`.
pub open spec fn spec_lock_time_active(
    consensus: ConsensusParams,
    headers: Seq<BlockHeader>,
    height: u32,
) -> bool {
    match consensus.lock_time_deployment {
        Option::None => false,
        Option::Some(act) => spec_active(act, height, headers),
    }
}

/// The feature set resolved for one specific height; immutable for the
/// duration of one verification call.
#[derive(Clone, Copy, Debug)]
pub struct BlockDeployments {
    pub lock_time_active: bool,
}

/// Deployment resolution is deterministic: the snapshot is a pure function
/// of the height and the header history, so re-resolving the same height
/// against the same headers yields the same snapshot.
pub proof fn lemma_resolution_deterministic(
    consensus: ConsensusParams,
    headers: Seq<BlockHeader>,
    height: u32,
    d1: BlockDeployments,
    d2: BlockDeployments,
)
    requires
        d1.lock_time_active == spec_lock_time_active(consensus, headers, height),
        d2.lock_time_active == spec_lock_time_active(consensus, headers, height),
    ensures
        d1 == d2,
{
}

proof fn lemma_count_clip_low(headers: Seq<BlockHeader>, bit: u32, lo: int, hi: int)
    requires
        lo <= 0,
    ensures
        count_signals(headers, bit, lo, hi) == count_signals(headers, bit, 0, hi),
    decreases hi - lo,
{
    if hi > lo {
        if hi <= 0 {
            lemma_count_clip_low(headers, bit, lo, hi - 1);
        } else if hi > 0 {
            lemma_count_clip_low(headers, bit, lo, hi - 1);
        }
    }
}

proof fn lemma_count_clip_high(headers: Seq<BlockHeader>, bit: u32, lo: int, hi: int)
    requires
        hi >= headers.len(),
    ensures
        count_signals(headers, bit, lo, hi) == count_signals(
            headers,
            bit,
            lo,
            if lo >= headers.len() {
                lo
            } else {
                headers.len() as int
            },
        ),
    decreases hi - lo,
{
    if hi > lo && hi > headers.len() {
        lemma_count_clip_high(headers, bit, lo, hi - 1);
    }
}

impl BlockDeployments {
    /// Resolves the deployment snapshot for `height` against the header
    /// history of `blocks`.
    pub fn resolve(consensus: &ConsensusParams, height: u32, blocks: &Vec<Block>) -> (r:
        BlockDeployments)
        ensures
            r.lock_time_active == spec_lock_time_active(
                *consensus,
                header_history(blocks@),
                height,
            ),
    {
        let active: bool = match consensus.lock_time_deployment {
            Option::None => false,
            Option::Some(act) => activation_holds(act, height, blocks),
        };
        BlockDeployments { lock_time_active: active }
    }
}

/// Evaluates one activation predicate at `height`.
pub fn activation_holds(act: Activation, height: u32, blocks: &Vec<Block>) -> (r: bool)
    ensures
        r == spec_active(act, height, header_history(blocks@)),
{
    let ghost headers = header_history(blocks@);
    match act {
        Activation::AtHeight(a) => height >= a,
        Activation::Signalled { bit, window, threshold } => {
            let ghost spec_lo = height as int - window as int;
            let lo: usize = if window > height {
                0
            } else {
                (height - window) as usize
            };
            let hi: usize = if (height as usize) > blocks.len() {
                blocks.len()
            } else {
                height as usize
            };
            proof {
                if spec_lo <= 0 {
                    lemma_count_clip_low(headers, bit, spec_lo, height as int);
                }
                if height as int >= headers.len() {
                    lemma_count_clip_high(headers, bit, lo as int, height as int);
                }
                assert(count_signals(headers, bit, spec_lo, height as int) == count_signals(
                    headers,
                    bit,
                    lo as int,
                    hi as int,
                ));
            }
            let mut count: u64 = 0;
            let mut j: usize = lo;
            if lo >= hi {
                proof {
                    assert(count_signals(headers, bit, lo as int, hi as int) == 0);
                }
                return 0u64 >= threshold as u64;
            }
            while j < hi
                invariant
                    lo <= j <= hi,
                    hi <= blocks@.len(),
                    headers == header_history(blocks@),
                    count == count_signals(headers, bit, lo as int, j as int),
                    count <= j - lo,
                decreases hi - j,
            {
                let h = blocks[j].header;
                let signals: bool = if bit < 32 {
                    (h.version >> bit) & 1 == 1
                } else {
                    false
                };
                proof {
                    assert(headers[j as int] == blocks@[j as int].header);
                    assert(signals == spec_signals(headers[j as int], bit));
                }
                if signals {
                    count = count + 1;
                }
                j = j + 1;
            }
            count >= threshold as u64
        },
    }
}

} // verus!
