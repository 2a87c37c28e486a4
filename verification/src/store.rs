//! The chain store model: an append-only canonical chain plus accepted
//! side-chain blocks, block-origin classification, and output lookup
//! through a fork-overlay view.
//!
//! The overlay view of a fork descriptor `(fork_height, route)` is the
//! canonical chain up to and including `fork_height`, followed by the
//! pending branch blocks in ascending height order.  Verification reads
//! such a view; it never mutates the store.

use vstd::prelude::*;

use crate::chain::{Block, OutPoint, Transaction};
use crate::error::StoreError;

verus! {

// ---------------------------------------------------------------------------
// First-index searches

/// Index of the first block in `s` whose hash is `h`.
pub open spec fn first_block_with_hash(s: Seq<Block>, h: u64) -> Option<int>
    decreases s.len(),
{
    if s.len() == 0 {
        Option::None
    } else if s[0].hash == h {
        Option::Some(0int)
    } else {
        match first_block_with_hash(s.skip(1), h) {
            Option::Some(i) => Option::Some(i + 1),
            Option::None => Option::None,
        }
    }
}

pub proof fn lemma_first_block_with_hash(s: Seq<Block>, h: u64)
    ensures
        match first_block_with_hash(s, h) {
            Option::None => forall|k: int| 0 <= k < s.len() ==> s[k].hash != h,
            Option::Some(i) => 0 <= i < s.len() && s[i].hash == h && forall|k: int|
                0 <= k < i ==> s[k].hash != h,
        },
    decreases s.len(),
{
    if s.len() > 0 && s[0].hash != h {
        lemma_first_block_with_hash(s.skip(1), h);
        match first_block_with_hash(s.skip(1), h) {
            Option::None => {
                assert forall|k: int| 0 <= k < s.len() implies s[k].hash != h by {
                    if k > 0 {
                        assert(s[k] == s.skip(1)[k - 1]);
                    }
                }
            },
            Option::Some(i) => {
                assert(s[i + 1] == s.skip(1)[i]);
                assert forall|k: int| 0 <= k < i + 1 implies s[k].hash != h by {
                    if k > 0 {
                        assert(s[k] == s.skip(1)[k - 1]);
                    }
                }
            },
        }
    }
}

/// Whether `tx` provides the output that `op` references.
pub open spec fn tx_provides(tx: Transaction, op: OutPoint) -> bool {
    tx.hash == op.tx_hash && (op.index as int) < tx.outputs@.len()
}

/// Index of the first transaction in `txs` that provides `op`.
pub open spec fn first_tx_with_output(txs: Seq<Transaction>, op: OutPoint) -> Option<int>
    decreases txs.len(),
{
    if txs.len() == 0 {
        Option::None
    } else if tx_provides(txs[0], op) {
        Option::Some(0int)
    } else {
        match first_tx_with_output(txs.skip(1), op) {
            Option::Some(i) => Option::Some(i + 1),
            Option::None => Option::None,
        }
    }
}

pub proof fn lemma_first_tx_with_output(txs: Seq<Transaction>, op: OutPoint)
    ensures
        match first_tx_with_output(txs, op) {
            Option::None => forall|k: int| 0 <= k < txs.len() ==> !tx_provides(txs[k], op),
            Option::Some(i) => 0 <= i < txs.len() && tx_provides(txs[i], op) && forall|k: int|
                0 <= k < i ==> !tx_provides(txs[k], op),
        },
    decreases txs.len(),
{
    if txs.len() > 0 && !tx_provides(txs[0], op) {
        lemma_first_tx_with_output(txs.skip(1), op);
        match first_tx_with_output(txs.skip(1), op) {
            Option::None => {
                assert forall|k: int| 0 <= k < txs.len() implies !tx_provides(txs[k], op) by {
                    if k > 0 {
                        assert(txs[k] == txs.skip(1)[k - 1]);
                    }
                }
            },
            Option::Some(i) => {
                assert(txs[i + 1] == txs.skip(1)[i]);
                assert forall|k: int| 0 <= k < i + 1 implies !tx_provides(txs[k], op) by {
                    if k > 0 {
                        assert(txs[k] == txs.skip(1)[k - 1]);
                    }
                }
            },
        }
    }
}

/// Whether some transaction of `b` provides `op`.
pub open spec fn block_provides(b: Block, op: OutPoint) -> bool {
    first_tx_with_output(b.transactions@, op) is Some
}

/// Index of the first block in `view` that provides `op`.
pub open spec fn first_block_with_output(view: Seq<Block>, op: OutPoint) -> Option<int>
    decreases view.len(),
{
    if view.len() == 0 {
        Option::None
    } else if block_provides(view[0], op) {
        Option::Some(0int)
    } else {
        match first_block_with_output(view.skip(1), op) {
            Option::Some(i) => Option::Some(i + 1),
            Option::None => Option::None,
        }
    }
}

pub proof fn lemma_first_block_with_output(view: Seq<Block>, op: OutPoint)
    ensures
        match first_block_with_output(view, op) {
            Option::None => forall|k: int| 0 <= k < view.len() ==> !block_provides(view[k], op),
            Option::Some(i) => 0 <= i < view.len() && block_provides(view[i], op) && forall|k: int|
                0 <= k < i ==> !block_provides(view[k], op),
        },
    decreases view.len(),
{
    if view.len() > 0 && !block_provides(view[0], op) {
        lemma_first_block_with_output(view.skip(1), op);
        match first_block_with_output(view.skip(1), op) {
            Option::None => {
                assert forall|k: int| 0 <= k < view.len() implies !block_provides(view[k], op) by {
                    if k > 0 {
                        assert(view[k] == view.skip(1)[k - 1]);
                    }
                }
            },
            Option::Some(i) => {
                assert(view[i + 1] == view.skip(1)[i]);
                assert forall|k: int| 0 <= k < i + 1 implies !block_provides(view[k], op) by {
                    if k > 0 {
                        assert(view[k] == view.skip(1)[k - 1]);
                    }
                }
            },
        }
    }
}

// ---------------------------------------------------------------------------
// Output lookup

/// The value and coinbase flag of the output that `op` references, taken
/// from the first providing transaction of `txs`.
pub open spec fn find_output_in_txs(txs: Seq<Transaction>, op: OutPoint) -> Option<(u64, bool)> {
    match first_tx_with_output(txs, op) {
        Option::Some(i) => Option::Some(
            (txs[i].outputs@[op.index as int].value, txs[i].spec_is_coinbase()),
        ),
        Option::None => Option::None,
    }
}

/// The value, coinbase flag and confirming height of the output that `op`
/// references, taken from the first providing block of `view` (whose index
/// in the view is its height).
pub open spec fn find_output_in_view(view: Seq<Block>, op: OutPoint) -> Option<(u64, bool, int)> {
    match first_block_with_output(view, op) {
        Option::Some(i) => match find_output_in_txs(view[i].transactions@, op) {
            Option::Some((v, cb)) => Option::Some((v, cb, i)),
            Option::None => Option::None,
        },
        Option::None => Option::None,
    }
}

/// A resolved previous output: its value, whether its producing
/// transaction is a coinbase, and the height it was confirmed at.
#[derive(Clone, Copy, Debug)]
pub struct ResolvedOutput {
    pub value: u64,
    pub is_coinbase: bool,
    pub height: u32,
}

/// Looks `op` up among the transactions of one list.
pub fn find_output_in_transactions(txs: &Vec<Transaction>, op: OutPoint) -> (r: Option<(u64, bool)>)
    ensures
        r == find_output_in_txs(txs@, op),
{
    let mut i: usize = 0;
    while i < txs.len()
        invariant
            i <= txs@.len(),
            forall|k: int| 0 <= k < i ==> !tx_provides(txs@[k], op),
        decreases txs@.len() - i,
    {
        if txs[i].hash == op.tx_hash && (op.index as usize) < txs[i].outputs.len() {
            proof {
                lemma_first_tx_with_output(txs@, op);
                assert(tx_provides(txs@[i as int], op));
            }
            let cb = txs[i].is_coinbase();
            return Option::Some((txs[i].outputs[op.index as usize].value, cb));
        }
        i = i + 1;
    }
    proof {
        lemma_first_tx_with_output(txs@, op);
    }
    Option::None
}

/// The blocks a route of side-block indices stands for.
pub open spec fn route_blocks(side: Seq<Block>, idxs: Seq<usize>) -> Seq<Block> {
    idxs.map_values(|k: usize| side[k as int])
}

/// Looks `op` up in the overlay view `canon[..=fork_height] ++ route`,
/// where the route names blocks of `side` by index.
pub fn resolve_view_output(
    canon: &Vec<Block>,
    fork_height: usize,
    side: &Vec<Block>,
    route: &Vec<usize>,
    op: OutPoint,
) -> (r: Option<ResolvedOutput>)
    requires
        fork_height < canon@.len(),
        canon@.len() + route@.len() < 0x100000000,
        forall|k: int| 0 <= k < route@.len() ==> (route@[k] as int) < side@.len(),
    ensures
        ({
            let view = canon@.take(fork_height + 1) + route_blocks(side@, route@);
            match r {
                Option::None => find_output_in_view(view, op) is None,
                Option::Some(ro) => find_output_in_view(view, op) == Option::Some(
                    (ro.value, ro.is_coinbase, ro.height as int),
                ),
            }
        }),
{
    let ghost view = canon@.take(fork_height + 1) + route_blocks(side@, route@);
    let view_len: usize = fork_height + 1 + route.len();
    let mut i: usize = 0;
    while i < view_len
        invariant
            i <= view.len(),
            view_len == view.len(),
            view == canon@.take(fork_height + 1) + route_blocks(side@, route@),
            fork_height < canon@.len(),
            canon@.len() + route@.len() < 0x100000000,
            forall|k: int| 0 <= k < route@.len() ==> (route@[k] as int) < side@.len(),
            view_len == fork_height + 1 + route@.len(),
            forall|k: int| 0 <= k < i ==> !block_provides(view[k], op),
        decreases view.len() - i,
    {
        let b: &Block = if i <= fork_height {
            &canon[i]
        } else {
            &side[route[i - fork_height - 1]]
        };
        proof {
            assert(*b == view[i as int]);
        }
        match find_output_in_transactions(&b.transactions, op) {
            Option::Some((value, is_coinbase)) => {
                proof {
                    lemma_first_block_with_output(view, op);
                    assert(block_provides(view[i as int], op));
                }
                return Option::Some(ResolvedOutput { value, is_coinbase, height: i as u32 });
            },
            Option::None => {},
        }
        i = i + 1;
    }
    proof {
        lemma_first_block_with_output(view, op);
    }
    Option::None
}

// ---------------------------------------------------------------------------
// The store

/// Best tip of the store: its height and its block hash.
#[derive(Clone, Copy, Debug, PartialEq, Eq, Structural)]
pub struct BestBlock {
    pub number: u32,
    pub hash: u64,
}

/// Fork descriptor owned by a side-chain origin: the height the branch
/// forks off at, the pending branch blocks from the fork point to the
/// candidate's parent in ascending order (as indices into the store's
/// side blocks), and the candidate's resolved height.
#[derive(Clone, Debug)]
pub struct ForkOrigin {
    pub fork_height: u32,
    pub route: Vec<usize>,
    pub block_number: u32,
}

/// Classification of a candidate block relative to the store.
#[derive(Clone, Debug)]
pub enum BlockOrigin {
    /// The hash is already present; never a valid input to verification.
    KnownBlock,
    /// The candidate extends the current best tip.
    CanonChain { block_number: u32 },
    /// The candidate extends a branch that does not overtake the best chain.
    SideChain(ForkOrigin),
    /// The candidate extends a branch that now overtakes the best chain.
    SideChainBecomingCanon(ForkOrigin),
}

/// The canonical chain (index is height) plus accepted side-chain blocks.
#[derive(Clone, Debug)]
pub struct ChainStore {
    pub canon: Vec<Block>,
    pub side: Vec<Block>,
}

impl ChainStore {
    /// Every stored block, canonical chain first.
    pub open spec fn all_blocks(self) -> Seq<Block> {
        self.canon@ + self.side@
    }

    /// Well-formedness: a non-empty linked canonical chain, heights that
    /// fit the height type, distinct hashes, and side blocks whose parents
    /// are already stored (earlier in insertion order).
    pub open spec fn wf(self) -> bool {
        &&& self.canon@.len() >= 1
        &&& self.canon@.len() + self.side@.len() < 0x100000000
        &&& forall|i: int|
            1 <= i < self.canon@.len() ==> self.canon@[i].header.parent_hash == self.canon@[i
                - 1].hash
        &&& forall|i: int, j: int|
            0 <= i < j < self.all_blocks().len() ==> self.all_blocks()[i].hash
                != self.all_blocks()[j].hash
        &&& forall|j: int| 0 <= j < self.side@.len() ==> self.side_parent_known(j)
    }

    /// A side block's parent is canonical or stands earlier among the side
    /// blocks.
    pub open spec fn side_parent_known(self, j: int) -> bool {
        first_block_with_hash(self.canon@, self.side@[j].header.parent_hash) is Some || exists|
            k: int,
        | 0 <= k < j && self.side@[k].hash == self.side@[j].header.parent_hash
    }

    pub open spec fn spec_best_height(self) -> int {
        self.canon@.len() - 1
    }

    pub open spec fn spec_best_hash(self) -> u64 {
        self.canon@.last().hash
    }

    /// Hash of the canonical block at `height`, if there is one.
    pub open spec fn spec_hash_at(self, height: int) -> Option<u64> {
        if 0 <= height < self.canon@.len() {
            Option::Some(self.canon@[height].hash)
        } else {
            Option::None
        }
    }

    /// Whether a block with hash `h` is stored, canonical or not.
    pub open spec fn spec_contains(self, h: u64) -> bool {
        first_block_with_hash(self.canon@, h) is Some || first_block_with_hash(self.side@, h)
            is Some
    }

    /// The current best tip.
    pub fn best_block(&self) -> (r: BestBlock)
        requires
            self.wf(),
        ensures
            r.number == self.spec_best_height(),
            r.hash == self.spec_best_hash(),
    {
        let last: usize = self.canon.len() - 1;
        BestBlock { number: last as u32, hash: self.canon[last].hash }
    }

    /// Hash of the canonical block at `height`.
    pub fn block_hash(&self, height: u32) -> (r: Option<u64>)
        ensures
            r == self.spec_hash_at(height as int),
    {
        if (height as usize) < self.canon.len() {
            Option::Some(self.canon[height as usize].hash)
        } else {
            Option::None
        }
    }

    /// Whether a block with hash `h` is stored.
    pub fn contains_block(&self, h: u64) -> (r: bool)
        ensures
            r == self.spec_contains(h),
    {
        find_block_index(&self.canon, h).is_some() || find_block_index(&self.side, h).is_some()
    }
}

/// Index of the first block of `blocks` whose hash is `h`.
pub fn find_block_index(blocks: &Vec<Block>, h: u64) -> (r: Option<usize>)
    ensures
        match r {
            Option::Some(i) => first_block_with_hash(blocks@, h) == Option::Some(i as int),
            Option::None => first_block_with_hash(blocks@, h) is None,
        },
{
    let mut i: usize = 0;
    while i < blocks.len()
        invariant
            i <= blocks@.len(),
            forall|k: int| 0 <= k < i ==> blocks@[k].hash != h,
        decreases blocks@.len() - i,
    {
        if blocks[i].hash == h {
            proof {
                lemma_first_block_with_hash(blocks@, h);
            }
            return Option::Some(i);
        }
        i = i + 1;
    }
    proof {
        lemma_first_block_with_hash(blocks@, h);
    }
    Option::None
}

/// Consistency of the best tip: in a well-formed store the hash stored at
/// the best height is the best hash.  Verification only ever reads the
/// store, so this holds both before and after any verification call.
pub proof fn lemma_best_tip_consistent(s: ChainStore)
    requires
        s.wf(),
    ensures
        s.spec_hash_at(s.spec_best_height()) == Option::Some(s.spec_best_hash()),
{
}

// ---------------------------------------------------------------------------
// Origin classification

impl ChainStore {
    /// One more than the position of `h` among the side blocks, zero if it
    /// is not there: an upper bound on the parent-walk still ahead of `h`,
    /// since a well-formed store keeps every side block after its parent.
    pub open spec fn side_measure(self, h: u64) -> nat {
        match first_block_with_hash(self.side@, h) {
            Option::Some(j) => (j + 1) as nat,
            Option::None => 0,
        }
    }

    /// Walks parents from `h` to the canonical chain: the canonical height
    /// reached, and the side blocks passed, in ascending height order.
    /// `fuel` bounds the walk; any fuel above `side_measure(h)` gives the
    /// walk's true result.
    pub open spec fn spec_route(self, h: u64, fuel: nat) -> Option<(int, Seq<Block>)>
        decreases fuel,
    {
        match first_block_with_hash(self.canon@, h) {
            Option::Some(ch) => Option::Some((ch, Seq::<Block>::empty())),
            Option::None => {
                if fuel == 0 {
                    Option::None
                } else {
                    match first_block_with_hash(self.side@, h) {
                        Option::Some(j) => match self.spec_route(
                            self.side@[j].header.parent_hash,
                            (fuel - 1) as nat,
                        ) {
                            Option::Some((fh, r)) => Option::Some((fh, r.push(self.side@[j]))),
                            Option::None => Option::None,
                        },
                        Option::None => Option::None,
                    }
                }
            },
        }
    }

    /// The fork point and branch that the candidate block attaches to:
    /// the parent walk started at its parent hash, with fuel that always
    /// suffices.
    pub open spec fn spec_parent_route(self, b: Block) -> Option<(int, Seq<Block>)> {
        self.spec_route(b.header.parent_hash, (self.side@.len() + 1) as nat)
    }

    /// In a well-formed store the first side block with hash `h` has its
    /// parent strictly earlier in the walk order.
    proof fn lemma_side_step(self, h: u64, j: int)
        requires
            self.wf(),
            first_block_with_hash(self.side@, h) == Option::Some(j),
        ensures
            0 <= j < self.side@.len(),
            self.side_measure(self.side@[j].header.parent_hash) <= j,
        decreases 0nat,
    {
        lemma_first_block_with_hash(self.side@, h);
        let p = self.side@[j].header.parent_hash;
        assert(self.side_parent_known(j));
        match first_block_with_hash(self.side@, p) {
            Option::None => {},
            Option::Some(kf) => {
                lemma_first_block_with_hash(self.side@, p);
                if first_block_with_hash(self.canon@, p) is Some {
                    // p cannot be both canonical and a side block: hashes
                    // are distinct across the whole store.
                    match first_block_with_hash(self.canon@, p) {
                        Option::Some(ci) => {
                            lemma_first_block_with_hash(self.canon@, p);
                            assert(self.all_blocks()[ci] == self.canon@[ci]);
                            assert(self.all_blocks()[self.canon@.len() + kf] == self.side@[kf]);
                            assert(false);
                        },
                        Option::None => {},
                    }
                } else {
                    let k = choose|k: int|
                        0 <= k < j && self.side@[k].hash == self.side@[j].header.parent_hash;
                    assert(kf <= k);
                }
            },
        }
    }

    /// The walk's result does not depend on the fuel, once the fuel is
    /// above the measure.
    proof fn lemma_route_fuel(self, h: u64, f1: nat, f2: nat)
        requires
            self.wf(),
            f1 > self.side_measure(h),
            f2 > self.side_measure(h),
        ensures
            self.spec_route(h, f1) == self.spec_route(h, f2),
        decreases self.side_measure(h),
    {
        if first_block_with_hash(self.canon@, h) is None {
            match first_block_with_hash(self.side@, h) {
                Option::None => {},
                Option::Some(j) => {
                    self.lemma_side_step(h, j);
                    let p = self.side@[j].header.parent_hash;
                    self.lemma_route_fuel(p, (f1 - 1) as nat, (f2 - 1) as nat);
                },
            }
        }
    }

    /// Walks parents from `cur` to the canonical chain: the fork height
    /// plus the route of side-block indices, ascending, or nothing when
    /// the walk hits an unknown hash.
    fn find_route(&self, cur: u64) -> (r: Option<(usize, Vec<usize>)>)
        requires
            self.wf(),
        ensures
            match r {
                Option::Some(p) => {
                    &&& self.spec_route(cur, (self.side_measure(cur) + 1) as nat)
                        == Option::Some((p.0 as int, route_blocks(self.side@, p.1@)))
                    &&& (p.0 as int) < self.canon@.len()
                    &&& forall|i: int| 0 <= i < p.1@.len() ==> (p.1@[i] as int) < self.side@.len()
                    &&& p.1@.len() <= self.side_measure(cur)
                },
                Option::None => self.spec_route(cur, (self.side_measure(cur) + 1) as nat)
                    is None,
            },
        decreases self.side_measure(cur),
    {
        match find_block_index(&self.canon, cur) {
            Option::Some(ch) => {
                proof {
                    lemma_first_block_with_hash(self.canon@, cur);
                    assert(route_blocks(self.side@, Seq::<usize>::empty()) =~= Seq::<
                        Block,
                    >::empty());
                }
                Option::Some((ch, Vec::new()))
            },
            Option::None => {
                match find_block_index(&self.side, cur) {
                    Option::None => Option::None,
                    Option::Some(j) => {
                        proof {
                            self.lemma_side_step(cur, j as int);
                        }
                        let parent = self.side[j].header.parent_hash;
                        proof {
                            self.lemma_route_fuel(
                                parent,
                                (self.side_measure(parent) + 1) as nat,
                                self.side_measure(cur) as nat,
                            );
                        }
                        match self.find_route(parent) {
                            Option::None => Option::None,
                            Option::Some((fh, mut idxs)) => {
                                let ghost before = idxs@;
                                idxs.push(j);
                                proof {
                                    assert(idxs@.drop_last() =~= before);
                                    assert(route_blocks(self.side@, idxs@) =~= route_blocks(
                                        self.side@,
                                        before,
                                    ).push(self.side@[j as int]));
                                    assert(self.spec_route(
                                        cur,
                                        (self.side_measure(cur) + 1) as nat,
                                    ) == Option::Some(
                                        (fh as int, route_blocks(self.side@, idxs@)),
                                    ));
                                }
                                Option::Some((fh, idxs))
                            },
                        }
                    },
                }
            },
        }
    }

    /// Classifies a candidate block relative to the store: already known,
    /// an extension of the best tip, a side chain, or a side chain that
    /// overtakes the best chain; or the unknown-parent error when the
    /// block attaches to nothing stored.
    pub fn block_origin(&self, block: &Block) -> (r: Result<BlockOrigin, StoreError>)
        requires
            self.wf(),
        ensures
            match r {
                Result::Err(e) => {
                    &&& e == StoreError::UnknownParent
                    &&& self.spec_parent_route(*block) is None
                    &&& !self.spec_contains(block.hash)
                },
                Result::Ok(o) => match o {
                    BlockOrigin::KnownBlock => self.spec_contains(block.hash),
                    BlockOrigin::CanonChain { block_number } => {
                        &&& !self.spec_contains(block.hash)
                        &&& self.spec_parent_route(*block) == Option::Some(
                            (self.spec_best_height(), Seq::<Block>::empty()),
                        )
                        &&& block_number == self.canon@.len()
                    },
                    BlockOrigin::SideChain(fo) => {
                        &&& !self.spec_contains(block.hash)
                        &&& self.origin_fits(fo)
                        &&& fo.block_number <= self.spec_best_height()
                        &&& self.spec_parent_route(*block) == Option::Some(
                            (fo.fork_height as int, route_blocks(self.side@, fo.route@)),
                        )
                    },
                    BlockOrigin::SideChainBecomingCanon(fo) => {
                        &&& !self.spec_contains(block.hash)
                        &&& self.origin_fits(fo)
                        &&& fo.block_number > self.spec_best_height()
                        &&& !(fo.fork_height as int == self.spec_best_height()
                            && fo.route@.len() == 0)
                        &&& self.spec_parent_route(*block) == Option::Some(
                            (fo.fork_height as int, route_blocks(self.side@, fo.route@)),
                        )
                    },
                },
            },
    {
        if self.contains_block(block.hash) {
            return Result::Ok(BlockOrigin::KnownBlock);
        }
        proof {
            lemma_first_block_with_hash(self.side@, block.header.parent_hash);
            assert(self.side_measure(block.header.parent_hash) <= self.side@.len());
            self.lemma_route_fuel(
                block.header.parent_hash,
                (self.side_measure(block.header.parent_hash) + 1) as nat,
                (self.side@.len() + 1) as nat,
            );
        }
        match self.find_route(block.header.parent_hash) {
            Option::None => Result::Err(StoreError::UnknownParent),
            Option::Some((fh, idxs)) => {
                proof {
                    assert(fh + 1 + idxs@.len() < 0x100000000);
                }
                let number: usize = fh + 1 + idxs.len();
                let best: usize = self.canon.len() - 1;
                if fh == best && idxs.len() == 0 {
                    Result::Ok(BlockOrigin::CanonChain { block_number: number as u32 })
                } else {
                    let becoming = number > best;
                    let fo = ForkOrigin {
                        fork_height: fh as u32,
                        route: idxs,
                        block_number: number as u32,
                    };
                    if becoming {
                        Result::Ok(BlockOrigin::SideChainBecomingCanon(fo))
                    } else {
                        Result::Ok(BlockOrigin::SideChain(fo))
                    }
                }
            },
        }
    }

    /// A fork descriptor's indices lie within the side blocks, its heights
    /// fit, and its resolved height is the fork height plus the branch
    /// length plus one.
    pub open spec fn origin_fits(self, fo: ForkOrigin) -> bool {
        &&& (fo.fork_height as int) < self.canon@.len()
        &&& forall|i: int| 0 <= i < fo.route@.len() ==> (fo.route@[i] as int) < self.side@.len()
        &&& fo.route@.len() <= self.side@.len()
        &&& fo.block_number == fo.fork_height + 1 + fo.route@.len()
    }
}

} // verus!
