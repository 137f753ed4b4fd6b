//! The chain: an append-only, hash-linked sequence of blocks, together
//! with the ledger state that replaying it from genesis produces.
//!
//! Appending validates linkage, hash and height, then applies the block's
//! transactions and the producer's reward to a staged copy of the ledger,
//! committing only when every step succeeds. The only other permitted
//! mutation is reconciliation: adopting a strictly heavier valid chain.

use vstd::prelude::*;
use crate::block::{
    genesis_block, spec_block_hash, spec_block_views, spec_genesis, Block, BlockView,
};
use crate::consensus::{spec_weight, ConsensusStrategy, StrategyView};
use crate::ledger::{
    lemma_apply_tx_conserves_sum, lemma_credit_sum, spec_apply_tx, spec_apply_txs,
    spec_balance_of, spec_credit, spec_credit_saturating, spec_sum, AccountView, Ledger,
};
use crate::strutil::{spec_pair_views, str_eq};
use crate::transaction::TxView;

verus! {

/// The fixed reward credited to a block's producer when its block commits.
pub const BLOCK_REWARD: u64 = 100;

/// Why a candidate block was refused.
#[derive(Clone, Copy, PartialEq, Eq, Structural, Debug)]
pub enum ChainError {
    /// The block's parent link does not match the current tip's hash.
    BadLinkage,
    /// The block's stored hash is not the hash its fields demand.
    BadHash,
    /// The block's height is not exactly one past the tip's.
    BadIndex,
    /// A transaction or the reward could not be applied; the block is
    /// rejected wholesale and the ledger is untouched.
    BadTransaction,
}

/// The full effect of committing one block: its transactions in order,
/// then the fixed reward to its producer. The reward is a checked credit,
/// not a saturating one: a producer whose balance cannot hold the reward
/// has the block refused, which keeps replay deterministic and the
/// conservation law exact instead of silently truncating minted value.
pub open spec fn spec_apply_block(l: Seq<AccountView>, b: BlockView) -> Option<Seq<AccountView>> {
    match spec_apply_txs(l, b.transactions, b.producer) {
        Some(m) => spec_credit(m, b.producer, BLOCK_REWARD),
        None => None,
    }
}

/// Replays a sequence of committed blocks over a starting ledger.
pub open spec fn spec_replay(l0: Seq<AccountView>, bs: Seq<BlockView>) -> Option<Seq<AccountView>>
    decreases bs.len(),
{
    if bs.len() == 0 {
        Some(l0)
    } else {
        match spec_replay(l0, bs.drop_last()) {
            Some(m) => spec_apply_block(m, bs.last()),
            None => None,
        }
    }
}

/// The structural chain invariant: the fixed genesis block first, then
/// blocks whose height counts up, whose parent link is the previous hash,
/// and whose stored hash is the hash their fields demand.
pub open spec fn spec_chain_linked(bs: Seq<BlockView>) -> bool {
    &&& bs.len() >= 1
    &&& bs[0] == spec_genesis()
    &&& forall|i: int|
        1 <= i < bs.len() ==> {
            &&& (#[trigger] bs[i]).index == i
            &&& bs[i].previous_hash == bs[i - 1].hash
            &&& bs[i].hash == spec_block_hash(bs[i])
        }
}

/// The ledger a genesis allocation seeds: each entry credited in order.
pub open spec fn spec_init_ledger(alloc: Seq<(Seq<char>, u64)>) -> Seq<AccountView>
    decreases alloc.len(),
{
    if alloc.len() == 0 {
        Seq::empty()
    } else {
        spec_credit_saturating(
            spec_init_ledger(alloc.drop_last()),
            alloc.last().0,
            alloc.last().1,
        )
    }
}

/// A candidate chain is valid for a genesis allocation when it is
/// structurally linked and its committed blocks replay without failure
/// over the seeded ledger.
pub open spec fn spec_chain_valid(alloc: Seq<(Seq<char>, u64)>, bs: Seq<BlockView>) -> bool {
    spec_chain_linked(bs) && spec_replay(spec_init_ledger(alloc), bs.skip(1)) is Some
}

/// The fork-choice rule: a candidate replaces the incumbent exactly when
/// it is valid for the same genesis allocation and strictly heavier; on a
/// tie or anything less, the incumbent is kept.
pub open spec fn spec_replace(
    alloc: Seq<(Seq<char>, u64)>,
    s: StrategyView,
    cur: Seq<BlockView>,
    cand: Seq<BlockView>,
) -> Seq<BlockView> {
    if spec_chain_valid(alloc, cand) && spec_weight(s, cand) > spec_weight(s, cur) {
        cand
    } else {
        cur
    }
}

/// The verdict on appending `b` to a chain whose blocks are `bs` and whose
/// ledger is `l`; checks run in the order linkage, hash, height, ledger.
pub open spec fn spec_append_verdict(
    bs: Seq<BlockView>,
    l: Seq<AccountView>,
    b: BlockView,
) -> Result<(), ChainError>
    recommends
        bs.len() >= 1,
{
    if b.previous_hash != bs.last().hash {
        Err(ChainError::BadLinkage)
    } else if b.hash != spec_block_hash(b) {
        Err(ChainError::BadHash)
    } else if b.index != bs.last().index + 1 {
        Err(ChainError::BadIndex)
    } else if spec_apply_block(l, b) is None {
        Err(ChainError::BadTransaction)
    } else {
        Ok(())
    }
}

/// A failed prefix dooms the whole replay.
proof fn lemma_replay_fail_extends(l0: Seq<AccountView>, bs: Seq<BlockView>, k: int)
    requires
        0 <= k <= bs.len(),
        spec_replay(l0, bs.take(k)) is None,
    ensures
        spec_replay(l0, bs) is None,
    decreases bs.len() - k,
{
    if k < bs.len() {
        assert(bs.take(k + 1).drop_last() =~= bs.take(k));
        lemma_replay_fail_extends(l0, bs, k + 1);
    } else {
        assert(bs.take(k) =~= bs);
    }
}

/// A block that passes every append check extends a linked chain into a
/// linked chain, and extends its replay by exactly that block.
proof fn lemma_append_extends(
    bs: Seq<BlockView>,
    alloc: Seq<(Seq<char>, u64)>,
    lcur: Seq<AccountView>,
    b: BlockView,
    lnew: Seq<AccountView>,
)
    requires
        spec_chain_linked(bs),
        spec_replay(spec_init_ledger(alloc), bs.skip(1)) == Some(lcur),
        b.previous_hash == bs.last().hash,
        b.hash == spec_block_hash(b),
        b.index == bs.last().index + 1,
        spec_apply_block(lcur, b) == Some(lnew),
    ensures
        spec_chain_linked(bs.push(b)),
        spec_replay(spec_init_ledger(alloc), bs.push(b).skip(1)) == Some(lnew),
{
    let nv = bs.push(b);
    assert(bs[bs.len() - 1].index == bs.len() - 1 || bs.len() == 1);
    assert forall|i: int| 1 <= i < nv.len() implies {
        &&& (#[trigger] nv[i]).index == i
        &&& nv[i].previous_hash == nv[i - 1].hash
        &&& nv[i].hash == spec_block_hash(nv[i])
    } by {
        if i < nv.len() - 1 {
            assert(nv[i] == bs[i]);
            assert(nv[i - 1] == bs[i - 1]);
        } else {
            assert(nv[i] == b);
            assert(nv[i - 1] == bs[bs.len() - 1]);
        }
    }
    assert(nv.skip(1).drop_last() =~= bs.skip(1));
    assert(nv.skip(1).last() == b);
}

/// Seeds a ledger from a genesis allocation.
fn build_initial_ledger(alloc: &Vec<(String, u64)>) -> (l: Ledger)
    ensures
        l@ == spec_init_ledger(spec_pair_views(alloc@)),
        l.wf(),
{
    let ghost views = spec_pair_views(alloc@);
    let mut l = Ledger::new();
    let n: usize = alloc.len();
    let mut i: usize = 0;
    while i < n
        invariant
            n == alloc@.len(),
            n == views.len(),
            views == spec_pair_views(alloc@),
            i <= n,
            l.wf(),
            l@ == spec_init_ledger(views.take(i as int)),
        decreases n - i,
    {
        proof {
            assert(views.take(i + 1).drop_last() =~= views.take(i as int));
            assert(views.take(i + 1).last() == views[i as int]);
            assert(spec_pair_views(alloc@)[i as int] == (alloc@[i as int].0@, alloc@[i as int].1));
        }
        l.apply_reward(alloc[i].0.as_str(), alloc[i].1);
        i = i + 1;
    }
    proof {
        assert(views.take(n as int) =~= views);
    }
    l
}

/// Applies one block to a ledger in place: every transaction in order,
/// then the producer's reward. On failure the ledger may hold a partial
/// application and must be discarded by the caller.
fn apply_block_to(l: &mut Ledger, b: &Block) -> (ok: bool)
    requires
        old(l).wf(),
    ensures
        final(l).wf(),
        ok == (spec_apply_block(old(l)@, b@) is Some),
        ok ==> Some(final(l)@) == spec_apply_block(old(l)@, b@),
{
    if !l.apply_transactions(&b.transactions, b.producer.as_str()) {
        return false;
    }
    l.credit_checked(b.producer.as_str(), BLOCK_REWARD)
}

/// Replays a whole chain's committed blocks — everything after index zero
/// — over the ledger its genesis allocation seeds.
fn replay_blocks(alloc: &Vec<(String, u64)>, blocks: &Vec<Block>) -> (r: Option<Ledger>)
    requires
        blocks@.len() >= 1,
    ensures
        ({
            let outcome = spec_replay(
                spec_init_ledger(spec_pair_views(alloc@)),
                spec_block_views(blocks@).skip(1),
            );
            match r {
                Some(l) => outcome == Some(l@) && l.wf(),
                None => outcome is None,
            }
        }),
{
    let ghost bviews = spec_block_views(blocks@);
    let ghost l0 = spec_init_ledger(spec_pair_views(alloc@));
    let mut l = build_initial_ledger(alloc);
    let n: usize = blocks.len();
    let mut i: usize = 1;
    proof {
        assert(bviews.skip(1).take(0) =~= Seq::<BlockView>::empty());
    }
    while i < n
        invariant
            n == blocks@.len(),
            n == bviews.len(),
            bviews == spec_block_views(blocks@),
            l0 == spec_init_ledger(spec_pair_views(alloc@)),
            1 <= i <= n,
            l.wf(),
            Some(l@) == spec_replay(l0, bviews.skip(1).take(i - 1)),
        decreases n - i,
    {
        proof {
            assert(bviews.skip(1).take(i as int).drop_last() =~= bviews.skip(1).take(i - 1));
            assert(bviews.skip(1).take(i as int).last() == bviews[i as int]);
            assert(spec_block_views(blocks@)[i as int] == blocks@[i as int]@);
        }
        let ok = apply_block_to(&mut l, &blocks[i]);
        if !ok {
            proof {
                assert(spec_replay(l0, bviews.skip(1).take(i as int)) is None);
                lemma_replay_fail_extends(l0, bviews.skip(1), i as int);
            }
            return None;
        }
        i = i + 1;
    }
    proof {
        assert(bviews.skip(1).take(n - 1) =~= bviews.skip(1));
    }
    Some(l)
}

/// Checks the structural chain invariant: genesis first, counting heights,
/// matching parent links, and stored hashes that recompute correctly.
pub fn blocks_linked(blocks: &Vec<Block>) -> (r: bool)
    ensures
        r == spec_chain_linked(spec_block_views(blocks@)),
{
    let ghost bviews = spec_block_views(blocks@);
    let n: usize = blocks.len();
    if n == 0 {
        return false;
    }
    let g = genesis_block();
    let b0 = &blocks[0];
    proof {
        assert(spec_block_views(blocks@)[0] == blocks@[0]@);
    }
    let genesis_ok = b0.index == g.index && b0.timestamp == g.timestamp
        && b0.transactions.len() == 0 && str_eq(b0.previous_hash.as_str(), g.previous_hash.as_str())
        && str_eq(b0.producer.as_str(), g.producer.as_str()) && b0.nonce == g.nonce
        && str_eq(b0.hash.as_str(), g.hash.as_str());
    if !genesis_ok {
        proof {
            if bviews[0] == spec_genesis() {
                assert(bviews[0].transactions.len() == 0);
            }
        }
        return false;
    }
    proof {
        assert(bviews[0].transactions =~= spec_genesis().transactions);
        assert(bviews[0] =~= spec_genesis());
    }
    let mut i: usize = 1;
    while i < n
        invariant
            n == blocks@.len(),
            n == bviews.len(),
            bviews == spec_block_views(blocks@),
            1 <= i <= n,
            forall|j: int|
                1 <= j < i ==> {
                    &&& (#[trigger] bviews[j]).index == j
                    &&& bviews[j].previous_hash == bviews[j - 1].hash
                    &&& bviews[j].hash == spec_block_hash(bviews[j])
                },
        decreases n - i,
    {
        proof {
            assert(spec_block_views(blocks@)[i as int] == blocks@[i as int]@);
            assert(spec_block_views(blocks@)[i - 1] == blocks@[i - 1]@);
        }
        let b = &blocks[i];
        if b.index != i as u64 {
            return false;
        }
        if !str_eq(b.previous_hash.as_str(), blocks[i - 1].hash.as_str()) {
            return false;
        }
        let computed = b.calculate_hash();
        if !str_eq(computed.as_str(), b.hash.as_str()) {
            return false;
        }
        i = i + 1;
    }
    true
}

/// Checks full validity of a candidate chain for a genesis allocation:
/// structure plus a failure-free replay.
pub fn blocks_valid(alloc: &Vec<(String, u64)>, blocks: &Vec<Block>) -> (r: bool)
    ensures
        r == spec_chain_valid(spec_pair_views(alloc@), spec_block_views(blocks@)),
{
    if !blocks_linked(blocks) {
        return false;
    }
    match replay_blocks(alloc, blocks) {
        Some(_) => true,
        None => false,
    }
}

/// The chain a node holds: its genesis allocation, its blocks, and the
/// ledger that replaying the blocks from the allocation produces.
pub struct Chain {
    genesis_alloc: Vec<(String, u64)>,
    blocks: Vec<Block>,
    ledger: Ledger,
}

impl Chain {
    /// The blocks, genesis first.
    pub closed spec fn blocks_view(&self) -> Seq<BlockView> {
        spec_block_views(self.blocks@)
    }

    /// The ledger state the chain has produced.
    pub closed spec fn ledger_view(&self) -> Seq<AccountView> {
        self.ledger@
    }

    /// The genesis allocation the chain was started from.
    pub closed spec fn alloc_view(&self) -> Seq<(Seq<char>, u64)> {
        spec_pair_views(self.genesis_alloc@)
    }

    /// Every chain value is structurally valid and carries the ledger its
    /// own blocks replay to.
    #[verifier::type_invariant]
    spec fn inv(self) -> bool {
        &&& spec_chain_linked(self.blocks_view())
        &&& spec_replay(spec_init_ledger(self.alloc_view()), self.blocks_view().skip(1)) == Some(
            self.ledger@,
        )
        &&& self.ledger.wf()
    }

    /// Starts a chain from a genesis allocation: the fixed genesis block
    /// and the seeded ledger.
    pub fn new(genesis_alloc: Vec<(String, u64)>) -> (c: Chain)
        ensures
            c.alloc_view() == spec_pair_views(genesis_alloc@),
            c.blocks_view() =~= seq![spec_genesis()],
            c.ledger_view() == spec_init_ledger(spec_pair_views(genesis_alloc@)),
    {
        let ledger = build_initial_ledger(&genesis_alloc);
        let mut blocks: Vec<Block> = Vec::new();
        blocks.push(genesis_block());
        let c = Chain { genesis_alloc, blocks, ledger };
        proof {
            assert(c.blocks_view() =~= seq![spec_genesis()]);
            assert(c.blocks_view().skip(1) =~= Seq::<BlockView>::empty());
        }
        c
    }

    /// How many blocks the chain holds, genesis included.
    pub fn height(&self) -> (r: usize)
        ensures
            r == self.blocks_view().len(),
            r >= 1,
    {
        proof {
            use_type_invariant(&*self);
        }
        self.blocks.len()
    }

    /// The hash of the current tip.
    pub fn tip_hash(&self) -> (h: String)
        ensures
            h@ == self.blocks_view().last().hash,
    {
        proof {
            use_type_invariant(&*self);
        }
        let n = self.blocks.len();
        proof {
            assert(spec_block_views(self.blocks@)[n - 1] == self.blocks@[n - 1]@);
        }
        self.blocks[n - 1].hash.clone()
    }

    /// The height of the current tip.
    pub fn tip_index(&self) -> (r: u64)
        ensures
            r == self.blocks_view().last().index,
            r == self.blocks_view().len() - 1,
    {
        proof {
            use_type_invariant(&*self);
        }
        let n = self.blocks.len();
        proof {
            assert(spec_block_views(self.blocks@)[n - 1] == self.blocks@[n - 1]@);
            if n > 1 {
                assert(self.blocks_view()[n - 1].index == n - 1);
            }
        }
        self.blocks[n - 1].index
    }

    /// The balance the chain's ledger records for `address`.
    pub fn get_balance(&self, address: &str) -> (r: u64)
        ensures
            r == spec_balance_of(self.ledger_view(), address@),
    {
        self.ledger.get_balance(address)
    }

    /// The chain's ledger, for read-only queries.
    pub fn ledger(&self) -> (l: &Ledger)
        ensures
            l@ == self.ledger_view(),
            l.wf(),
    {
        proof {
            use_type_invariant(&*self);
        }
        &self.ledger
    }

    /// A read-only copy of the blocks.
    pub fn blocks_snapshot(&self) -> (r: Vec<Block>)
        ensures
            spec_block_views(r@) == self.blocks_view(),
    {
        let r = self.blocks.clone();
        proof {
            assert(spec_block_views(r@) =~= spec_block_views(self.blocks@));
        }
        r
    }

    /// Replays the chain's own blocks from its genesis allocation and
    /// recomputes every hash. A chain built through `new` and `append`
    /// alone always passes: this is the self-check form of the chain
    /// validity law.
    pub fn is_valid(&self) -> (r: bool)
        ensures
            r == spec_chain_valid(self.alloc_view(), self.blocks_view()),
            r,
    {
        proof {
            use_type_invariant(&*self);
        }
        blocks_valid(&self.genesis_alloc, &self.blocks)
    }

    /// Appends a block: refuses it when its parent link, stored hash or
    /// height is wrong, or when its transactions or reward cannot be
    /// applied; commits the block and the new ledger state atomically
    /// otherwise.
    #[verifier::rlimit(50)]
    pub fn append(&mut self, block: Block) -> (r: Result<(), ChainError>)
        ensures
            r == spec_append_verdict(
                old(self).blocks_view(),
                old(self).ledger_view(),
                block@,
            ),
            final(self).alloc_view() == old(self).alloc_view(),
            r is Ok ==> final(self).blocks_view() == old(self).blocks_view().push(block@)
                && Some(final(self).ledger_view()) == spec_apply_block(
                old(self).ledger_view(),
                block@,
            ),
            r is Err ==> final(self).blocks_view() == old(self).blocks_view()
                && final(self).ledger_view() == old(self).ledger_view(),
    {
        proof {
            use_type_invariant(&*self);
        }
        let n = self.blocks.len();
        proof {
            assert(spec_block_views(self.blocks@)[n - 1] == self.blocks@[n - 1]@);
        }
        if !str_eq(block.previous_hash.as_str(), self.blocks[n - 1].hash.as_str()) {
            return Err(ChainError::BadLinkage);
        }
        let computed = block.calculate_hash();
        if !str_eq(computed.as_str(), block.hash.as_str()) {
            return Err(ChainError::BadHash);
        }
        let index_ok = match self.blocks[n - 1].index.checked_add(1) {
            Some(next) => block.index == next,
            None => false,
        };
        if !index_ok {
            return Err(ChainError::BadIndex);
        }
        let mut staged = self.ledger.clone_accounts();
        if !apply_block_to(&mut staged, &block) {
            return Err(ChainError::BadTransaction);
        }
        let alloc = clone_pairs(&self.genesis_alloc);
        let mut blocks = self.blocks.clone();
        proof {
            assert(spec_block_views(blocks@) =~= old(self).blocks_view());
        }
        let ghost old_views = spec_block_views(blocks@);
        proof {
            lemma_append_extends(
                old_views,
                old(self).alloc_view(),
                old(self).ledger_view(),
                block@,
                staged@,
            );
        }
        blocks.push(block);
        proof {
            assert(spec_block_views(blocks@) =~= old_views.push(block@));
            assert(spec_pair_views(alloc@) =~= old(self).alloc_view());
        }
        let next = Chain { genesis_alloc: alloc, blocks, ledger: staged };
        *self = next;
        Ok(())
    }

    /// The fork-choice rule: adopts `candidate` exactly when it is valid
    /// for this chain's genesis allocation and strictly heavier under
    /// `strategy`; a tie or a lighter or invalid candidate leaves the
    /// incumbent untouched.
    pub fn replace_if_heavier(
        &mut self,
        candidate: Vec<Block>,
        strategy: &ConsensusStrategy,
    ) -> (r: bool)
        ensures
            final(self).alloc_view() == old(self).alloc_view(),
            r == (spec_chain_valid(old(self).alloc_view(), spec_block_views(candidate@))
                && spec_weight(strategy@, spec_block_views(candidate@)) > spec_weight(
                strategy@,
                old(self).blocks_view(),
            )),
            final(self).blocks_view() == spec_replace(
                old(self).alloc_view(),
                strategy@,
                old(self).blocks_view(),
                spec_block_views(candidate@),
            ),
            r ==> Some(final(self).ledger_view()) == spec_replay(
                spec_init_ledger(old(self).alloc_view()),
                spec_block_views(candidate@).skip(1),
            ),
            !r ==> final(self).blocks_view() == old(self).blocks_view()
                && final(self).ledger_view() == old(self).ledger_view(),
    {
        proof {
            use_type_invariant(&*self);
        }
        if !blocks_linked(&candidate) {
            return false;
        }
        let new_ledger = match replay_blocks(&self.genesis_alloc, &candidate) {
            Some(l) => l,
            None => {
                return false;
            },
        };
        let cand_weight = strategy.weight(&candidate);
        let own_weight = strategy.weight(&self.blocks);
        if cand_weight <= own_weight {
            return false;
        }
        let alloc = clone_pairs(&self.genesis_alloc);
        proof {
            assert(spec_pair_views(alloc@) =~= spec_pair_views(self.genesis_alloc@));
            assert(spec_replay(
                spec_init_ledger(spec_pair_views(alloc@)),
                spec_block_views(candidate@).skip(1),
            ) == Some(new_ledger@));
        }
        let next = Chain { genesis_alloc: alloc, blocks: candidate, ledger: new_ledger };
        *self = next;
        true
    }
}

/// A copy of an address/amount list carrying the same mathematical value.
fn clone_pairs(pairs: &Vec<(String, u64)>) -> (r: Vec<(String, u64)>)
    ensures
        spec_pair_views(r@) == spec_pair_views(pairs@),
{
    let n: usize = pairs.len();
    let mut r: Vec<(String, u64)> = Vec::new();
    let mut i: usize = 0;
    while i < n
        invariant
            n == pairs@.len(),
            i <= n,
            r@.len() == i,
            forall|j: int|
                0 <= j < i ==> (#[trigger] r@[j]).0@ == pairs@[j].0@ && r@[j].1 == pairs@[j].1,
        decreases n - i,
    {
        r.push((pairs[i].0.clone(), pairs[i].1));
        i = i + 1;
    }
    proof {
        assert(spec_pair_views(r@) =~= spec_pair_views(pairs@));
    }
    r
}

/// Conservation across a block: applying a block's transactions moves
/// value only between accounts, so committing the block raises the total
/// of all balances by exactly the fixed block reward.
pub proof fn lemma_block_conserves_supply(l: Seq<AccountView>, b: BlockView)
    requires
        spec_apply_block(l, b) is Some,
    ensures
        spec_sum(spec_apply_block(l, b).unwrap()) == spec_sum(l) + BLOCK_REWARD,
{
    lemma_apply_txs_conserve_sum(l, b.transactions, b.producer);
    let m = spec_apply_txs(l, b.transactions, b.producer).unwrap();
    lemma_credit_sum(m, b.producer, BLOCK_REWARD);
}

/// Applying a sequence of transactions conserves the total of balances.
proof fn lemma_apply_txs_conserve_sum(l: Seq<AccountView>, ts: Seq<TxView>, producer: Seq<char>)
    requires
        spec_apply_txs(l, ts, producer) is Some,
    ensures
        spec_sum(spec_apply_txs(l, ts, producer).unwrap()) == spec_sum(l),
    decreases ts.len(),
{
    if ts.len() > 0 {
        lemma_apply_txs_conserve_sum(l, ts.drop_last(), producer);
        let m = spec_apply_txs(l, ts.drop_last(), producer).unwrap();
        lemma_apply_tx_conserves_sum(m, ts.last(), producer);
    }
}

/// Corruption is caught: flipping the parent link of any non-genesis block
/// of a valid chain breaks the structural invariant, so validation fails.
pub proof fn lemma_corrupt_link_invalidates(
    alloc: Seq<(Seq<char>, u64)>,
    bs: Seq<BlockView>,
    i: int,
    forged: Seq<char>,
)
    requires
        spec_chain_valid(alloc, bs),
        1 <= i < bs.len(),
        forged != bs[i].previous_hash,
    ensures
        !spec_chain_valid(
            alloc,
            bs.update(
                i,
                BlockView {
                    index: bs[i].index,
                    timestamp: bs[i].timestamp,
                    transactions: bs[i].transactions,
                    previous_hash: forged,
                    producer: bs[i].producer,
                    nonce: bs[i].nonce,
                    hash: bs[i].hash,
                },
            ),
        ),
{
    let forged_block = BlockView {
        index: bs[i].index,
        timestamp: bs[i].timestamp,
        transactions: bs[i].transactions,
        previous_hash: forged,
        producer: bs[i].producer,
        nonce: bs[i].nonce,
        hash: bs[i].hash,
    };
    let bs2 = bs.update(i, forged_block);
    if spec_chain_linked(bs2) {
        assert(bs2[i].previous_hash == bs2[i - 1].hash);
        assert(bs2[i - 1] == bs[i - 1]);
        assert(bs[i].previous_hash == bs[i - 1].hash);
        assert(false);
    }
}

/// Fork choice is deterministic: given two valid chains from one genesis
/// allocation and one strictly heavier, both orders of exchange end with
/// the heavier chain — the node holding the lighter chain adopts, the
/// node holding the heavier keeps its own.
pub proof fn lemma_fork_choice_deterministic(
    alloc: Seq<(Seq<char>, u64)>,
    s: StrategyView,
    heavier: Seq<BlockView>,
    lighter: Seq<BlockView>,
)
    requires
        spec_chain_valid(alloc, heavier),
        spec_chain_valid(alloc, lighter),
        spec_weight(s, heavier) > spec_weight(s, lighter),
    ensures
        spec_replace(alloc, s, lighter, heavier) == heavier,
        spec_replace(alloc, s, heavier, lighter) == heavier,
{
}

/// A tie keeps the incumbent: a candidate of equal weight never replaces
/// the chain a node already holds, whichever node receives it.
pub proof fn lemma_fork_choice_tie_keeps_incumbent(
    alloc: Seq<(Seq<char>, u64)>,
    s: StrategyView,
    incumbent: Seq<BlockView>,
    candidate: Seq<BlockView>,
)
    requires
        spec_weight(s, candidate) == spec_weight(s, incumbent),
    ensures
        spec_replace(alloc, s, incumbent, candidate) == incumbent,
{
}

} // verus!
