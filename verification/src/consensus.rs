//! Pluggable block production: proof-of-work nonce search or stake-weighted
//! leader election.
//!
//! A strategy decides who may produce the next block, seals candidate
//! blocks, weighs whole chains for fork choice, and validates the
//! consensus proof a block carries.

use vstd::prelude::*;
use crate::block::{
    spec_block_hash, spec_block_hash_parts, spec_block_views, spec_meets_difficulty, Block,
    BlockView,
};
use crate::strutil::{spec_pair_views, str_eq};
use crate::transaction::{spec_tx_views, Transaction};

verus! {

/// The mathematical value of a strategy.
pub enum StrategyView {
    ProofOfWork { difficulty: usize },
    StakeWeighted { stakes: Seq<(Seq<char>, u64)> },
}

/// The block-production rules a node runs under.
pub enum ConsensusStrategy {
    /// Open production: any producer whose sealed block's hash meets the
    /// difficulty. A chain's weight is its count of committed blocks.
    ProofOfWork { difficulty: usize },
    /// Leader election weighted by registered stakes; the local random
    /// draw stands in for a verifiable draw and suits single-node
    /// simulation only. A chain's weight is its producers' total stake.
    StakeWeighted { stakes: Vec<(String, u64)> },
}

impl View for ConsensusStrategy {
    type V = StrategyView;

    open spec fn view(&self) -> StrategyView {
        match self {
            ConsensusStrategy::ProofOfWork { difficulty } => StrategyView::ProofOfWork {
                difficulty: *difficulty,
            },
            ConsensusStrategy::StakeWeighted { stakes } => StrategyView::StakeWeighted {
                stakes: spec_pair_views(stakes@),
            },
        }
    }
}

/// The stake registered for `addr`: the first matching entry, or zero.
pub open spec fn spec_stake_of(stakes: Seq<(Seq<char>, u64)>, addr: Seq<char>) -> u64
    decreases stakes.len(),
{
    if stakes.len() == 0 {
        0
    } else if stakes[0].0 == addr {
        stakes[0].1
    } else {
        spec_stake_of(stakes.drop_first(), addr)
    }
}

/// The total registered stake.
pub open spec fn spec_total_stake(stakes: Seq<(Seq<char>, u64)>) -> int
    decreases stakes.len(),
{
    if stakes.len() == 0 {
        0
    } else {
        stakes.last().1 + spec_total_stake(stakes.drop_last())
    }
}

/// The owner of the stake bucket containing `point`, walking entries in
/// registration order.
pub open spec fn spec_owner_at(stakes: Seq<(Seq<char>, u64)>, point: int) -> Option<Seq<char>>
    decreases stakes.len(),
{
    if stakes.len() == 0 {
        None
    } else if point < stakes[0].1 {
        Some(stakes[0].0)
    } else {
        spec_owner_at(stakes.drop_first(), point - stakes[0].1)
    }
}

/// The total stake of the producers of `bs`.
pub open spec fn spec_chain_stake(stakes: Seq<(Seq<char>, u64)>, bs: Seq<BlockView>) -> int
    decreases bs.len(),
{
    if bs.len() == 0 {
        0
    } else {
        spec_chain_stake(stakes, bs.drop_last()) + spec_stake_of(stakes, bs.last().producer)
    }
}

/// A chain's weight under a strategy, counted over its committed blocks —
/// everything after the genesis block. Proof-of-work weighs by count,
/// stake-weighted election by the producers' registered stakes.
pub open spec fn spec_weight(s: StrategyView, bs: Seq<BlockView>) -> int {
    match s {
        StrategyView::ProofOfWork { .. } => bs.len() - 1,
        StrategyView::StakeWeighted { stakes } => spec_chain_stake(stakes, bs.skip(1)),
    }
}

/// Relies on rand's `Rng::gen_range`: the draw lies below the bound; the
/// range is nonempty, so the call cannot panic. Nothing else can be
/// promised of a random draw.
#[verifier::external_body]
fn draw_below(bound: u64) -> (r: u64)
    requires
        bound > 0,
    ensures
        r < bound,
{
    rand::Rng::gen_range(&mut rand::thread_rng(), 0..bound)
}

/// A single stake fits the balance type.
proof fn lemma_stake_of_bound(stakes: Seq<(Seq<char>, u64)>, addr: Seq<char>)
    ensures
        0 <= spec_stake_of(stakes, addr) <= u64::MAX,
{
}

/// A bucket walk from any point below the total lands on an entry with
/// positive stake.
proof fn lemma_owner_at_lands(stakes: Seq<(Seq<char>, u64)>, point: int)
    requires
        0 <= point < spec_total_stake(stakes),
    ensures
        spec_owner_at(stakes, point) is Some,
        exists|i: int|
            0 <= i < stakes.len() && stakes[i].0 == spec_owner_at(stakes, point).unwrap()
                && stakes[i].1 > 0,
    decreases stakes.len(),
{
    lemma_total_stake_split(stakes);
    if point < stakes[0].1 {
        assert(stakes[0].0 == spec_owner_at(stakes, point).unwrap() && stakes[0].1 > 0);
    } else {
        lemma_owner_at_lands(stakes.drop_first(), point - stakes[0].1);
        let j = choose|j: int|
            0 <= j < stakes.drop_first().len() && stakes.drop_first()[j].0 == spec_owner_at(
                stakes.drop_first(),
                point - stakes[0].1,
            ).unwrap() && stakes.drop_first()[j].1 > 0;
        assert(stakes[j + 1].0 == spec_owner_at(stakes, point).unwrap() && stakes[j + 1].1 > 0);
    }
}

/// The total stake seen from the head entry.
proof fn lemma_total_stake_split(stakes: Seq<(Seq<char>, u64)>)
    requires
        stakes.len() > 0,
    ensures
        spec_total_stake(stakes) == stakes[0].1 + spec_total_stake(stakes.drop_first()),
    decreases stakes.len(),
{
    if stakes.len() == 1 {
        assert(stakes.drop_first() =~= Seq::<(Seq<char>, u64)>::empty());
        assert(stakes.drop_last() =~= Seq::<(Seq<char>, u64)>::empty());
        assert(stakes.last() == stakes[0]);
    } else {
        lemma_total_stake_split(stakes.drop_last());
        assert(stakes.drop_last().drop_first() =~= stakes.drop_first().drop_last());
        assert(stakes.drop_last()[0] == stakes[0]);
        assert(stakes.drop_first().last() == stakes.last());
    }
}

impl ConsensusStrategy {
    /// The total registered stake; zero under proof-of-work.
    fn total_stake(&self) -> (r: u128)
        ensures
            r == match self@ {
                StrategyView::ProofOfWork { .. } => 0,
                StrategyView::StakeWeighted { stakes } => spec_total_stake(stakes),
            },
    {
        match self {
            ConsensusStrategy::ProofOfWork { .. } => 0,
            ConsensusStrategy::StakeWeighted { stakes } => {
                let ghost views = spec_pair_views(stakes@);
                let n: usize = stakes.len();
                let mut acc: u128 = 0;
                let mut i: usize = 0;
                while i < n
                    invariant
                        n == views.len(),
                        n == stakes@.len(),
                        views == spec_pair_views(stakes@),
                        i <= n,
                        acc == spec_total_stake(views.take(i as int)),
                        acc <= i * (u64::MAX as int),
                    decreases n - i,
                {
                    proof {
                        assert(views.take(i + 1).drop_last() =~= views.take(i as int));
                        assert(views.take(i + 1).last() == views[i as int]);
                        assert(i * (u64::MAX as int) + (u64::MAX as int) == (i + 1) * (
                        u64::MAX as int)) by (nonlinear_arith);
                        assert((i + 1) * (u64::MAX as int) <= (u64::MAX as int) * (
                        u64::MAX as int)) by (nonlinear_arith)
                            requires
                                0 <= i,
                                i + 1 <= u64::MAX,
                        ;
                    }
                    acc = acc + stakes[i].1 as u128;
                    i = i + 1;
                }
                proof {
                    assert(views.take(n as int) =~= views);
                }
                acc
            },
        }
    }

    /// The stake registered for `addr`; zero under proof-of-work.
    pub fn stake_of(&self, addr: &str) -> (r: u64)
        ensures
            r == match self@ {
                StrategyView::ProofOfWork { .. } => 0u64,
                StrategyView::StakeWeighted { stakes } => spec_stake_of(stakes, addr@),
            },
    {
        match self {
            ConsensusStrategy::ProofOfWork { .. } => 0,
            ConsensusStrategy::StakeWeighted { stakes } => {
                let ghost views = spec_pair_views(stakes@);
                let n: usize = stakes.len();
                proof {
                    assert(views.skip(0) =~= views);
                }
                let mut i: usize = 0;
                while i < n
                    invariant
                        n == views.len(),
                        n == stakes@.len(),
                        i <= n,
                        views == spec_pair_views(stakes@),
                        self@ == (StrategyView::StakeWeighted { stakes: views }),
                        spec_stake_of(views, addr@) == spec_stake_of(
                            views.skip(i as int),
                            addr@,
                        ),
                    decreases n - i,
                {
                    proof {
                        assert(views.skip(i as int)[0] == views[i as int]);
                        assert(views.skip(i as int).drop_first() =~= views.skip(i + 1));
                        assert(spec_pair_views(stakes@)[i as int] == (
                            stakes@[i as int].0@,
                            stakes@[i as int].1,
                        ));
                    }
                    if str_eq(stakes[i].0.as_str(), addr) {
                        return stakes[i].1;
                    }
                    i = i + 1;
                }
                proof {
                    assert(views.skip(n as int) =~= Seq::<(Seq<char>, u64)>::empty());
                }
                0
            },
        }
    }

    /// The owner of the stake bucket containing `point`.
    pub fn owner_at_point(&self, point: u64) -> (r: Option<String>)
        ensures
            match self@ {
                StrategyView::ProofOfWork { .. } => r is None,
                StrategyView::StakeWeighted { stakes } => match r {
                    Some(a) => spec_owner_at(stakes, point as int) == Some(a@),
                    None => spec_owner_at(stakes, point as int) is None,
                },
            },
    {
        match self {
            ConsensusStrategy::ProofOfWork { .. } => None,
            ConsensusStrategy::StakeWeighted { stakes } => {
                let ghost views = spec_pair_views(stakes@);
                let n: usize = stakes.len();
                proof {
                    assert(views.skip(0) =~= views);
                }
                let mut rest: u64 = point;
                let mut i: usize = 0;
                while i < n
                    invariant
                        n == views.len(),
                        n == stakes@.len(),
                        i <= n,
                        views == spec_pair_views(stakes@),
                        self@ == (StrategyView::StakeWeighted { stakes: views }),
                        spec_owner_at(views, point as int) == spec_owner_at(
                            views.skip(i as int),
                            rest as int,
                        ),
                    decreases n - i,
                {
                    proof {
                        assert(views.skip(i as int)[0] == views[i as int]);
                        assert(views.skip(i as int).drop_first() =~= views.skip(i + 1));
                        assert(spec_pair_views(stakes@)[i as int] == (
                            stakes@[i as int].0@,
                            stakes@[i as int].1,
                        ));
                    }
                    if rest < stakes[i].1 {
                        return Some(stakes[i].0.clone());
                    }
                    rest = rest - stakes[i].1;
                    i = i + 1;
                }
                proof {
                    assert(views.skip(n as int) =~= Seq::<(Seq<char>, u64)>::empty());
                }
                None
            },
        }
    }

    /// Who may produce the next block. Proof-of-work names nobody —
    /// production is open. Stake-weighted election draws a point below the
    /// total stake and walks the buckets: whatever the draw, the elected
    /// producer holds positive stake, and nobody is elected exactly when
    /// nothing is staked.
    pub fn select_producer(&self) -> (r: Option<String>)
        ensures
            match self@ {
                StrategyView::ProofOfWork { .. } => r is None,
                StrategyView::StakeWeighted { stakes } => {
                    &&& (r is None <==> spec_total_stake(stakes) == 0)
                    &&& match r {
                        Some(a) => exists|i: int|
                            0 <= i < stakes.len() && stakes[i].0 == a@ && stakes[i].1 > 0,
                        None => true,
                    }
                },
            },
    {
        match self {
            ConsensusStrategy::ProofOfWork { .. } => None,
            ConsensusStrategy::StakeWeighted { stakes } => {
                let ghost views = spec_pair_views(stakes@);
                let total: u128 = self.total_stake();
                if total == 0 {
                    return None;
                }
                let bound: u64 = if total > u64::MAX as u128 {
                    u64::MAX
                } else {
                    total as u64
                };
                let point: u64 = draw_below(bound);
                proof {
                    lemma_owner_at_lands(views, point as int);
                }
                let r = self.owner_at_point(point);
                proof {
                    let a = spec_owner_at(views, point as int).unwrap();
                    assert(exists|i: int|
                        0 <= i < views.len() && views[i].0 == a && views[i].1 > 0);
                    let i = choose|i: int|
                        0 <= i < views.len() && views[i].0 == a && views[i].1 > 0;
                    assert(stakes@[i].0@ == a && stakes@[i].1 > 0);
                }
                r
            },
        }
    }

    /// Seals a candidate block under this strategy's rules. Proof-of-work
    /// searches nonces upward from zero for a hash that meets the
    /// difficulty — the stamped nonce is the least that does — and fails
    /// exactly when none below `max_attempts` does; stake-weighted sealing
    /// stamps the block directly and always succeeds.
    pub fn seal_block(
        &self,
        index: u64,
        timestamp: u64,
        previous_hash: String,
        transactions: Vec<Transaction>,
        producer: String,
        max_attempts: u64,
    ) -> (r: Option<Block>)
        ensures
            match r {
                Some(b) => {
                    &&& b@.index == index
                    &&& b@.timestamp == timestamp
                    &&& b@.transactions == spec_tx_views(transactions@)
                    &&& b@.previous_hash == previous_hash@
                    &&& b@.producer == producer@
                    &&& b@.hash == spec_block_hash(b@)
                    &&& match self@ {
                        StrategyView::ProofOfWork { difficulty } => spec_meets_difficulty(
                            b@.hash,
                            difficulty as int,
                        ) && forall|n: u64|
                            n < b@.nonce ==> !spec_meets_difficulty(
                                spec_block_hash_parts(
                                    index,
                                    timestamp,
                                    spec_tx_views(transactions@),
                                    previous_hash@,
                                    producer@,
                                    n,
                                ),
                                difficulty as int,
                            ),
                        StrategyView::StakeWeighted { .. } => true,
                    }
                },
                None => match self@ {
                    StrategyView::ProofOfWork { difficulty } => forall|n: u64|
                        n < max_attempts ==> !spec_meets_difficulty(
                            spec_block_hash_parts(
                                index,
                                timestamp,
                                spec_tx_views(transactions@),
                                previous_hash@,
                                producer@,
                                n,
                            ),
                            difficulty as int,
                        ),
                    StrategyView::StakeWeighted { .. } => false,
                },
            },
    {
        match self {
            ConsensusStrategy::ProofOfWork { difficulty } => Block::new(
                index,
                timestamp,
                previous_hash,
                transactions,
                producer,
                *difficulty,
                max_attempts,
            ),
            ConsensusStrategy::StakeWeighted { .. } => {
                let r = Block::new(index, timestamp, previous_hash, transactions, producer, 0, 1);
                proof {
                    if r is None {
                        assert(!spec_meets_difficulty(
                            spec_block_hash_parts(
                                index,
                                timestamp,
                                spec_tx_views(transactions@),
                                previous_hash@,
                                producer@,
                                0u64,
                            ),
                            0,
                        ));
                        assert(false);
                    }
                }
                r
            },
        }
    }

    /// Validates the consensus proof a block carries: under proof-of-work,
    /// that its hash meets the difficulty; under stake-weighted election,
    /// that its producer holds positive stake.
    pub fn validate_proof(&self, block: &Block) -> (r: bool)
        ensures
            r == match self@ {
                StrategyView::ProofOfWork { difficulty } => spec_meets_difficulty(
                    block@.hash,
                    difficulty as int,
                ),
                StrategyView::StakeWeighted { stakes } => spec_stake_of(stakes, block@.producer)
                    > 0,
            },
    {
        match self {
            ConsensusStrategy::ProofOfWork { difficulty } => crate::block::meets_difficulty(
                block.hash.as_str(),
                *difficulty,
            ),
            ConsensusStrategy::StakeWeighted { .. } => self.stake_of(block.producer.as_str()) > 0,
        }
    }

    /// A chain's weight under this strategy, for fork choice.
    pub fn weight(&self, blocks: &Vec<Block>) -> (w: u128)
        requires
            blocks@.len() >= 1,
        ensures
            w == spec_weight(self@, spec_block_views(blocks@)),
    {
        let ghost bviews = spec_block_views(blocks@);
        match self {
            ConsensusStrategy::ProofOfWork { .. } => (blocks.len() - 1) as u128,
            ConsensusStrategy::StakeWeighted { stakes } => {
                let ghost sviews = spec_pair_views(stakes@);
                let n: usize = blocks.len();
                let mut acc: u128 = 0;
                let mut i: usize = 1;
                while i < n
                    invariant
                        n == bviews.len(),
                        n == blocks@.len(),
                        n >= 1,
                        1 <= i <= n,
                        sviews == spec_pair_views(stakes@),
                        self@ == (StrategyView::StakeWeighted { stakes: sviews }),
                        bviews == spec_block_views(blocks@),
                        acc == spec_chain_stake(sviews, bviews.skip(1).take(i - 1)),
                        acc <= (i - 1) * (u64::MAX as int),
                    decreases n - i,
                {
                    proof {
                        assert(bviews.skip(1).take(i as int).drop_last() =~= bviews.skip(1).take(
                            i - 1,
                        ));
                        assert(bviews.skip(1).take(i as int).last() == bviews[i as int]);
                        assert(spec_block_views(blocks@)[i as int] == blocks@[i as int]@);
                        lemma_stake_of_bound(sviews, bviews[i as int].producer);
                        assert((i - 1) * (u64::MAX as int) + (u64::MAX as int) == i * (
                        u64::MAX as int)) by (nonlinear_arith);
                        assert(i * (u64::MAX as int) <= (u64::MAX as int) * (u64::MAX as int))
                            by (nonlinear_arith)
                            requires
                                0 <= i,
                                i <= u64::MAX,
                        ;
                    }
                    acc = acc + self.stake_of(blocks[i].producer.as_str()) as u128;
                    i = i + 1;
                }
                proof {
                    assert(bviews.skip(1).take(n - 1) =~= bviews.skip(1));
                }
                acc
            },
        }
    }
}

} // verus!
