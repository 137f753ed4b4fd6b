//! The assembled node state: chain, ledger, pending pool, consensus
//! strategy, and the contract registries.
//!
//! Every mutation funnels through this facade — transaction admission,
//! block production, reconciliation with peer chains — so the global
//! invariants of the parts are kept together. Contract bytecode execution
//! itself is an external collaborator; its results are recorded here.

use vstd::prelude::*;
use crate::block::{genesis_block, spec_block_hash, spec_block_views, spec_genesis, Block, BlockView};
use crate::chain::{
    spec_append_verdict, spec_apply_block, spec_chain_valid, spec_init_ledger, spec_replace,
    spec_replay, Chain, ChainError,
};
use crate::clock::now_timestamp;
use crate::consensus::{spec_total_stake, spec_weight, ConsensusStrategy, StrategyView};
use crate::kvmap::{spec_kv_get, StrMap};
use crate::ledger::{spec_balance_of, AccountView};
use crate::pool::{
    spec_pool_expected_nonce, spec_prune_stale, spec_submit_outcome, RejectReason,
    TransactionPool,
};
use crate::strutil::spec_pair_views;
use crate::transaction::{Transaction, TxView};

verus! {

/// How many nonces a single production attempt may try before giving up,
/// so a difficulty that is never met cannot stall the node forever.
pub const MAX_SEAL_ATTEMPTS: u64 = 1048576;

/// A running node's state: the chain with its ledger, the pending pool,
/// the active consensus strategy, and the contract registries.
pub struct Blockchain {
    chain: Chain,
    pool: TransactionPool,
    strategy: ConsensusStrategy,
    contracts: StrMap,
    contract_state: StrMap,
}

impl Blockchain {
    /// The pool and the registries keep their internal order and key
    /// uniqueness; the chain's own validity is invariant by construction.
    pub closed spec fn wf(&self) -> bool {
        &&& self.pool.wf()
        &&& self.contracts.wf()
        &&& self.contract_state.wf()
    }

    /// The blocks, genesis first.
    pub closed spec fn chain_view(&self) -> Seq<BlockView> {
        self.chain.blocks_view()
    }

    /// The ledger state the chain has produced.
    pub closed spec fn ledger_view(&self) -> Seq<AccountView> {
        self.chain.ledger_view()
    }

    /// The genesis allocation the chain was started from.
    pub closed spec fn alloc_view(&self) -> Seq<(Seq<char>, u64)> {
        self.chain.alloc_view()
    }

    /// The pending transactions, oldest first.
    pub closed spec fn pool_view(&self) -> Seq<TxView> {
        self.pool@
    }

    /// The active consensus strategy.
    pub closed spec fn strategy_view(&self) -> StrategyView {
        self.strategy@
    }

    /// Deployed contract code by address.
    pub closed spec fn contracts_view(&self) -> Seq<(Seq<char>, Seq<char>)> {
        self.contracts@
    }

    /// Latest recorded contract state by address.
    pub closed spec fn state_view(&self) -> Seq<(Seq<char>, Seq<char>)> {
        self.contract_state@
    }

    /// A node with no genesis allocation, producing without difficulty.
    pub fn new() -> (bc: Blockchain)
        ensures
            bc.wf(),
            bc.chain_view() =~= seq![spec_genesis()],
            bc.ledger_view() =~= Seq::<AccountView>::empty(),
            bc.pool_view() =~= Seq::<TxView>::empty(),
            bc.strategy_view() == (StrategyView::ProofOfWork { difficulty: 0 }),
            bc.contracts_view() =~= Seq::<(Seq<char>, Seq<char>)>::empty(),
            bc.state_view() =~= Seq::<(Seq<char>, Seq<char>)>::empty(),
    {
        let bc = Blockchain::with_genesis(
            Vec::new(),
            ConsensusStrategy::ProofOfWork { difficulty: 0 },
        );
        proof {
            assert(bc.alloc_view() =~= Seq::<(Seq<char>, u64)>::empty());
            assert(bc.ledger_view() =~= Seq::<AccountView>::empty());
        }
        bc
    }

    /// A node started from a genesis allocation under a chosen strategy.
    pub fn with_genesis(genesis_alloc: Vec<(String, u64)>, strategy: ConsensusStrategy) -> (bc:
        Blockchain)
        ensures
            bc.wf(),
            bc.alloc_view() == spec_pair_views(genesis_alloc@),
            bc.chain_view() =~= seq![spec_genesis()],
            bc.ledger_view() == spec_init_ledger(spec_pair_views(genesis_alloc@)),
            bc.pool_view() =~= Seq::<TxView>::empty(),
            bc.strategy_view() == strategy@,
            bc.contracts_view() =~= Seq::<(Seq<char>, Seq<char>)>::empty(),
            bc.state_view() =~= Seq::<(Seq<char>, Seq<char>)>::empty(),
    {
        Blockchain {
            chain: Chain::new(genesis_alloc),
            pool: TransactionPool::new(),
            strategy,
            contracts: StrMap::new(),
            contract_state: StrMap::new(),
        }
    }

    /// The fixed genesis block every chain starts from.
    pub fn create_genesis_block() -> (b: Block)
        ensures
            b@ == spec_genesis(),
    {
        genesis_block()
    }

    /// Submits a transaction to the pending pool, against the current
    /// ledger; the verdict and its exact conditions are the pool's.
    pub fn add_transaction(&mut self, tx: Transaction) -> (r: Result<(), RejectReason>)
        requires
            old(self).wf(),
        ensures
            final(self).wf(),
            r == spec_submit_outcome(old(self).pool_view(), old(self).ledger_view(), tx@),
            r is Ok ==> final(self).pool_view() == old(self).pool_view().push(tx@),
            r is Err ==> final(self).pool_view() == old(self).pool_view(),
            final(self).chain_view() == old(self).chain_view(),
            final(self).ledger_view() == old(self).ledger_view(),
            final(self).alloc_view() == old(self).alloc_view(),
            final(self).strategy_view() == old(self).strategy_view(),
            final(self).contracts_view() == old(self).contracts_view(),
            final(self).state_view() == old(self).state_view(),
    {
        let ledger = self.chain.ledger();
        self.pool.submit(tx, ledger)
    }

    /// The balance the ledger records for `address`; zero when unknown.
    pub fn get_balance(&self, address: &str) -> (r: u64)
        ensures
            r == spec_balance_of(self.ledger_view(), address@),
    {
        self.chain.get_balance(address)
    }

    /// The code deployed at `address`, if any.
    pub fn get_contract(&self, address: &str) -> (r: Option<&String>)
        ensures
            match r {
                Some(v) => spec_kv_get(self.contracts_view(), address@) == Some(v@),
                None => spec_kv_get(self.contracts_view(), address@) is None,
            },
    {
        self.contracts.get(address)
    }

    /// The latest recorded state of the contract at `address`, if any.
    pub fn get_state(&self, address: &str) -> (r: Option<&String>)
        ensures
            match r {
                Some(v) => spec_kv_get(self.state_view(), address@) == Some(v@),
                None => spec_kv_get(self.state_view(), address@) is None,
            },
    {
        self.contract_state.get(address)
    }

    /// Records deployed contract code under its address.
    pub fn deploy_contract(&mut self, address: String, code: String)
        requires
            old(self).wf(),
        ensures
            final(self).wf(),
            spec_kv_get(final(self).contracts_view(), address@) == Some(code@),
            forall|k: Seq<char>|
                k != address@ ==> spec_kv_get(final(self).contracts_view(), k) == spec_kv_get(
                    old(self).contracts_view(),
                    k,
                ),
            final(self).chain_view() == old(self).chain_view(),
            final(self).ledger_view() == old(self).ledger_view(),
            final(self).pool_view() == old(self).pool_view(),
            final(self).state_view() == old(self).state_view(),
            final(self).strategy_view() == old(self).strategy_view(),
            final(self).alloc_view() == old(self).alloc_view(),
    {
        self.contracts.set(address, code);
    }

    /// Records what the external contract executor produced for the
    /// contract at `address`.
    pub fn set_contract_state(&mut self, address: String, output: String)
        requires
            old(self).wf(),
        ensures
            final(self).wf(),
            spec_kv_get(final(self).state_view(), address@) == Some(output@),
            forall|k: Seq<char>|
                k != address@ ==> spec_kv_get(final(self).state_view(), k) == spec_kv_get(
                    old(self).state_view(),
                    k,
                ),
            final(self).chain_view() == old(self).chain_view(),
            final(self).ledger_view() == old(self).ledger_view(),
            final(self).pool_view() == old(self).pool_view(),
            final(self).contracts_view() == old(self).contracts_view(),
            final(self).strategy_view() == old(self).strategy_view(),
            final(self).alloc_view() == old(self).alloc_view(),
    {
        self.contract_state.set(address, output);
    }

    /// A read-only copy of the blocks.
    pub fn get_chain(&self) -> (r: Vec<Block>)
        ensures
            spec_block_views(r@) == self.chain_view(),
    {
        self.chain.blocks_snapshot()
    }

    /// How many blocks the chain holds, genesis included.
    pub fn height(&self) -> (r: usize)
        ensures
            r == self.chain_view().len(),
            r >= 1,
    {
        self.chain.height()
    }

    /// A copy of the pending transactions, oldest first.
    pub fn pending_transactions(&self) -> (r: Vec<Transaction>)
        ensures
            crate::transaction::spec_tx_views(r@) == self.pool_view(),
    {
        self.pool.pending_snapshot()
    }

    /// The nonce the node would accept next from `address`, counting both
    /// spent and pending nonces; `None` when the nonce space is exhausted.
    pub fn next_nonce(&self, address: &str) -> (r: Option<u64>)
        ensures
            match r {
                Some(v) => v == spec_pool_expected_nonce(
                    self.pool_view(),
                    self.ledger_view(),
                    address@,
                ),
                None => spec_pool_expected_nonce(self.pool_view(), self.ledger_view(), address@)
                    == u64::MAX + 1,
            },
    {
        let ledger = self.chain.ledger();
        self.pool.expected_nonce(ledger, address)
    }

    /// How many transactions are pending.
    pub fn pending_count(&self) -> (r: usize)
        ensures
            r == self.pool_view().len(),
    {
        self.pool.len()
    }

    /// Replays the whole chain from genesis; true for any chain built
    /// through production and reconciliation alone.
    pub fn is_valid(&self) -> (r: bool)
        ensures
            r == spec_chain_valid(self.alloc_view(), self.chain_view()),
            r,
    {
        self.chain.is_valid()
    }

    /// Who the strategy elects to produce next, where it elects at all.
    pub fn select_producer(&self) -> (r: Option<String>)
        ensures
            match self.strategy_view() {
                StrategyView::ProofOfWork { .. } => r is None,
                StrategyView::StakeWeighted { stakes } => {
                    &&& (r is None <==> spec_total_stake(stakes) == 0)
                    &&& match r {
                        Some(a) => exists|i: int|
                            0 <= i < stakes.len() && stakes[i].0 == a@ && stakes[i].1 > 0,
                        None => true,
                    }
                },
            },
    {
        self.strategy.select_producer()
    }

    /// Produces one block: seals the pending transactions under the
    /// active strategy at the next height and commits it. On success the
    /// chain has grown by one block carrying exactly the drained pool,
    /// credited to `miner`; on failure — no nonce met the difficulty, or
    /// the sealed block could not be applied — nothing has changed.
    /// Success is owed wherever nothing outside decides it: when the tip
    /// height is not exhausted, sealing cannot fail (stake-weighted, or
    /// proof-of-work at difficulty zero), and the pending transactions and
    /// reward apply to the ledger. Only a positive proof-of-work
    /// difficulty, whose search ranges over a clock-stamped candidate, may
    /// fail beyond that.
    pub fn mine_block(&mut self, miner: &str) -> (r: bool)
        requires
            old(self).wf(),
        ensures
            final(self).wf(),
            final(self).alloc_view() == old(self).alloc_view(),
            final(self).strategy_view() == old(self).strategy_view(),
            final(self).contracts_view() == old(self).contracts_view(),
            final(self).state_view() == old(self).state_view(),
            old(self).chain_view().last().index == u64::MAX ==> !r,
            ({
                let sealing_cannot_fail = match old(self).strategy_view() {
                    StrategyView::ProofOfWork { difficulty } => difficulty == 0,
                    StrategyView::StakeWeighted { .. } => true,
                };
                let block_applies = match crate::ledger::spec_apply_txs(
                    old(self).ledger_view(),
                    old(self).pool_view(),
                    miner@,
                ) {
                    Some(m) => crate::ledger::spec_credit(
                        m,
                        miner@,
                        crate::chain::BLOCK_REWARD,
                    ) is Some,
                    None => false,
                };
                old(self).chain_view().last().index < u64::MAX && sealing_cannot_fail
                    && block_applies ==> r
            }),
            r ==> {
                let nb = final(self).chain_view().last();
                &&& final(self).chain_view() == old(self).chain_view().push(nb)
                &&& nb.producer == miner@
                &&& nb.transactions == old(self).pool_view()
                &&& nb.hash == spec_block_hash(nb)
                &&& Some(final(self).ledger_view()) == spec_apply_block(
                    old(self).ledger_view(),
                    nb,
                )
                &&& final(self).pool_view() =~= Seq::<TxView>::empty()
            },
            !r ==> final(self).chain_view() == old(self).chain_view()
                && final(self).ledger_view() == old(self).ledger_view()
                && final(self).pool_view() == old(self).pool_view(),
    {
        let timestamp = now_timestamp();
        let tip_hash = self.chain.tip_hash();
        let next_index = match self.chain.tip_index().checked_add(1) {
            Some(i) => i,
            None => {
                return false;
            },
        };
        let txs = self.pool.pending_snapshot();
        let ghost pool_views: Seq<TxView> = crate::transaction::spec_tx_views(txs@);
        let ghost tip_view: Seq<char> = tip_hash@;
        let sealed = self.strategy.seal_block(
            next_index,
            timestamp,
            tip_hash,
            txs,
            miner.to_owned(),
            MAX_SEAL_ATTEMPTS,
        );
        match sealed {
            None => {
                proof {
                    // Only a positive proof-of-work difficulty can exhaust
                    // the search: at difficulty zero the first nonce's hash
                    // meets the target, and stake-weighted sealing never
                    // fails.
                    match old(self).strategy_view() {
                        StrategyView::ProofOfWork { difficulty } => {
                            if difficulty == 0 {
                                assert(!crate::block::spec_meets_difficulty(
                                    crate::block::spec_block_hash_parts(
                                        next_index,
                                        timestamp,
                                        pool_views,
                                        tip_view,
                                        miner@,
                                        0u64,
                                    ),
                                    0,
                                ));
                            }
                        },
                        StrategyView::StakeWeighted { .. } => {
                            assert(false);
                        },
                    }
                }
                false
            },
            Some(b) => {
                let ghost bv = b@;
                match self.chain.append(b) {
                    Ok(_) => {
                        let k = self.pool.len();
                        let _drained = self.pool.drain_for_block(k);
                        proof {
                            assert(final(self).pool_view() =~= Seq::<TxView>::empty());
                        }
                        true
                    },
                    Err(_) => {
                        proof {
                            // The sealed block links, hashes and counts
                            // correctly, so only the ledger can have
                            // refused it.
                            assert(spec_apply_block(old(self).ledger_view(), bv) is None);
                        }
                        false
                    },
                }
            },
        }
    }

    /// Attempts to append a peer's block to the chain; the verdict and
    /// its exact conditions are the chain's. When the block commits, the
    /// ledger has moved, so the pending pool is re-validated: every
    /// transaction whose nonce the new ledger has passed — the block's own
    /// transactions among them — is dropped.
    pub fn append_block(&mut self, block: Block) -> (r: Result<(), ChainError>)
        requires
            old(self).wf(),
        ensures
            final(self).wf(),
            r == spec_append_verdict(old(self).chain_view(), old(self).ledger_view(), block@),
            r is Ok ==> final(self).chain_view() == old(self).chain_view().push(block@)
                && Some(final(self).ledger_view()) == spec_apply_block(
                old(self).ledger_view(),
                block@,
            )
                && final(self).pool_view() == spec_prune_stale(
                old(self).pool_view(),
                final(self).ledger_view(),
            ),
            r is Err ==> final(self).chain_view() == old(self).chain_view()
                && final(self).ledger_view() == old(self).ledger_view()
                && final(self).pool_view() == old(self).pool_view(),
            final(self).alloc_view() == old(self).alloc_view(),
            final(self).strategy_view() == old(self).strategy_view(),
            final(self).contracts_view() == old(self).contracts_view(),
            final(self).state_view() == old(self).state_view(),
    {
        let r = self.chain.append(block);
        if r.is_ok() {
            let ledger = self.chain.ledger();
            self.pool.prune_stale(ledger);
        }
        r
    }

    /// Reconciliation: adopts `candidate` exactly when it is valid for
    /// this node's genesis allocation and strictly heavier under the
    /// active strategy; a tie keeps the incumbent chain. Adoption moves
    /// the ledger, so the pending pool is re-validated: every transaction
    /// whose nonce the adopted ledger has passed is dropped.
    pub fn reconcile(&mut self, candidate: Vec<Block>) -> (r: bool)
        requires
            old(self).wf(),
        ensures
            final(self).wf(),
            r == (spec_chain_valid(old(self).alloc_view(), spec_block_views(candidate@))
                && spec_weight(old(self).strategy_view(), spec_block_views(candidate@))
                > spec_weight(old(self).strategy_view(), old(self).chain_view())),
            final(self).chain_view() == spec_replace(
                old(self).alloc_view(),
                old(self).strategy_view(),
                old(self).chain_view(),
                spec_block_views(candidate@),
            ),
            r ==> Some(final(self).ledger_view()) == spec_replay(
                spec_init_ledger(old(self).alloc_view()),
                spec_block_views(candidate@).skip(1),
            ) && final(self).pool_view() == spec_prune_stale(
                old(self).pool_view(),
                final(self).ledger_view(),
            ),
            !r ==> final(self).ledger_view() == old(self).ledger_view()
                && final(self).pool_view() == old(self).pool_view(),
            final(self).alloc_view() == old(self).alloc_view(),
            final(self).strategy_view() == old(self).strategy_view(),
            final(self).contracts_view() == old(self).contracts_view(),
            final(self).state_view() == old(self).state_view(),
    {
        let adopted = self.chain.replace_if_heavier(candidate, &self.strategy);
        if adopted {
            let ledger = self.chain.ledger();
            self.pool.prune_stale(ledger);
        }
        adopted
    }
}

} // verus!
