//! Read-only queries over a node: wallet summaries and lookups of blocks
//! and transactions by hash. Serving these over a wire is the surrounding
//! program's job.

use vstd::prelude::*;
use crate::block::{Block, BlockView};
use crate::blockchain::Blockchain;
use crate::ledger::spec_balance_of;
use crate::strutil::str_eq;
use crate::transaction::{spec_tx_id, spec_tx_views, Transaction, TxView};

verus! {

/// A wallet summary: its balance and how many chain transactions name it.
pub struct WalletInfo {
    pub address: String,
    pub balance: u64,
    pub tx_count: usize,
}

/// How many of `ts` name `addr` as sender or recipient.
pub open spec fn spec_count_matching(ts: Seq<TxView>, addr: Seq<char>) -> int
    decreases ts.len(),
{
    if ts.len() == 0 {
        0
    } else {
        spec_count_matching(ts.drop_last(), addr) + if ts.last().sender == addr
            || ts.last().recipient == addr {
            1int
        } else {
            0int
        }
    }
}

/// How many transactions across all of `bs` name `addr`.
pub open spec fn spec_tx_count(bs: Seq<BlockView>, addr: Seq<char>) -> int
    decreases bs.len(),
{
    if bs.len() == 0 {
        0
    } else {
        spec_tx_count(bs.drop_last(), addr) + spec_count_matching(bs.last().transactions, addr)
    }
}

/// How many of one block's transactions name `addr`.
fn count_matching(txs: &Vec<Transaction>, addr: &str) -> (c: usize)
    ensures
        c == spec_count_matching(spec_tx_views(txs@), addr@),
{
    let ghost views = spec_tx_views(txs@);
    let n: usize = txs.len();
    let mut c: usize = 0;
    let mut i: usize = 0;
    while i < n
        invariant
            n == txs@.len(),
            views == spec_tx_views(txs@),
            i <= n,
            c <= i,
            c == spec_count_matching(views.take(i as int), addr@),
        decreases n - i,
    {
        proof {
            assert(views.take(i + 1).drop_last() =~= views.take(i as int));
            assert(views.take(i + 1).last() == views[i as int]);
            assert(spec_tx_views(txs@)[i as int] == txs@[i as int]@);
        }
        if str_eq(txs[i].sender.as_str(), addr) || str_eq(txs[i].recipient.as_str(), addr) {
            c = c + 1;
        }
        i = i + 1;
    }
    proof {
        assert(views.take(n as int) =~= views);
    }
    c
}

/// Gathers a wallet's summary: its ledger balance and, where the total
/// fits the counter, exactly how many chain transactions name it.
pub fn get_wallet_info(bc: &Blockchain, address: &str) -> (w: WalletInfo)
    ensures
        w.address@ == address@,
        w.balance == spec_balance_of(bc.ledger_view(), address@),
        spec_tx_count(bc.chain_view(), address@) <= usize::MAX ==> w.tx_count == spec_tx_count(
            bc.chain_view(),
            address@,
        ),
        w.tx_count <= spec_tx_count(bc.chain_view(), address@),
{
    let balance = bc.get_balance(address);
    let blocks = bc.get_chain();
    let ghost bviews = bc.chain_view();
    let n: usize = blocks.len();
    let mut count: usize = 0;
    let mut i: usize = 0;
    while i < n
        invariant
            n == blocks@.len(),
            n == bviews.len(),
            bviews == crate::block::spec_block_views(blocks@),
            i <= n,
            spec_tx_count(bviews.take(i as int), address@) <= usize::MAX ==> count
                == spec_tx_count(bviews.take(i as int), address@),
            count <= spec_tx_count(bviews.take(i as int), address@),
        decreases n - i,
    {
        proof {
            assert(bviews.take(i + 1).drop_last() =~= bviews.take(i as int));
            assert(bviews.take(i + 1).last() == bviews[i as int]);
            assert(crate::block::spec_block_views(blocks@)[i as int] == blocks@[i as int]@);
            lemma_count_matching_nonneg(bviews[i as int].transactions, address@);
        }
        let in_block = count_matching(&blocks[i].transactions, address);
        count = count.saturating_add(in_block);
        i = i + 1;
    }
    proof {
        assert(bviews.take(n as int) =~= bviews);
    }
    WalletInfo { address: address.to_owned(), balance, tx_count: count }
}

/// The matching count never goes negative.
proof fn lemma_count_matching_nonneg(ts: Seq<TxView>, addr: Seq<char>)
    ensures
        spec_count_matching(ts, addr) >= 0,
    decreases ts.len(),
{
    if ts.len() > 0 {
        lemma_count_matching_nonneg(ts.drop_last(), addr);
    }
}

/// Finds a block of the chain by its stored hash: some matching block, or
/// nothing exactly when no block carries the hash.
pub fn get_block_by_hash(bc: &Blockchain, hash: &str) -> (r: Option<Block>)
    ensures
        match r {
            Some(b) => b@.hash == hash@ && exists|i: int|
                0 <= i < bc.chain_view().len() && bc.chain_view()[i] == b@,
            None => forall|i: int|
                0 <= i < bc.chain_view().len() ==> (#[trigger] bc.chain_view()[i]).hash != hash@,
        },
{
    let blocks = bc.get_chain();
    let ghost bviews = bc.chain_view();
    let n: usize = blocks.len();
    let mut i: usize = 0;
    while i < n
        invariant
            n == blocks@.len(),
            n == bviews.len(),
            bviews == crate::block::spec_block_views(blocks@),
            bviews == bc.chain_view(),
            i <= n,
            forall|j: int| 0 <= j < i ==> (#[trigger] bviews[j]).hash != hash@,
        decreases n - i,
    {
        proof {
            assert(crate::block::spec_block_views(blocks@)[i as int] == blocks@[i as int]@);
        }
        if str_eq(blocks[i].hash.as_str(), hash) {
            let found = blocks[i].clone();
            proof {
                assert(bc.chain_view()[i as int] == found@);
            }
            return Some(found);
        }
        i = i + 1;
    }
    None
}

/// Finds a transaction anywhere in the chain by its identity: some
/// matching transaction, or nothing exactly when no committed transaction
/// has the identity.
pub fn get_transaction_by_hash(bc: &Blockchain, hash: &str) -> (r: Option<Transaction>)
    ensures
        match r {
            Some(t) => spec_tx_id(t@) == hash@ && exists|i: int, j: int|
                0 <= i < bc.chain_view().len() && 0 <= j < bc.chain_view()[i].transactions.len()
                    && bc.chain_view()[i].transactions[j] == t@,
            None => forall|i: int, j: int|
                0 <= i < bc.chain_view().len() && 0 <= j
                    < bc.chain_view()[i].transactions.len() ==> spec_tx_id(
                    #[trigger] bc.chain_view()[i].transactions[j],
                ) != hash@,
        },
{
    let blocks = bc.get_chain();
    let ghost bviews = bc.chain_view();
    let n: usize = blocks.len();
    let mut i: usize = 0;
    while i < n
        invariant
            n == blocks@.len(),
            n == bviews.len(),
            bviews == crate::block::spec_block_views(blocks@),
            bviews == bc.chain_view(),
            i <= n,
            forall|x: int, y: int|
                0 <= x < i && 0 <= y < bviews[x].transactions.len() ==> spec_tx_id(
                    #[trigger] bviews[x].transactions[y],
                ) != hash@,
        decreases n - i,
    {
        proof {
            assert(crate::block::spec_block_views(blocks@)[i as int] == blocks@[i as int]@);
        }
        let txs = &blocks[i].transactions;
        let m: usize = txs.len();
        let mut j: usize = 0;
        while j < m
            invariant
                m == txs@.len(),
                0 <= i < n,
                n == blocks@.len(),
                n == bviews.len(),
                bviews == crate::block::spec_block_views(blocks@),
                bviews == bc.chain_view(),
                txs == &blocks[i as int].transactions,
                bviews[i as int].transactions == spec_tx_views(txs@),
                j <= m,
                forall|y: int|
                    0 <= y < j ==> spec_tx_id(
                        #[trigger] bviews[i as int].transactions[y],
                    ) != hash@,
            decreases m - j,
        {
            proof {
                assert(spec_tx_views(txs@)[j as int] == txs@[j as int]@);
            }
            let id = txs[j].hash();
            if str_eq(id.as_str(), hash) {
                let found = txs[j].clone();
                proof {
                    assert(bc.chain_view()[i as int].transactions[j as int] == found@);
                }
                return Some(found);
            }
            j = j + 1;
        }
        i = i + 1;
    }
    None
}

} // verus!
