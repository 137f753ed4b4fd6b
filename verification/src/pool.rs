//! The pending-transaction pool: admission control for unconfirmed
//! transactions.
//!
//! Admission enforces, in order: a verifying signature, the exact next
//! nonce for the sender (counting both spent and pending nonces), and a
//! ledger balance that still covers the new cost after every debit already
//! pending from the same sender.

use vstd::prelude::*;
use crate::ledger::{spec_balance_of, spec_expected_nonce, AccountView, Ledger};
use crate::strutil::str_eq;
use crate::transaction::{spec_tx_id, spec_tx_valid, spec_tx_views, Transaction, TxView};

verus! {

/// Why the pool refused a transaction.
#[derive(Clone, Copy, PartialEq, Eq, Structural, Debug)]
pub enum RejectReason {
    /// The signature does not verify over the transaction's digest.
    BadSignature,
    /// The nonce is not the exact next one expected from the sender.
    NonceConflict,
    /// The sender's balance, less debits already pending, does not cover
    /// amount plus fee.
    InsufficientFunds,
}

/// The largest nonce pending from `sender`, if any transaction of theirs is
/// pending.
pub open spec fn spec_max_pending_nonce(ts: Seq<TxView>, sender: Seq<char>) -> Option<u64>
    decreases ts.len(),
{
    if ts.len() == 0 {
        None
    } else {
        let rest = spec_max_pending_nonce(ts.drop_last(), sender);
        if ts.last().sender == sender {
            match rest {
                Some(m) => if ts.last().nonce > m {
                    Some(ts.last().nonce)
                } else {
                    Some(m)
                },
                None => Some(ts.last().nonce),
            }
        } else {
            rest
        }
    }
}

/// The total of amount plus fee over every pending transaction of `sender`.
pub open spec fn spec_pending_debits(ts: Seq<TxView>, sender: Seq<char>) -> int
    decreases ts.len(),
{
    if ts.len() == 0 {
        0
    } else {
        spec_pending_debits(ts.drop_last(), sender) + if ts.last().sender == sender {
            ts.last().amount + ts.last().fee
        } else {
            0
        }
    }
}

/// The nonce the pool expects next from `sender`: one past the largest
/// pending nonce or the ledger's own expectation, whichever is higher —
/// the ledger can move under the pool (a peer's block, an adopted chain),
/// and a nonce it has already passed is never admitted again.
pub open spec fn spec_pool_expected_nonce(
    ts: Seq<TxView>,
    l: Seq<AccountView>,
    sender: Seq<char>,
) -> int {
    let from_ledger = spec_expected_nonce(l, sender);
    match spec_max_pending_nonce(ts, sender) {
        Some(m) => if m + 1 >= from_ledger {
            m + 1
        } else {
            from_ledger
        },
        None => from_ledger,
    }
}

/// The admission verdict for `t` against pending set `ts` and ledger `l`:
/// the checks run in the order signature, nonce, funds.
pub open spec fn spec_submit_outcome(ts: Seq<TxView>, l: Seq<AccountView>, t: TxView) -> Result<
    (),
    RejectReason,
> {
    if !spec_tx_valid(t) {
        Err(RejectReason::BadSignature)
    } else if t.nonce != spec_pool_expected_nonce(ts, l, t.sender) {
        Err(RejectReason::NonceConflict)
    } else if spec_balance_of(l, t.sender) - spec_pending_debits(ts, t.sender) < t.amount + t.fee {
        Err(RejectReason::InsufficientFunds)
    } else {
        Ok(())
    }
}

/// Unconfirmed transactions in arrival order.
pub struct TransactionPool {
    pending: Vec<Transaction>,
}

impl View for TransactionPool {
    type V = Seq<TxView>;

    closed spec fn view(&self) -> Seq<TxView> {
        spec_tx_views(self.pending@)
    }
}

/// Per-sender nonces strictly increase along arrival order.
pub open spec fn spec_pool_wf(ts: Seq<TxView>) -> bool {
    forall|i: int, j: int|
        0 <= i < j < ts.len() && ts[i].sender == ts[j].sender ==> ts[i].nonce < ts[j].nonce
}

impl TransactionPool {
    /// Per-sender nonces strictly increase along arrival order.
    pub open spec fn wf(&self) -> bool {
        spec_pool_wf(self@)
    }

    /// An empty pool.
    pub fn new() -> (p: TransactionPool)
        ensures
            p@ =~= Seq::<TxView>::empty(),
            p.wf(),
    {
        TransactionPool { pending: Vec::new() }
    }

    /// How many transactions are pending.
    pub fn len(&self) -> (r: usize)
        ensures
            r == self@.len(),
    {
        self.pending.len()
    }

    /// A copy of the pending transactions, oldest first.
    pub fn pending_snapshot(&self) -> (r: Vec<Transaction>)
        ensures
            spec_tx_views(r@) == self@,
    {
        let r = self.pending.clone();
        proof {
            assert(spec_tx_views(r@) =~= spec_tx_views(self.pending@));
        }
        r
    }

    /// The largest nonce pending from `sender`, if any.
    fn max_pending_nonce(&self, sender: &str) -> (r: Option<u64>)
        ensures
            r == spec_max_pending_nonce(self@, sender@),
    {
        let n: usize = self.pending.len();
        let mut acc: Option<u64> = None;
        let mut i: usize = 0;
        while i < n
            invariant
                n == self@.len(),
                i <= n,
                acc == spec_max_pending_nonce(self@.take(i as int), sender@),
            decreases n - i,
        {
            proof {
                assert(self@.take(i + 1).drop_last() =~= self@.take(i as int));
                assert(self@.take(i + 1).last() == self@[i as int]);
            }
            if str_eq(self.pending[i].sender.as_str(), sender) {
                acc = match acc {
                    Some(m) => if self.pending[i].nonce > m {
                        Some(self.pending[i].nonce)
                    } else {
                        Some(m)
                    },
                    None => Some(self.pending[i].nonce),
                };
            }
            i = i + 1;
        }
        proof {
            assert(self@.take(n as int) =~= self@);
        }
        acc
    }

    /// Whether the ledger balance of `t`'s sender, less debits already
    /// pending from them, covers `t`'s amount plus fee.
    fn funds_cover(&self, ledger: &Ledger, t: &Transaction) -> (r: bool)
        ensures
            r == (spec_balance_of(ledger@, t@.sender) - spec_pending_debits(self@, t@.sender)
                >= t@.amount + t@.fee),
    {
        let balance: u64 = ledger.get_balance(t.sender.as_str());
        let n: usize = self.pending.len();
        let mut avail: u128 = balance as u128;
        let mut short: bool = false;
        let mut i: usize = 0;
        while i < n
            invariant
                n == self@.len(),
                i <= n,
                balance == spec_balance_of(ledger@, t@.sender),
                short == (balance - spec_pending_debits(self@.take(i as int), t@.sender) < 0),
                !short ==> avail == balance - spec_pending_debits(self@.take(i as int), t@.sender),
                short ==> avail == 0,
            decreases n - i,
        {
            proof {
                assert(self@.take(i + 1).drop_last() =~= self@.take(i as int));
                assert(self@.take(i + 1).last() == self@[i as int]);
            }
            if str_eq(self.pending[i].sender.as_str(), t.sender.as_str()) {
                let debit: u128 = self.pending[i].amount as u128 + self.pending[i].fee as u128;
                if debit > avail {
                    short = true;
                    avail = 0;
                } else {
                    avail = avail - debit;
                }
            }
            i = i + 1;
        }
        proof {
            assert(self@.take(n as int) =~= self@);
        }
        if short {
            false
        } else {
            avail >= t.amount as u128 + t.fee as u128
        }
    }

    /// The nonce this pool would accept next from `sender`: one past the
    /// largest pending nonce or the ledger's expectation, whichever is
    /// higher; `None` when the sender has exhausted the nonce space.
    pub fn expected_nonce(&self, ledger: &Ledger, sender: &str) -> (r: Option<u64>)
        ensures
            match r {
                Some(v) => v == spec_pool_expected_nonce(self@, ledger@, sender@),
                None => spec_pool_expected_nonce(self@, ledger@, sender@) == u64::MAX + 1,
            },
    {
        let from_ledger: Option<u64> = ledger.expected_nonce(sender);
        match self.max_pending_nonce(sender) {
            Some(m) => match (m.checked_add(1), from_ledger) {
                (Some(p), Some(le)) => if p >= le {
                    Some(p)
                } else {
                    Some(le)
                },
                _ => None,
            },
            None => from_ledger,
        }
    }

    /// Admits `tx` or reports why not; checks run in the order signature,
    /// nonce, funds, and an admitted transaction joins the end of the pool.
    pub fn submit(&mut self, tx: Transaction, ledger: &Ledger) -> (r: Result<(), RejectReason>)
        requires
            old(self).wf(),
        ensures
            final(self).wf(),
            r == spec_submit_outcome(old(self)@, ledger@, tx@),
            r is Ok ==> final(self)@ == old(self)@.push(tx@),
            r is Err ==> final(self)@ == old(self)@,
    {
        if !tx.is_valid() {
            return Err(RejectReason::BadSignature);
        }
        let expected: Option<u64> = self.expected_nonce(ledger, tx.sender.as_str());
        let nonce_ok = match expected {
            Some(e) => tx.nonce == e,
            None => false,
        };
        if !nonce_ok {
            return Err(RejectReason::NonceConflict);
        }
        if !self.funds_cover(ledger, &tx) {
            return Err(RejectReason::InsufficientFunds);
        }
        proof {
            lemma_max_pending_is_bound(self@, tx@.sender);
        }
        let ghost before: Seq<TxView> = self@;
        self.pending.push(tx);
        proof {
            assert(self@ =~= before.push(tx@));
        }
        Ok(())
    }

    /// Removes and returns up to `max_count` transactions, oldest first.
    /// Taking a prefix of arrival order keeps every sender's nonce order.
    pub fn drain_for_block(&mut self, max_count: usize) -> (r: Vec<Transaction>)
        requires
            old(self).wf(),
        ensures
            final(self).wf(),
            spec_tx_views(r@) == old(self)@.take(spec_drain_count(old(self)@, max_count)),
            final(self)@ == old(self)@.skip(spec_drain_count(old(self)@, max_count)),
    {
        let k: usize = if max_count <= self.pending.len() {
            max_count
        } else {
            self.pending.len()
        };
        let mut rest = self.pending.split_off(k);
        core::mem::swap(&mut self.pending, &mut rest);
        proof {
            assert(spec_tx_views(rest@) =~= old(self)@.take(k as int));
            assert(self@ =~= old(self)@.skip(k as int));
        }
        rest
    }

    /// Removes the first pending transaction whose identity is `tx_hash`,
    /// if one is pending; used when a peer's block already included it.
    pub fn evict(&mut self, tx_hash: &str)
        requires
            old(self).wf(),
        ensures
            final(self).wf(),
            final(self)@ == spec_evict_one(old(self)@, tx_hash@),
    {
        let n: usize = self.pending.len();
        let mut i: usize = 0;
        while i < n
            invariant
                n == self@.len(),
                i <= n,
                old(self).wf(),
                self@ == old(self)@,
                forall|j: int| 0 <= j < i ==> spec_tx_id(self@[j]) != tx_hash@,
            decreases n - i,
        {
            let h = self.pending[i].hash();
            if str_eq(h.as_str(), tx_hash) {
                proof {
                    lemma_find_by_id_at(self@, tx_hash@, i as int);
                }
                self.pending.remove(i);
                proof {
                    assert(self@ =~= old(self)@.remove(i as int));
                }
                return ;
            }
            i = i + 1;
        }
        proof {
            lemma_find_by_id_missing(self@, tx_hash@);
        }
    }

    /// Drops every pending transaction whose nonce the ledger has already
    /// passed — the re-validation run whenever the ledger moves under the
    /// pool (a peer's block applied, a heavier chain adopted), so that a
    /// transaction a committed block already included, or whose nonce was
    /// spent another way, is never staged for a second application.
    pub fn prune_stale(&mut self, ledger: &Ledger)
        requires
            old(self).wf(),
        ensures
            final(self).wf(),
            final(self)@ == spec_prune_stale(old(self)@, ledger@),
    {
        let n: usize = self.pending.len();
        let mut kept: Vec<Transaction> = Vec::new();
        let mut i: usize = 0;
        while i < n
            invariant
                n == self@.len(),
                self@ == old(self)@,
                i <= n,
                spec_tx_views(kept@) == spec_prune_stale(self@.take(i as int), ledger@),
            decreases n - i,
        {
            proof {
                assert(self@.take(i + 1).drop_last() =~= self@.take(i as int));
                assert(self@.take(i + 1).last() == self@[i as int]);
                assert(spec_tx_views(self.pending@)[i as int] == self.pending@[i as int]@);
            }
            let fresh_enough = match ledger.expected_nonce(self.pending[i].sender.as_str()) {
                Some(e) => self.pending[i].nonce >= e,
                None => false,
            };
            if fresh_enough {
                let ghost before = spec_tx_views(kept@);
                kept.push(self.pending[i].clone());
                proof {
                    assert(spec_tx_views(kept@) =~= before.push(self@[i as int]));
                }
            }
            i = i + 1;
        }
        proof {
            assert(self@.take(n as int) =~= self@);
            lemma_prune_stale_wf(self@, ledger@);
        }
        self.pending = kept;
    }
}

/// The pool after evicting the transaction with identity `id`, if any is
/// pending.
pub open spec fn spec_evict_one(ts: Seq<TxView>, id: Seq<char>) -> Seq<TxView> {
    let i = spec_find_by_id(ts, id);
    if i >= 0 {
        ts.remove(i)
    } else {
        ts
    }
}

/// The pool after dropping every transaction whose nonce the ledger has
/// already passed, keeping arrival order.
pub open spec fn spec_prune_stale(ts: Seq<TxView>, l: Seq<AccountView>) -> Seq<TxView>
    decreases ts.len(),
{
    if ts.len() == 0 {
        Seq::empty()
    } else {
        let rest = spec_prune_stale(ts.drop_last(), l);
        if ts.last().nonce >= spec_expected_nonce(l, ts.last().sender) {
            rest.push(ts.last())
        } else {
            rest
        }
    }
}

/// Every pruned-pool entry is an entry of the pool it came from.
proof fn lemma_prune_stale_member(ts: Seq<TxView>, l: Seq<AccountView>, j: int)
    requires
        0 <= j < spec_prune_stale(ts, l).len(),
    ensures
        exists|i: int| 0 <= i < ts.len() && spec_prune_stale(ts, l)[j] == ts[i],
    decreases ts.len(),
{
    let rest = spec_prune_stale(ts.drop_last(), l);
    if ts.last().nonce >= spec_expected_nonce(l, ts.last().sender) && j == rest.len() {
        assert(spec_prune_stale(ts, l)[j] == ts[ts.len() - 1]);
    } else {
        lemma_prune_stale_member(ts.drop_last(), l, j);
        let i = choose|i: int|
            0 <= i < ts.drop_last().len() && spec_prune_stale(ts.drop_last(), l)[j]
                == ts.drop_last()[i];
        assert(spec_prune_stale(ts, l)[j] == ts[i]);
    }
}

/// Pruning keeps per-sender nonce order: the kept entries are a
/// subsequence of a pool whose runs were already strictly increasing.
proof fn lemma_prune_stale_wf(ts: Seq<TxView>, l: Seq<AccountView>)
    requires
        spec_pool_wf(ts),
    ensures
        spec_pool_wf(spec_prune_stale(ts, l)),
    decreases ts.len(),
{
    if ts.len() > 0 {
        assert(spec_pool_wf(ts.drop_last()));
        lemma_prune_stale_wf(ts.drop_last(), l);
        let rest = spec_prune_stale(ts.drop_last(), l);
        if ts.last().nonce >= spec_expected_nonce(l, ts.last().sender) {
            let pruned = rest.push(ts.last());
            assert forall|a: int, b: int|
                0 <= a < b < pruned.len() && pruned[a].sender == pruned[b].sender implies pruned[a].nonce
                < pruned[b].nonce by {
                if b == rest.len() {
                    lemma_prune_stale_member(ts.drop_last(), l, a);
                    let i = choose|i: int|
                        0 <= i < ts.drop_last().len() && rest[a] == ts.drop_last()[i];
                    assert(ts[i] == rest[a]);
                    assert(ts[i].nonce < ts[ts.len() - 1].nonce);
                }
            }
        }
    }
}

/// How many transactions a drain of up to `max_count` removes.
pub open spec fn spec_drain_count(ts: Seq<TxView>, max_count: usize) -> int {
    if max_count <= ts.len() {
        max_count as int
    } else {
        ts.len() as int
    }
}

/// The first index whose transaction identity is `id`, or a negative value
/// when none matches.
pub open spec fn spec_find_by_id(ts: Seq<TxView>, id: Seq<char>) -> int
    decreases ts.len(),
{
    if ts.len() == 0 {
        -1
    } else if spec_tx_id(ts[0]) == id {
        0
    } else {
        let rest = spec_find_by_id(ts.drop_first(), id);
        if rest < 0 {
            -1
        } else {
            rest + 1
        }
    }
}

/// A first identity match at `i` fixes `spec_find_by_id`.
proof fn lemma_find_by_id_at(ts: Seq<TxView>, id: Seq<char>, i: int)
    requires
        0 <= i < ts.len(),
        spec_tx_id(ts[i]) == id,
        forall|j: int| 0 <= j < i ==> spec_tx_id(ts[j]) != id,
    ensures
        spec_find_by_id(ts, id) == i,
    decreases i,
{
    if i > 0 {
        lemma_find_by_id_at(ts.drop_first(), id, i - 1);
    }
}

/// With no identity match, `spec_find_by_id` is negative.
proof fn lemma_find_by_id_missing(ts: Seq<TxView>, id: Seq<char>)
    requires
        forall|j: int| 0 <= j < ts.len() ==> spec_tx_id(ts[j]) != id,
    ensures
        spec_find_by_id(ts, id) < 0,
    decreases ts.len(),
{
    if ts.len() > 0 {
        lemma_find_by_id_missing(ts.drop_first(), id);
    }
}

/// Every pending nonce of `sender` is at most the pending maximum.
proof fn lemma_max_pending_is_bound(ts: Seq<TxView>, sender: Seq<char>)
    ensures
        forall|i: int|
            0 <= i < ts.len() && ts[i].sender == sender ==> {
                &&& spec_max_pending_nonce(ts, sender) is Some
                &&& ts[i].nonce <= spec_max_pending_nonce(ts, sender).unwrap()
            },
    decreases ts.len(),
{
    if ts.len() > 0 {
        lemma_max_pending_is_bound(ts.drop_last(), sender);
        assert forall|i: int|
            0 <= i < ts.len() && ts[i].sender == sender implies {
            &&& spec_max_pending_nonce(ts, sender) is Some
            &&& ts[i].nonce <= spec_max_pending_nonce(ts, sender).unwrap()
        } by {
            if i < ts.len() - 1 {
                assert(ts.drop_last()[i] == ts[i]);
            }
        }
    }
}

/// The pending maximum is attained by some pending transaction.
proof fn lemma_max_pending_attained(ts: Seq<TxView>, sender: Seq<char>)
    requires
        spec_max_pending_nonce(ts, sender) is Some,
    ensures
        exists|i: int|
            0 <= i < ts.len() && ts[i].sender == sender && ts[i].nonce == spec_max_pending_nonce(
                ts,
                sender,
            ).unwrap(),
    decreases ts.len(),
{
    let m = spec_max_pending_nonce(ts, sender).unwrap();
    if ts.last().sender == sender && ts.last().nonce == m {
        assert(ts[ts.len() - 1].sender == sender && ts[ts.len() - 1].nonce == m);
    } else {
        lemma_max_pending_attained(ts.drop_last(), sender);
        let i = choose|i: int|
            0 <= i < ts.drop_last().len() && ts.drop_last()[i].sender == sender && ts.drop_last()[i].nonce
                == spec_max_pending_nonce(ts.drop_last(), sender).unwrap();
        assert(ts[i].sender == sender && ts[i].nonce == m);
    }
}

/// Nonce discipline, refusal side: a transaction is refused whenever an
/// equal-or-higher nonce from the same sender is already pending, or the
/// sender has already spent an equal-or-higher nonce on the ledger.
pub proof fn lemma_nonce_conflict_rejected(ts: Seq<TxView>, l: Seq<AccountView>, t: TxView)
    requires
        (exists|i: int| 0 <= i < ts.len() && ts[i].sender == t.sender && ts[i].nonce >= t.nonce)
            || spec_expected_nonce(l, t.sender) > t.nonce,
    ensures
        spec_submit_outcome(ts, l, t) !== Ok(()),
{
    if exists|i: int| 0 <= i < ts.len() && ts[i].sender == t.sender && ts[i].nonce >= t.nonce {
        let i = choose|i: int|
            0 <= i < ts.len() && ts[i].sender == t.sender && ts[i].nonce >= t.nonce;
        lemma_max_pending_is_bound(ts, t.sender);
        assert(spec_max_pending_nonce(ts, t.sender).unwrap() >= ts[i].nonce);
    }
}

/// Nonce discipline, acceptance side: an accepted transaction with a
/// positive nonce continues a run — its predecessor nonce is the largest
/// one pending from the sender, or the ledger expected exactly this nonce
/// because the predecessor is already applied.
pub proof fn lemma_nonce_succession(ts: Seq<TxView>, l: Seq<AccountView>, t: TxView)
    requires
        spec_submit_outcome(ts, l, t) is Ok,
        t.nonce > 0,
    ensures
        (exists|i: int|
            0 <= i < ts.len() && ts[i].sender == t.sender && ts[i].nonce == t.nonce - 1)
            || spec_expected_nonce(l, t.sender) == t.nonce,
{
    if spec_max_pending_nonce(ts, t.sender) is Some {
        lemma_max_pending_attained(ts, t.sender);
    }
}

} // verus!
