//! The account ledger: balances and per-sender nonces.
//!
//! Pure state, mutated only by applying validated transactions and by
//! crediting rewards. A debit that would overdraw an account is rejected
//! before anything is recorded, so no balance can ever go negative.

use vstd::prelude::*;
use crate::strutil::str_eq;
use crate::transaction::{spec_tx_views, Transaction, TxView};

verus! {

/// The mathematical value of one account: its balance and the last nonce it
/// has spent, if any.
#[verifier::ext_equal]
pub struct AccountView {
    pub address: Seq<char>,
    pub balance: u64,
    pub nonce_used: bool,
    pub nonce: u64,
}

/// One ledger entry. `nonce` is meaningful only when `nonce_used` holds;
/// an account that has never sent has no spent nonce.
pub struct Account {
    pub address: String,
    pub balance: u64,
    pub nonce_used: bool,
    pub nonce: u64,
}

impl View for Account {
    type V = AccountView;

    open spec fn view(&self) -> AccountView {
        AccountView {
            address: self.address@,
            balance: self.balance,
            nonce_used: self.nonce_used,
            nonce: self.nonce,
        }
    }
}

impl Clone for Account {
    /// A clone carries the same mathematical value.
    fn clone(&self) -> (r: Self)
        ensures
            r@ == self@,
    {
        Account {
            address: self.address.clone(),
            balance: self.balance,
            nonce_used: self.nonce_used,
            nonce: self.nonce,
        }
    }
}

/// Why the ledger refused to apply a transaction.
#[derive(Clone, Copy, PartialEq, Eq, Structural, Debug)]
pub enum LedgerError {
    /// The sender's balance does not cover amount plus fee.
    InsufficientFunds,
    /// A credit would push the receiving balance past the representable
    /// maximum.
    BalanceOverflow,
}

/// The balance recorded for `addr`: the first matching entry's balance, or
/// zero for an unknown address.
pub open spec fn spec_balance_of(l: Seq<AccountView>, addr: Seq<char>) -> u64
    decreases l.len(),
{
    if l.len() == 0 {
        0
    } else if l[0].address == addr {
        l[0].balance
    } else {
        spec_balance_of(l.drop_first(), addr)
    }
}

/// The nonce the ledger expects from the next transaction of `addr`: one
/// past the last spent nonce, or zero for an address that has never spent.
/// The value is an integer so that a sender who has spent the largest nonce
/// is expected to produce one that no transaction can carry.
pub open spec fn spec_expected_nonce(l: Seq<AccountView>, addr: Seq<char>) -> int
    decreases l.len(),
{
    if l.len() == 0 {
        0
    } else if l[0].address == addr {
        if l[0].nonce_used {
            l[0].nonce + 1
        } else {
            0
        }
    } else {
        spec_expected_nonce(l.drop_first(), addr)
    }
}

/// Each address appears at most once.
pub open spec fn spec_ledger_wf(l: Seq<AccountView>) -> bool {
    forall|i: int, j: int|
        0 <= i < l.len() && 0 <= j < l.len() && i != j ==> l[i].address != l[j].address
}

/// The sum of all recorded balances.
pub open spec fn spec_sum(l: Seq<AccountView>) -> int
    decreases l.len(),
{
    if l.len() == 0 {
        0
    } else {
        spec_sum(l.drop_last()) + l.last().balance
    }
}

/// Credits `amount` to `addr`, failing when the balance would leave the
/// representable range. An unknown address gains a fresh entry.
pub open spec fn spec_credit(l: Seq<AccountView>, addr: Seq<char>, amount: u64) -> Option<
    Seq<AccountView>,
>
    decreases l.len(),
{
    if l.len() == 0 {
        Some(
            seq![
                AccountView { address: addr, balance: amount, nonce_used: false, nonce: 0 },
            ],
        )
    } else if l[0].address == addr {
        if l[0].balance + amount <= u64::MAX {
            Some(
                seq![
                    AccountView {
                        address: l[0].address,
                        balance: (l[0].balance + amount) as u64,
                        nonce_used: l[0].nonce_used,
                        nonce: l[0].nonce,
                    },
                ] + l.drop_first(),
            )
        } else {
            None
        }
    } else {
        match spec_credit(l.drop_first(), addr, amount) {
            Some(rest) => Some(seq![l[0]] + rest),
            None => None,
        }
    }
}

/// Credits `amount` to `addr`, saturating at the representable maximum.
/// Used for rewards, which must never fail.
pub open spec fn spec_credit_saturating(l: Seq<AccountView>, addr: Seq<char>, amount: u64) -> Seq<
    AccountView,
>
    decreases l.len(),
{
    if l.len() == 0 {
        seq![AccountView { address: addr, balance: amount, nonce_used: false, nonce: 0 }]
    } else if l[0].address == addr {
        seq![
            AccountView {
                address: l[0].address,
                balance: if l[0].balance + amount <= u64::MAX {
                    (l[0].balance + amount) as u64
                } else {
                    u64::MAX
                },
                nonce_used: l[0].nonce_used,
                nonce: l[0].nonce,
            },
        ] + l.drop_first()
    } else {
        seq![l[0]] + spec_credit_saturating(l.drop_first(), addr, amount)
    }
}

/// Debits `amount + fee` from `addr` and records `nonce` as spent. Meant
/// for a sender whose balance covers the cost; an unknown address (possible
/// only for a zero cost) gains an entry that just records the nonce.
pub open spec fn spec_debit(
    l: Seq<AccountView>,
    addr: Seq<char>,
    amount: u64,
    fee: u64,
    nonce: u64,
) -> Seq<AccountView>
    decreases l.len(),
{
    if l.len() == 0 {
        seq![AccountView { address: addr, balance: 0, nonce_used: true, nonce: nonce }]
    } else if l[0].address == addr {
        seq![
            AccountView {
                address: l[0].address,
                balance: if l[0].balance >= amount + fee {
                    (l[0].balance - amount - fee) as u64
                } else {
                    0
                },
                nonce_used: true,
                nonce: nonce,
            },
        ] + l.drop_first()
    } else {
        seq![l[0]] + spec_debit(l.drop_first(), addr, amount, fee, nonce)
    }
}

/// The full effect of one transaction: debit the sender by amount plus fee,
/// credit the recipient the amount, credit the producer the fee, and record
/// the sender's nonce. Fails without effect when funds are short or a
/// credit would overflow.
pub open spec fn spec_apply_tx(
    l: Seq<AccountView>,
    t: TxView,
    producer: Seq<char>,
) -> Result<Seq<AccountView>, LedgerError> {
    if spec_balance_of(l, t.sender) < t.amount + t.fee {
        Err(LedgerError::InsufficientFunds)
    } else {
        let after_debit = spec_debit(l, t.sender, t.amount, t.fee, t.nonce);
        match spec_credit(after_debit, t.recipient, t.amount) {
            None => Err(LedgerError::BalanceOverflow),
            Some(after_amount) => match spec_credit(after_amount, producer, t.fee) {
                None => Err(LedgerError::BalanceOverflow),
                Some(after_fee) => Ok(after_fee),
            },
        }
    }
}

/// Applies a sequence of transactions in order, crediting fees to
/// `producer`; fails when any single application fails.
pub open spec fn spec_apply_txs(
    l: Seq<AccountView>,
    ts: Seq<TxView>,
    producer: Seq<char>,
) -> Option<Seq<AccountView>>
    decreases ts.len(),
{
    if ts.len() == 0 {
        Some(l)
    } else {
        match spec_apply_txs(l, ts.drop_last(), producer) {
            Some(m) => match spec_apply_tx(m, ts.last(), producer) {
                Ok(m2) => Some(m2),
                Err(_) => None,
            },
            None => None,
        }
    }
}

/// Account balances and spent nonces, keyed by address.
pub struct Ledger {
    accounts: Vec<Account>,
}

impl View for Ledger {
    type V = Seq<AccountView>;

    closed spec fn view(&self) -> Seq<AccountView> {
        Seq::new(self.accounts@.len(), |i: int| self.accounts@[i]@)
    }
}

impl Ledger {
    /// Each address appears at most once.
    pub open spec fn wf(&self) -> bool {
        spec_ledger_wf(self@)
    }

    /// An empty ledger: every balance reads zero.
    pub fn new() -> (l: Ledger)
        ensures
            l@ =~= Seq::<AccountView>::empty(),
            l.wf(),
    {
        Ledger { accounts: Vec::new() }
    }

    /// The index of the entry for `addr`, if one exists.
    fn position_of(&self, addr: &str) -> (r: Option<usize>)
        ensures
            match r {
                Some(i) => i < self@.len() && self@[i as int].address == addr@ && forall|j: int|
                    0 <= j < i ==> self@[j].address != addr@,
                None => forall|j: int| 0 <= j < self@.len() ==> self@[j].address != addr@,
            },
    {
        let n: usize = self.accounts.len();
        let mut i: usize = 0;
        while i < n
            invariant
                n == self@.len(),
                i <= n,
                forall|j: int| 0 <= j < i ==> self@[j].address != addr@,
            decreases n - i,
        {
            if str_eq(self.accounts[i].address.as_str(), addr) {
                return Some(i);
            }
            i = i + 1;
        }
        None
    }

    /// The balance recorded for `address`; zero for an unknown address.
    pub fn get_balance(&self, address: &str) -> (r: u64)
        ensures
            r == spec_balance_of(self@, address@),
    {
        match self.position_of(address) {
            Some(i) => {
                proof {
                    lemma_balance_at(self@, address@, i as int);
                }
                self.accounts[i].balance
            },
            None => {
                proof {
                    lemma_balance_missing(self@, address@);
                }
                0
            },
        }
    }

    /// The nonce expected from the next transaction of `address`; `None`
    /// when the address has spent the largest nonce and no further one can
    /// be expected.
    pub fn expected_nonce(&self, address: &str) -> (r: Option<u64>)
        ensures
            match r {
                Some(v) => v == spec_expected_nonce(self@, address@),
                None => spec_expected_nonce(self@, address@) == u64::MAX + 1,
            },
    {
        match self.position_of(address) {
            Some(i) => {
                proof {
                    lemma_expected_nonce_at(self@, address@, i as int);
                }
                let a = &self.accounts[i];
                if a.nonce_used {
                    if a.nonce == u64::MAX {
                        None
                    } else {
                        Some(a.nonce + 1)
                    }
                } else {
                    Some(0)
                }
            },
            None => {
                proof {
                    lemma_expected_nonce_missing(self@, address@);
                }
                Some(0)
            },
        }
    }

    /// Credits `amount` to `address`, reporting failure instead of wrapping
    /// when the balance would leave the representable range.
    pub fn credit_checked(&mut self, address: &str, amount: u64) -> (ok: bool)
        requires
            old(self).wf(),
        ensures
            final(self).wf(),
            ok == spec_credit(old(self)@, address@, amount) is Some,
            ok ==> final(self)@ == spec_credit(old(self)@, address@, amount).unwrap(),
            !ok ==> final(self)@ == old(self)@,
    {
        match self.position_of(address) {
            Some(i) => {
                proof {
                    lemma_credit_at(self@, address@, amount, i as int);
                }
                let a = &self.accounts[i];
                if a.balance <= u64::MAX - amount {
                    let updated = Account {
                        address: a.address.clone(),
                        balance: a.balance + amount,
                        nonce_used: a.nonce_used,
                        nonce: a.nonce,
                    };
                    self.accounts.set(i, updated);
                    proof {
                        assert(self@ =~= spec_credit(old(self)@, address@, amount).unwrap());
                        lemma_update_wf(old(self)@, i as int, self@[i as int]);
                    }
                    true
                } else {
                    false
                }
            },
            None => {
                proof {
                    lemma_credit_missing(self@, address@, amount);
                }
                let fresh = Account {
                    address: address.to_owned(),
                    balance: amount,
                    nonce_used: false,
                    nonce: 0,
                };
                self.accounts.push(fresh);
                proof {
                    assert(self@ =~= spec_credit(old(self)@, address@, amount).unwrap());
                    lemma_push_fresh_wf(old(self)@, self@[old(self)@.len() as int]);
                }
                true
            },
        }
    }

    /// Unconditionally credits a reward, saturating at the representable
    /// maximum; never fails.
    pub fn apply_reward(&mut self, address: &str, amount: u64)
        requires
            old(self).wf(),
        ensures
            final(self).wf(),
            final(self)@ == spec_credit_saturating(old(self)@, address@, amount),
    {
        match self.position_of(address) {
            Some(i) => {
                proof {
                    lemma_credit_saturating_at(self@, address@, amount, i as int);
                }
                let a = &self.accounts[i];
                let updated = Account {
                    address: a.address.clone(),
                    balance: if a.balance <= u64::MAX - amount {
                        a.balance + amount
                    } else {
                        u64::MAX
                    },
                    nonce_used: a.nonce_used,
                    nonce: a.nonce,
                };
                self.accounts.set(i, updated);
                proof {
                    assert(self@ =~= spec_credit_saturating(old(self)@, address@, amount));
                    lemma_update_wf(old(self)@, i as int, self@[i as int]);
                }
            },
            None => {
                proof {
                    lemma_credit_saturating_missing(self@, address@, amount);
                }
                let fresh = Account {
                    address: address.to_owned(),
                    balance: amount,
                    nonce_used: false,
                    nonce: 0,
                };
                self.accounts.push(fresh);
                proof {
                    assert(self@ =~= spec_credit_saturating(old(self)@, address@, amount));
                    lemma_push_fresh_wf(old(self)@, self@[old(self)@.len() as int]);
                }
            },
        }
    }

    /// Debits `amount + fee` from `address` and records `nonce` as spent.
    /// The caller has already checked that the balance covers the cost.
    fn debit_and_note(&mut self, address: &str, amount: u64, fee: u64, nonce: u64)
        requires
            old(self).wf(),
            amount + fee <= u64::MAX,
            spec_balance_of(old(self)@, address@) >= amount + fee,
        ensures
            final(self).wf(),
            final(self)@ == spec_debit(old(self)@, address@, amount, fee, nonce),
    {
        match self.position_of(address) {
            Some(i) => {
                proof {
                    lemma_debit_at(self@, address@, amount, fee, nonce, i as int);
                    lemma_balance_at(self@, address@, i as int);
                }
                let a = &self.accounts[i];
                let updated = Account {
                    address: a.address.clone(),
                    balance: a.balance - amount - fee,
                    nonce_used: true,
                    nonce: nonce,
                };
                self.accounts.set(i, updated);
                proof {
                    assert(self@ =~= spec_debit(old(self)@, address@, amount, fee, nonce));
                    lemma_update_wf(old(self)@, i as int, self@[i as int]);
                }
            },
            None => {
                proof {
                    lemma_debit_missing(self@, address@, amount, fee, nonce);
                    lemma_balance_missing(self@, address@);
                }
                let fresh = Account {
                    address: address.to_owned(),
                    balance: 0,
                    nonce_used: true,
                    nonce: nonce,
                };
                self.accounts.push(fresh);
                proof {
                    assert(self@ =~= spec_debit(old(self)@, address@, amount, fee, nonce));
                    lemma_push_fresh_wf(old(self)@, self@[old(self)@.len() as int]);
                }
            },
        }
    }

    /// Applies one validated transaction: debit the sender by amount plus
    /// fee, credit the recipient, credit the fee to `producer`, record the
    /// sender's nonce. Fails without any effect when the sender's balance
    /// does not cover the cost or a credit would overflow; the ledger does
    /// not re-verify signatures.
    pub fn apply(&mut self, tx: &Transaction, producer: &str) -> (r: Result<(), LedgerError>)
        requires
            old(self).wf(),
        ensures
            final(self).wf(),
            match spec_apply_tx(old(self)@, tx@, producer@) {
                Ok(l2) => r is Ok && final(self)@ == l2,
                Err(e) => r == Err::<(), LedgerError>(e) && final(self)@ == old(self)@,
            },
    {
        let cost_ok = match tx.amount.checked_add(tx.fee) {
            Some(cost) => self.get_balance(tx.sender.as_str()) >= cost,
            None => false,
        };
        if !cost_ok {
            return Err(LedgerError::InsufficientFunds);
        }
        let mut staged = self.clone_accounts();
        staged.debit_and_note(tx.sender.as_str(), tx.amount, tx.fee, tx.nonce);
        if !staged.credit_checked(tx.recipient.as_str(), tx.amount) {
            return Err(LedgerError::BalanceOverflow);
        }
        if !staged.credit_checked(producer, tx.fee) {
            return Err(LedgerError::BalanceOverflow);
        }
        *self = staged;
        Ok(())
    }

    /// Applies a batch of transactions transactionally: all of them in
    /// order against a staged copy, with fees to `producer`, committing
    /// only when every one succeeds; a failure anywhere leaves the ledger
    /// exactly as it was.
    pub fn apply_transactions(&mut self, txs: &Vec<Transaction>, producer: &str) -> (ok: bool)
        requires
            old(self).wf(),
        ensures
            final(self).wf(),
            ok == (spec_apply_txs(old(self)@, spec_tx_views(txs@), producer@) is Some),
            ok ==> Some(final(self)@) == spec_apply_txs(
                old(self)@,
                spec_tx_views(txs@),
                producer@,
            ),
            !ok ==> final(self)@ == old(self)@,
    {
        let ghost views: Seq<TxView> = spec_tx_views(txs@);
        let mut staged = self.clone_accounts();
        let n: usize = txs.len();
        let mut i: usize = 0;
        while i < n
            invariant
                n == txs@.len(),
                views == spec_tx_views(txs@),
                i <= n,
                self@ == old(self)@,
                self.wf(),
                staged.wf(),
                Some(staged@) == spec_apply_txs(old(self)@, views.take(i as int), producer@),
            decreases n - i,
        {
            proof {
                assert(views.take(i + 1).drop_last() =~= views.take(i as int));
                assert(views.take(i + 1).last() == views[i as int]);
                assert(spec_tx_views(txs@)[i as int] == txs@[i as int]@);
            }
            let r = staged.apply(&txs[i], producer);
            if r.is_err() {
                proof {
                    assert(spec_apply_txs(old(self)@, views.take(i + 1), producer@) is None);
                    lemma_apply_txs_fail_extends(old(self)@, views, producer@, i + 1);
                }
                return false;
            }
            i = i + 1;
        }
        proof {
            assert(views.take(n as int) =~= views);
        }
        *self = staged;
        true
    }

    /// A copy carrying the same mathematical value.
    pub fn clone_accounts(&self) -> (r: Ledger)
        ensures
            r@ == self@,
    {
        let accounts = self.accounts.clone();
        proof {
            assert forall|i: int| 0 <= i < accounts@.len() implies accounts@[i]@
                == self.accounts@[i]@ by {
            }
            assert(Seq::new(accounts@.len(), |i: int| accounts@[i]@) =~= self@);
        }
        Ledger { accounts }
    }

    /// The number of recorded accounts.
    pub fn len(&self) -> (r: usize)
        ensures
            r == self@.len(),
    {
        self.accounts.len()
    }
}

/// A first match at `i` fixes the recorded balance.
proof fn lemma_balance_at(l: Seq<AccountView>, addr: Seq<char>, i: int)
    requires
        0 <= i < l.len(),
        l[i].address == addr,
        forall|j: int| 0 <= j < i ==> l[j].address != addr,
    ensures
        spec_balance_of(l, addr) == l[i].balance,
    decreases i,
{
    if i > 0 {
        lemma_balance_at(l.drop_first(), addr, i - 1);
    }
}

/// No match means a zero balance.
proof fn lemma_balance_missing(l: Seq<AccountView>, addr: Seq<char>)
    requires
        forall|j: int| 0 <= j < l.len() ==> l[j].address != addr,
    ensures
        spec_balance_of(l, addr) == 0,
    decreases l.len(),
{
    if l.len() > 0 {
        lemma_balance_missing(l.drop_first(), addr);
    }
}

/// A first match at `i` fixes the expected nonce.
proof fn lemma_expected_nonce_at(l: Seq<AccountView>, addr: Seq<char>, i: int)
    requires
        0 <= i < l.len(),
        l[i].address == addr,
        forall|j: int| 0 <= j < i ==> l[j].address != addr,
    ensures
        spec_expected_nonce(l, addr) == if l[i].nonce_used {
            l[i].nonce + 1
        } else {
            0
        },
    decreases i,
{
    if i > 0 {
        lemma_expected_nonce_at(l.drop_first(), addr, i - 1);
    }
}

/// An unknown address is expected to start at nonce zero.
proof fn lemma_expected_nonce_missing(l: Seq<AccountView>, addr: Seq<char>)
    requires
        forall|j: int| 0 <= j < l.len() ==> l[j].address != addr,
    ensures
        spec_expected_nonce(l, addr) == 0,
    decreases l.len(),
{
    if l.len() > 0 {
        lemma_expected_nonce_missing(l.drop_first(), addr);
    }
}

/// A checked credit at a first match updates exactly that entry.
proof fn lemma_credit_at(l: Seq<AccountView>, addr: Seq<char>, amount: u64, i: int)
    requires
        0 <= i < l.len(),
        l[i].address == addr,
        forall|j: int| 0 <= j < i ==> l[j].address != addr,
    ensures
        l[i].balance + amount <= u64::MAX ==> spec_credit(l, addr, amount) == Some(
            l.update(
                i,
                AccountView {
                    address: l[i].address,
                    balance: (l[i].balance + amount) as u64,
                    nonce_used: l[i].nonce_used,
                    nonce: l[i].nonce,
                },
            ),
        ),
        l[i].balance + amount > u64::MAX ==> spec_credit(l, addr, amount) is None,
    decreases i,
{
    if i == 0 {
        if l[i].balance + amount <= u64::MAX {
            assert(seq![
                AccountView {
                    address: l[0].address,
                    balance: (l[0].balance + amount) as u64,
                    nonce_used: l[0].nonce_used,
                    nonce: l[0].nonce,
                },
            ] + l.drop_first() =~= l.update(
                0,
                AccountView {
                    address: l[0].address,
                    balance: (l[0].balance + amount) as u64,
                    nonce_used: l[0].nonce_used,
                    nonce: l[0].nonce,
                },
            ));
        }
    } else {
        lemma_credit_at(l.drop_first(), addr, amount, i - 1);
        if l[i].balance + amount <= u64::MAX {
            assert(seq![l[0]] + l.drop_first().update(
                i - 1,
                AccountView {
                    address: l[i].address,
                    balance: (l[i].balance + amount) as u64,
                    nonce_used: l[i].nonce_used,
                    nonce: l[i].nonce,
                },
            ) =~= l.update(
                i,
                AccountView {
                    address: l[i].address,
                    balance: (l[i].balance + amount) as u64,
                    nonce_used: l[i].nonce_used,
                    nonce: l[i].nonce,
                },
            ));
        }
    }
}

/// A checked credit to an unknown address appends a fresh entry.
proof fn lemma_credit_missing(l: Seq<AccountView>, addr: Seq<char>, amount: u64)
    requires
        forall|j: int| 0 <= j < l.len() ==> l[j].address != addr,
    ensures
        spec_credit(l, addr, amount) == Some(
            l.push(AccountView { address: addr, balance: amount, nonce_used: false, nonce: 0 }),
        ),
    decreases l.len(),
{
    let fresh = AccountView { address: addr, balance: amount, nonce_used: false, nonce: 0 };
    if l.len() == 0 {
        assert(seq![fresh] =~= l.push(fresh));
    } else {
        lemma_credit_missing(l.drop_first(), addr, amount);
        assert(seq![l[0]] + l.drop_first().push(fresh) =~= l.push(fresh));
    }
}

/// A saturating credit at a first match updates exactly that entry.
proof fn lemma_credit_saturating_at(l: Seq<AccountView>, addr: Seq<char>, amount: u64, i: int)
    requires
        0 <= i < l.len(),
        l[i].address == addr,
        forall|j: int| 0 <= j < i ==> l[j].address != addr,
    ensures
        spec_credit_saturating(l, addr, amount) == l.update(
            i,
            AccountView {
                address: l[i].address,
                balance: if l[i].balance + amount <= u64::MAX {
                    (l[i].balance + amount) as u64
                } else {
                    u64::MAX
                },
                nonce_used: l[i].nonce_used,
                nonce: l[i].nonce,
            },
        ),
    decreases i,
{
    let updated = AccountView {
        address: l[i].address,
        balance: if l[i].balance + amount <= u64::MAX {
            (l[i].balance + amount) as u64
        } else {
            u64::MAX
        },
        nonce_used: l[i].nonce_used,
        nonce: l[i].nonce,
    };
    if i == 0 {
        assert(seq![updated] + l.drop_first() =~= l.update(0, updated));
    } else {
        lemma_credit_saturating_at(l.drop_first(), addr, amount, i - 1);
        assert(seq![l[0]] + l.drop_first().update(i - 1, updated) =~= l.update(i, updated));
    }
}

/// A saturating credit to an unknown address appends a fresh entry.
proof fn lemma_credit_saturating_missing(l: Seq<AccountView>, addr: Seq<char>, amount: u64)
    requires
        forall|j: int| 0 <= j < l.len() ==> l[j].address != addr,
    ensures
        spec_credit_saturating(l, addr, amount) == l.push(
            AccountView { address: addr, balance: amount, nonce_used: false, nonce: 0 },
        ),
    decreases l.len(),
{
    let fresh = AccountView { address: addr, balance: amount, nonce_used: false, nonce: 0 };
    if l.len() == 0 {
        assert(seq![fresh] =~= l.push(fresh));
    } else {
        lemma_credit_saturating_missing(l.drop_first(), addr, amount);
        assert(seq![l[0]] + l.drop_first().push(fresh) =~= l.push(fresh));
    }
}

/// A debit at a first match updates exactly that entry.
proof fn lemma_debit_at(l: Seq<AccountView>, addr: Seq<char>, amount: u64, fee: u64, nonce: u64, i: int)
    requires
        0 <= i < l.len(),
        l[i].address == addr,
        forall|j: int| 0 <= j < i ==> l[j].address != addr,
    ensures
        spec_debit(l, addr, amount, fee, nonce) == l.update(
            i,
            AccountView {
                address: l[i].address,
                balance: if l[i].balance >= amount + fee {
                    (l[i].balance - amount - fee) as u64
                } else {
                    0
                },
                nonce_used: true,
                nonce: nonce,
            },
        ),
    decreases i,
{
    let updated = AccountView {
        address: l[i].address,
        balance: if l[i].balance >= amount + fee {
            (l[i].balance - amount - fee) as u64
        } else {
            0
        },
        nonce_used: true,
        nonce: nonce,
    };
    if i == 0 {
        assert(seq![updated] + l.drop_first() =~= l.update(0, updated));
    } else {
        lemma_debit_at(l.drop_first(), addr, amount, fee, nonce, i - 1);
        assert(seq![l[0]] + l.drop_first().update(i - 1, updated) =~= l.update(i, updated));
    }
}

/// A debit from an unknown address appends an entry recording the nonce.
proof fn lemma_debit_missing(l: Seq<AccountView>, addr: Seq<char>, amount: u64, fee: u64, nonce: u64)
    requires
        forall|j: int| 0 <= j < l.len() ==> l[j].address != addr,
    ensures
        spec_debit(l, addr, amount, fee, nonce) == l.push(
            AccountView { address: addr, balance: 0, nonce_used: true, nonce: nonce },
        ),
    decreases l.len(),
{
    let fresh = AccountView { address: addr, balance: 0, nonce_used: true, nonce: nonce };
    if l.len() == 0 {
        assert(seq![fresh] =~= l.push(fresh));
    } else {
        lemma_debit_missing(l.drop_first(), addr, amount, fee, nonce);
        assert(seq![l[0]] + l.drop_first().push(fresh) =~= l.push(fresh));
    }
}

/// Updating an entry in place, keeping its address, preserves uniqueness.
proof fn lemma_update_wf(l: Seq<AccountView>, i: int, v: AccountView)
    requires
        spec_ledger_wf(l),
        0 <= i < l.len(),
        v.address == l[i].address,
    ensures
        spec_ledger_wf(l.update(i, v)),
{
}

/// Appending an entry for an address not yet present preserves uniqueness.
proof fn lemma_push_fresh_wf(l: Seq<AccountView>, v: AccountView)
    requires
        spec_ledger_wf(l),
        forall|j: int| 0 <= j < l.len() ==> l[j].address != v.address,
    ensures
        spec_ledger_wf(l.push(v)),
{
}

} // verus!

verus! {

/// The sum over a sequence with one entry in front.
proof fn lemma_sum_cons(x: AccountView, s: Seq<AccountView>)
    ensures
        spec_sum(seq![x] + s) == x.balance + spec_sum(s),
    decreases s.len(),
{
    if s.len() == 0 {
        assert(seq![x] + s =~= seq![x]);
        assert((seq![x] + s).drop_last() =~= Seq::<AccountView>::empty());
        reveal_with_fuel(spec_sum, 2);
    } else {
        lemma_sum_cons(x, s.drop_last());
        assert((seq![x] + s).drop_last() =~= seq![x] + s.drop_last());
        assert((seq![x] + s).last() == s.last());
    }
}

/// A checked credit raises the total of all balances by the amount.
pub proof fn lemma_credit_sum(l: Seq<AccountView>, addr: Seq<char>, amount: u64)
    requires
        spec_credit(l, addr, amount) is Some,
    ensures
        spec_sum(spec_credit(l, addr, amount).unwrap()) == spec_sum(l) + amount,
    decreases l.len(),
{
    if l.len() == 0 {
        let fresh = AccountView { address: addr, balance: amount, nonce_used: false, nonce: 0 };
        assert(seq![fresh].drop_last() =~= Seq::<AccountView>::empty());
        reveal_with_fuel(spec_sum, 2);
    } else {
        assert(l =~= seq![l[0]] + l.drop_first());
        lemma_sum_cons(l[0], l.drop_first());
        if l[0].address == addr {
            let updated = AccountView {
                address: l[0].address,
                balance: (l[0].balance + amount) as u64,
                nonce_used: l[0].nonce_used,
                nonce: l[0].nonce,
            };
            lemma_sum_cons(updated, l.drop_first());
        } else {
            lemma_credit_sum(l.drop_first(), addr, amount);
            lemma_sum_cons(l[0], spec_credit(l.drop_first(), addr, amount).unwrap());
        }
    }
}

/// A covered debit lowers the total of all balances by amount plus fee.
proof fn lemma_debit_sum(l: Seq<AccountView>, addr: Seq<char>, amount: u64, fee: u64, nonce: u64)
    requires
        amount + fee <= u64::MAX,
        spec_balance_of(l, addr) >= amount + fee,
    ensures
        spec_sum(spec_debit(l, addr, amount, fee, nonce)) == spec_sum(l) - amount - fee,
    decreases l.len(),
{
    if l.len() == 0 {
        let fresh = AccountView { address: addr, balance: 0, nonce_used: true, nonce: nonce };
        assert(seq![fresh].drop_last() =~= Seq::<AccountView>::empty());
        reveal_with_fuel(spec_sum, 2);
    } else {
        assert(l =~= seq![l[0]] + l.drop_first());
        lemma_sum_cons(l[0], l.drop_first());
        if l[0].address == addr {
            let updated = AccountView {
                address: l[0].address,
                balance: (l[0].balance - amount - fee) as u64,
                nonce_used: true,
                nonce: nonce,
            };
            lemma_sum_cons(updated, l.drop_first());
        } else {
            lemma_debit_sum(l.drop_first(), addr, amount, fee, nonce);
            lemma_sum_cons(l[0], spec_debit(l.drop_first(), addr, amount, fee, nonce));
        }
    }
}

/// A failed prefix dooms the whole sequence of applications.
pub proof fn lemma_apply_txs_fail_extends(
    l: Seq<AccountView>,
    ts: Seq<TxView>,
    producer: Seq<char>,
    k: int,
)
    requires
        0 <= k <= ts.len(),
        spec_apply_txs(l, ts.take(k), producer) is None,
    ensures
        spec_apply_txs(l, ts, producer) is None,
    decreases ts.len() - k,
{
    if k < ts.len() {
        assert(ts.take(k + 1).drop_last() =~= ts.take(k));
        lemma_apply_txs_fail_extends(l, ts, producer, k + 1);
    } else {
        assert(ts.take(k) =~= ts);
    }
}

/// Conservation within one transaction: a successful application only moves
/// value between accounts — the amount from sender to recipient, the fee
/// from sender to producer — so the total of all balances is unchanged.
pub proof fn lemma_apply_tx_conserves_sum(l: Seq<AccountView>, t: TxView, producer: Seq<char>)
    requires
        spec_apply_tx(l, t, producer) is Ok,
    ensures
        spec_sum(spec_apply_tx(l, t, producer).unwrap()) == spec_sum(l),
{
    let after_debit = spec_debit(l, t.sender, t.amount, t.fee, t.nonce);
    lemma_debit_sum(l, t.sender, t.amount, t.fee, t.nonce);
    let after_amount = spec_credit(after_debit, t.recipient, t.amount).unwrap();
    lemma_credit_sum(after_debit, t.recipient, t.amount);
    lemma_credit_sum(after_amount, producer, t.fee);
}

/// No overdraft: a transaction is applied only when the sender's recorded
/// balance covers amount plus fee, so the debit can never push a balance
/// below zero; an application that would is refused with no effect.
pub proof fn lemma_apply_tx_no_overdraft(l: Seq<AccountView>, t: TxView, producer: Seq<char>)
    requires
        spec_apply_tx(l, t, producer) is Ok,
    ensures
        spec_balance_of(l, t.sender) >= t.amount + t.fee,
{
}

/// No balance ever goes negative under any sequence of applications:
/// every step of a successful sequence debits a sender whose balance at
/// that step covers the full cost — balances are unsigned, and a sequence
/// with an uncovered debit anywhere fails as a whole instead.
#[verifier::rlimit(50)]
pub proof fn lemma_apply_txs_never_overdraw(
    l: Seq<AccountView>,
    ts: Seq<TxView>,
    producer: Seq<char>,
)
    requires
        spec_apply_txs(l, ts, producer) is Some,
    ensures
        forall|k: int|
            0 <= k < ts.len() ==> {
                &&& spec_apply_txs(l, ts.take(k), producer) is Some
                &&& spec_balance_of(
                    spec_apply_txs(l, ts.take(k), producer).unwrap(),
                    (#[trigger] ts[k]).sender,
                ) >= ts[k].amount + ts[k].fee
            },
{
    assert forall|k: int| 0 <= k < ts.len() implies {
        &&& spec_apply_txs(l, ts.take(k), producer) is Some
        &&& spec_balance_of(
            spec_apply_txs(l, ts.take(k), producer).unwrap(),
            (#[trigger] ts[k]).sender,
        ) >= ts[k].amount + ts[k].fee
    } by {
        if spec_apply_txs(l, ts.take(k), producer) is None {
            lemma_apply_txs_fail_extends(l, ts, producer, k);
        }
        if spec_apply_txs(l, ts.take(k + 1), producer) is None {
            lemma_apply_txs_fail_extends(l, ts, producer, k + 1);
        }
        assert(ts.take(k + 1).drop_last() =~= ts.take(k));
        assert(ts.take(k + 1).last() == ts[k]);
    }
}

} // verus!
