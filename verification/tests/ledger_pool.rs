use ed25519_dalek::Signer;
use gaaius_core::ledger::{Ledger, LedgerError};
use gaaius_core::pool::{RejectReason, TransactionPool};
use gaaius_core::transaction::Transaction;

fn signed_tx(
    seed: u8,
    sender: &str,
    recipient: &str,
    amount: u64,
    fee: u64,
    nonce: u64,
) -> Transaction {
    let sk = ed25519_dalek::SigningKey::from_bytes(&[seed; 32]);
    let pk = sk.verifying_key().to_bytes().to_vec();
    let mut tx = Transaction::new(
        sender.to_string(),
        recipient.to_string(),
        amount,
        fee,
        nonce,
        pk,
        Vec::new(),
        None,
    );
    let digest = tx.calculate_hash();
    tx.signature = sk.sign(&digest).to_bytes().to_vec();
    tx
}

#[test]
fn ledger_unknown_address_reads_zero() {
    let l = Ledger::new();
    assert_eq!(l.get_balance("nobody"), 0);
}

#[test]
fn ledger_reward_credits_and_saturates() {
    let mut l = Ledger::new();
    l.apply_reward("a", 50);
    assert_eq!(l.get_balance("a"), 50);
    l.apply_reward("a", u64::MAX);
    assert_eq!(l.get_balance("a"), u64::MAX);
}

#[test]
fn ledger_apply_moves_amount_and_fee() {
    let mut l = Ledger::new();
    l.apply_reward("alice", 1000);
    let tx = signed_tx(1, "alice", "bob", 100, 7, 0);
    assert!(l.apply(&tx, "carol").is_ok());
    assert_eq!(l.get_balance("alice"), 893);
    assert_eq!(l.get_balance("bob"), 100);
    assert_eq!(l.get_balance("carol"), 7);
}

#[test]
fn ledger_apply_conserves_total() {
    let mut l = Ledger::new();
    l.apply_reward("alice", 1000);
    l.apply_reward("bob", 250);
    let before = l.get_balance("alice") + l.get_balance("bob") + l.get_balance("carol");
    let tx = signed_tx(1, "alice", "bob", 300, 11, 0);
    assert!(l.apply(&tx, "carol").is_ok());
    let after = l.get_balance("alice") + l.get_balance("bob") + l.get_balance("carol");
    assert_eq!(before, after);
}

#[test]
fn ledger_rejects_overdraft_without_effect() {
    let mut l = Ledger::new();
    l.apply_reward("alice", 100);
    let tx = signed_tx(1, "alice", "bob", 100, 1, 0);
    assert_eq!(l.apply(&tx, "carol"), Err(LedgerError::InsufficientFunds));
    assert_eq!(l.get_balance("alice"), 100);
    assert_eq!(l.get_balance("bob"), 0);
}

#[test]
fn ledger_rejects_credit_overflow_without_effect() {
    let mut l = Ledger::new();
    l.apply_reward("alice", 1000);
    l.apply_reward("bob", u64::MAX);
    let tx = signed_tx(1, "alice", "bob", 1, 0, 0);
    assert_eq!(l.apply(&tx, "carol"), Err(LedgerError::BalanceOverflow));
    assert_eq!(l.get_balance("alice"), 1000);
    assert_eq!(l.get_balance("bob"), u64::MAX);
}

#[test]
fn ledger_batch_application_is_transactional() {
    let mut l = Ledger::new();
    l.apply_reward("alice", 100);
    let good = signed_tx(1, "alice", "bob", 40, 0, 0);
    let bad = signed_tx(1, "alice", "bob", 1000, 0, 1);
    let txs = vec![good, bad];
    assert!(!l.apply_transactions(&txs, "carol"));
    assert_eq!(l.get_balance("alice"), 100);
    assert_eq!(l.get_balance("bob"), 0);
}

#[test]
fn pool_rejects_bad_signature() {
    let mut pool = TransactionPool::new();
    let mut l = Ledger::new();
    l.apply_reward("alice", 1000);
    let mut tx = signed_tx(1, "alice", "bob", 10, 1, 0);
    tx.signature = vec![0u8; 64];
    assert_eq!(pool.submit(tx, &l), Err(RejectReason::BadSignature));
    assert_eq!(pool.len(), 0);
}

#[test]
fn pool_rejects_insufficient_funds() {
    let mut pool = TransactionPool::new();
    let mut l = Ledger::new();
    l.apply_reward("alice", 100);
    let tx = signed_tx(1, "alice", "bob", 100, 1, 0);
    assert_eq!(pool.submit(tx, &l), Err(RejectReason::InsufficientFunds));
}

#[test]
fn pool_counts_pending_debits_against_balance() {
    let mut pool = TransactionPool::new();
    let mut l = Ledger::new();
    l.apply_reward("alice", 1000);
    let first = signed_tx(1, "alice", "bob", 100, 1, 0);
    assert!(pool.submit(first, &l).is_ok());
    // 899 remain uncommitted; 850 + 50 would need 900.
    let second = signed_tx(1, "alice", "bob", 850, 50, 1);
    assert_eq!(pool.submit(second, &l), Err(RejectReason::InsufficientFunds));
    // 800 + 50 still fit.
    let third = signed_tx(1, "alice", "bob", 800, 50, 1);
    assert!(pool.submit(third, &l).is_ok());
}

#[test]
fn pool_nonce_discipline() {
    let mut pool = TransactionPool::new();
    let mut l = Ledger::new();
    l.apply_reward("alice", 1000);

    // A gap is refused: nothing pending, ledger expects 0.
    let gap = signed_tx(1, "alice", "bob", 1, 0, 1);
    assert_eq!(pool.submit(gap, &l), Err(RejectReason::NonceConflict));

    // Nonce 0 is the expected start.
    let zero = signed_tx(1, "alice", "bob", 1, 0, 0);
    assert!(pool.submit(zero, &l).is_ok());

    // A nonce at or below a pending one is refused.
    let duplicate = signed_tx(1, "alice", "bob", 1, 0, 0);
    assert_eq!(pool.submit(duplicate, &l), Err(RejectReason::NonceConflict));

    // The successor of the pending nonce is accepted.
    let one = signed_tx(1, "alice", "bob", 1, 0, 1);
    assert!(pool.submit(one, &l).is_ok());

    // Skipping ahead is refused.
    let three = signed_tx(1, "alice", "bob", 1, 0, 3);
    assert_eq!(pool.submit(three, &l), Err(RejectReason::NonceConflict));
}

#[test]
fn pool_rejects_nonce_already_applied() {
    let mut pool = TransactionPool::new();
    let mut l = Ledger::new();
    l.apply_reward("alice", 1000);
    let spent = signed_tx(1, "alice", "bob", 1, 0, 0);
    assert!(l.apply(&spent, "carol").is_ok());
    let replay = signed_tx(1, "alice", "bob", 1, 0, 0);
    assert_eq!(pool.submit(replay, &l), Err(RejectReason::NonceConflict));
    let next = signed_tx(1, "alice", "bob", 1, 0, 1);
    assert!(pool.submit(next, &l).is_ok());
}

#[test]
fn pool_drain_keeps_arrival_order() {
    let mut pool = TransactionPool::new();
    let mut l = Ledger::new();
    l.apply_reward("alice", 1000);
    let zero = signed_tx(1, "alice", "bob", 1, 0, 0);
    let one = signed_tx(1, "alice", "bob", 1, 0, 1);
    assert!(pool.submit(zero, &l).is_ok());
    assert!(pool.submit(one, &l).is_ok());
    let drained = pool.drain_for_block(1);
    assert_eq!(drained.len(), 1);
    assert_eq!(drained[0].nonce, 0);
    assert_eq!(pool.len(), 1);
    let rest = pool.drain_for_block(10);
    assert_eq!(rest.len(), 1);
    assert_eq!(rest[0].nonce, 1);
    assert_eq!(pool.len(), 0);
}

#[test]
fn pool_evict_removes_by_identity() {
    let mut pool = TransactionPool::new();
    let mut l = Ledger::new();
    l.apply_reward("alice", 1000);
    let tx = signed_tx(1, "alice", "bob", 1, 0, 0);
    let id = tx.hash();
    assert!(pool.submit(tx, &l).is_ok());
    pool.evict("no-such-identity");
    assert_eq!(pool.len(), 1);
    pool.evict(&id);
    assert_eq!(pool.len(), 0);
}

#[test]
fn expected_nonce_follows_spent_nonce() {
    let mut l = Ledger::new();
    l.apply_reward("alice", 1000);
    assert_eq!(l.expected_nonce("alice"), Some(0));
    let tx = signed_tx(1, "alice", "bob", 1, 0, 0);
    assert!(l.apply(&tx, "carol").is_ok());
    assert_eq!(l.expected_nonce("alice"), Some(1));
    assert_eq!(l.expected_nonce("bob"), Some(0));
}

#[test]
fn nonce_space_exhaustion_blocks_further_spending() {
    let mut pool = TransactionPool::new();
    let mut l = Ledger::new();
    l.apply_reward("alice", 1000);
    // The ledger records the largest possible nonce as spent...
    let last = signed_tx(1, "alice", "bob", 1, 0, u64::MAX);
    assert!(l.apply(&last, "carol").is_ok());
    // ...after which no nonce can be expected and nothing is admitted.
    assert_eq!(l.expected_nonce("alice"), None);
    let after = signed_tx(1, "alice", "bob", 1, 0, 0);
    assert_eq!(pool.submit(after, &l), Err(RejectReason::NonceConflict));
}

#[test]
fn draining_an_empty_pool_is_harmless() {
    let mut pool = TransactionPool::new();
    assert_eq!(pool.drain_for_block(10).len(), 0);
    assert_eq!(pool.len(), 0);
}
