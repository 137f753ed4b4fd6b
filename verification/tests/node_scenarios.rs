use ed25519_dalek::Signer;
use sha2::Digest;
use gaaius_core::blockchain::Blockchain;
use gaaius_core::consensus::ConsensusStrategy;
use gaaius_core::explorer::{get_block_by_hash, get_transaction_by_hash, get_wallet_info};
use gaaius_core::ledger::Ledger;
use gaaius_core::network::{NetAction, NetworkMessage, P2PNetwork};
use gaaius_core::pool::{RejectReason, TransactionPool};
use gaaius_core::transaction::Transaction;
use gaaius_core::vm::{SmartContract, VMType};

fn signed_tx(
    seed: u8,
    sender: &str,
    recipient: &str,
    amount: u64,
    fee: u64,
    nonce: u64,
) -> Transaction {
    let sk = ed25519_dalek::SigningKey::from_bytes(&[seed; 32]);
    let pk = sk.verifying_key().to_bytes().to_vec();
    let mut tx = Transaction::new(
        sender.to_string(),
        recipient.to_string(),
        amount,
        fee,
        nonce,
        pk,
        Vec::new(),
        None,
    );
    let digest = tx.calculate_hash();
    tx.signature = sk.sign(&digest).to_bytes().to_vec();
    tx
}

fn genesis(entries: &[(&str, u64)]) -> Vec<(String, u64)> {
    entries.iter().map(|(a, v)| (a.to_string(), *v)).collect()
}

fn pow_node(entries: &[(&str, u64)]) -> Blockchain {
    Blockchain::with_genesis(genesis(entries), ConsensusStrategy::ProofOfWork { difficulty: 0 })
}

#[test]
fn end_to_end_single_block() {
    // Genesis allocates {A: 1000}; A sends B 100 with fee 1; C produces.
    let mut bc = pow_node(&[("A", 1000)]);
    let tx = signed_tx(1, "A", "B", 100, 1, 0);
    assert!(bc.add_transaction(tx).is_ok());
    assert!(bc.mine_block("C"));
    assert_eq!(bc.height(), 2);
    assert_eq!(bc.get_balance("A"), 899);
    assert_eq!(bc.get_balance("B"), 100);
    assert_eq!(bc.get_balance("C"), gaaius_core::chain::BLOCK_REWARD + 1);
    assert_eq!(bc.pending_count(), 0);
    assert!(bc.is_valid());
}

#[test]
fn tie_between_forks_keeps_incumbent() {
    // Two nodes fork at height one with equal weight; neither replaces.
    let mut node_x = pow_node(&[("A", 1000)]);
    let mut node_y = pow_node(&[("A", 1000)]);
    assert!(node_x.mine_block("X"));
    assert!(node_y.mine_block("Y"));
    let own_tip = node_y.get_chain().last().unwrap().hash.clone();
    assert!(!node_y.reconcile(node_x.get_chain()));
    assert_eq!(node_y.height(), 2);
    assert_eq!(node_y.get_chain().last().unwrap().hash, own_tip);
}

#[test]
fn heavier_fork_wins_on_both_nodes() {
    let mut node_x = pow_node(&[("A", 1000)]);
    let mut node_y = pow_node(&[("A", 1000)]);
    assert!(node_x.mine_block("X"));
    assert!(node_y.mine_block("Y"));
    assert!(node_y.mine_block("Y"));
    // X adopts Y's heavier chain; Y refuses X's lighter one.
    assert!(node_x.reconcile(node_y.get_chain()));
    assert!(!node_y.reconcile(node_x.get_chain()));
    assert_eq!(node_x.height(), 3);
    assert_eq!(
        node_x.get_chain().last().unwrap().hash,
        node_y.get_chain().last().unwrap().hash
    );
}

#[test]
fn handler_propagates_fresh_transaction_once() {
    let mut net = P2PNetwork::new();
    let mut bc = pow_node(&[("A", 1000)]);
    let tx = signed_tx(1, "A", "B", 10, 1, 0);
    let copy = tx.clone();
    let act = net.handle_message(&mut bc, NetworkMessage::NewTransaction(tx));
    assert!(matches!(
        act,
        NetAction::Broadcast(NetworkMessage::NewTransaction(_))
    ));
    assert_eq!(bc.pending_count(), 1);
    // The same transaction again is suppressed, not re-broadcast.
    let act2 = net.handle_message(&mut bc, NetworkMessage::NewTransaction(copy));
    assert!(matches!(act2, NetAction::Nothing));
    assert_eq!(bc.pending_count(), 1);
}

#[test]
fn handler_requests_chain_on_unlinked_block() {
    let mut net = P2PNetwork::new();
    let mut bc = pow_node(&[("A", 1000)]);
    let mut peer = pow_node(&[("A", 1000)]);
    assert!(peer.mine_block("P"));
    assert!(peer.mine_block("P"));
    // The second block of the peer does not link to our genesis tip.
    let stray = peer.get_chain()[2].clone();
    let act = net.handle_message(&mut bc, NetworkMessage::NewBlock(stray));
    assert!(matches!(act, NetAction::Reply(NetworkMessage::RequestChain)));
    assert_eq!(bc.height(), 1);
}

#[test]
fn handler_appends_linked_block_and_serves_chain() {
    let mut net = P2PNetwork::new();
    let mut bc = pow_node(&[("A", 1000)]);
    let mut peer = pow_node(&[("A", 1000)]);
    assert!(peer.mine_block("P"));
    let next = peer.get_chain()[1].clone();
    let act = net.handle_message(&mut bc, NetworkMessage::NewBlock(next));
    assert!(matches!(act, NetAction::Nothing));
    assert_eq!(bc.height(), 2);

    let act2 = net.handle_message(&mut bc, NetworkMessage::RequestChain);
    match act2 {
        NetAction::Reply(NetworkMessage::ResponseChain(blocks)) => {
            assert_eq!(blocks.len(), 2)
        },
        _ => panic!("a chain request must be answered with the chain"),
    }
}

#[test]
fn handler_reconciles_received_chain() {
    let mut net = P2PNetwork::new();
    let mut bc = pow_node(&[("A", 1000)]);
    let mut peer = pow_node(&[("A", 1000)]);
    assert!(peer.mine_block("P"));
    assert!(peer.mine_block("P"));
    let act = net.handle_message(&mut bc, NetworkMessage::ResponseChain(peer.get_chain()));
    assert!(matches!(act, NetAction::Nothing));
    assert_eq!(bc.height(), 3);
}

#[test]
fn peer_registration_is_idempotent() {
    let mut net = P2PNetwork::new();
    let mut bc = pow_node(&[]);
    net.handle_message(&mut bc, NetworkMessage::RegisterPeer("10.0.0.1:7000".to_string()));
    net.handle_message(&mut bc, NetworkMessage::RegisterPeer("10.0.0.1:7000".to_string()));
    net.handle_message(&mut bc, NetworkMessage::RegisterPeer("10.0.0.2:7000".to_string()));
    assert_eq!(net.peer_list().len(), 2);
}

#[test]
fn explorer_summarizes_wallets_and_finds_records() {
    let mut bc = pow_node(&[("A", 1000)]);
    let tx = signed_tx(1, "A", "B", 100, 1, 0);
    let tx_id = tx.hash();
    assert!(bc.add_transaction(tx).is_ok());
    assert!(bc.mine_block("C"));

    let info_a = get_wallet_info(&bc, "A");
    assert_eq!(info_a.balance, 899);
    assert_eq!(info_a.tx_count, 1);
    let info_c = get_wallet_info(&bc, "C");
    assert_eq!(info_c.tx_count, 0);

    let tip_hash = bc.get_chain()[1].hash.clone();
    let found = get_block_by_hash(&bc, &tip_hash).expect("the tip must be found by its hash");
    assert_eq!(found.index, 1);
    assert!(get_block_by_hash(&bc, "no-such-hash").is_none());

    let found_tx = get_transaction_by_hash(&bc, &tx_id)
        .expect("a committed transaction must be found by its identity");
    assert_eq!(found_tx.amount, 100);
    assert!(get_transaction_by_hash(&bc, "no-such-id").is_none());
}

#[test]
fn contract_deployment_reports_target_address() {
    for vm_type in [VMType::EVM, VMType::WASM, VMType::MoveVM, VMType::CairoVM] {
        let contract = SmartContract {
            vm_type,
            bytecode: vec![0, 97, 115, 109],
            gas_limit: 100_000,
            sender: "A".to_string(),
            contract_address: "c0ffee".to_string(),
        };
        assert_eq!(contract.deploy(), Ok("c0ffee".to_string()));
    }
}

#[test]
fn transaction_digest_is_sha256_of_canonical_bytes() {
    let tx = signed_tx(1, "A", "B", 100, 1, 0);
    let expected: Vec<u8> = sha2::Sha256::digest(&tx.canonical_bytes()).to_vec();
    assert_eq!(tx.calculate_hash(), expected);
}

#[test]
fn transaction_identity_is_lowercase_hex_of_digest() {
    let tx = signed_tx(1, "A", "B", 100, 1, 0);
    let id = tx.hash();
    assert_eq!(id.len(), 64);
    assert_eq!(id, hex::encode(tx.calculate_hash()));
}

#[test]
fn signature_validity_follows_the_key_and_bytes() {
    let good = signed_tx(1, "A", "B", 100, 1, 0);
    assert!(good.is_valid());
    let mut tampered = good.clone();
    tampered.amount = 101;
    assert!(!tampered.is_valid());
    let mut forged = good.clone();
    forged.signature = vec![0u8; 64];
    assert!(!forged.is_valid());
}

#[test]
fn mining_without_funds_still_produces_empty_block() {
    let mut bc = pow_node(&[]);
    assert!(bc.mine_block("M"));
    assert_eq!(bc.height(), 2);
    assert_eq!(bc.get_balance("M"), gaaius_core::chain::BLOCK_REWARD);
}

#[test]
fn peer_block_evicts_included_transactions() {
    let mut net = P2PNetwork::new();
    let mut bc = pow_node(&[("A", 1000)]);
    let mut peer = pow_node(&[("A", 1000)]);
    let tx = signed_tx(1, "A", "B", 10, 1, 0);
    assert!(bc.add_transaction(tx.clone()).is_ok());
    assert_eq!(bc.pending_count(), 1);
    // The peer commits the same transaction and its block reaches us.
    assert!(peer.add_transaction(tx).is_ok());
    assert!(peer.mine_block("P"));
    let block = peer.get_chain()[1].clone();
    let act = net.handle_message(&mut bc, NetworkMessage::NewBlock(block));
    assert!(matches!(act, NetAction::Nothing));
    assert_eq!(bc.height(), 2);
    assert_eq!(bc.pending_count(), 0);
}

#[test]
fn admission_checks_ledger_even_with_pending_transactions() {
    let mut pool = TransactionPool::new();
    let mut l = Ledger::new();
    l.apply_reward("alice", 1000);
    let zero = signed_tx(1, "alice", "bob", 1, 0, 0);
    assert!(pool.submit(zero, &l).is_ok());
    // The ledger moves under the pool: a peer block spends alice's nonce 5.
    let five = signed_tx(1, "alice", "bob", 1, 0, 5);
    assert!(l.apply(&five, "carol").is_ok());
    // The successor of the pending run is no longer acceptable...
    let one = signed_tx(1, "alice", "bob", 1, 0, 1);
    assert_eq!(pool.submit(one, &l), Err(RejectReason::NonceConflict));
    // ...only the successor of what the ledger has already passed is.
    let six = signed_tx(1, "alice", "bob", 1, 0, 6);
    assert!(pool.submit(six, &l).is_ok());
}

#[test]
fn reconciliation_prunes_stale_pending_transactions() {
    let mut bc = pow_node(&[("A", 1000)]);
    let mut peer = pow_node(&[("A", 1000)]);
    let tx = signed_tx(1, "A", "B", 100, 1, 0);
    assert!(bc.add_transaction(tx.clone()).is_ok());
    assert_eq!(bc.pending_count(), 1);
    // The peer commits the same transaction and builds a heavier chain.
    assert!(peer.add_transaction(tx).is_ok());
    assert!(peer.mine_block("P"));
    assert!(peer.mine_block("P"));
    assert!(bc.reconcile(peer.get_chain()));
    // The adopted ledger already passed the pending nonce: nothing stays
    // staged, and producing a block cannot apply the transfer twice.
    assert_eq!(bc.pending_count(), 0);
    assert_eq!(bc.get_balance("A"), 899);
    assert!(bc.mine_block("M"));
    assert_eq!(bc.get_balance("A"), 899);
    assert_eq!(bc.get_balance("B"), 100);
}

#[test]
fn payload_transactions_lists_contract_calls_in_order() {
    let plain = signed_tx(1, "A", "B", 1, 0, 0);
    let mut with_payload = Transaction::new(
        "A".to_string(),
        "contract-7".to_string(),
        0,
        0,
        1,
        vec![9u8; 32],
        Vec::new(),
        Some("stored-call".to_string()),
    );
    with_payload.signature = vec![0u8; 64];
    let block = gaaius_core::block::Block::new(
        1,
        7,
        "genesis".to_string(),
        vec![plain, with_payload],
        "P".to_string(),
        0,
        1,
    )
    .unwrap();
    let payloads = block.payload_transactions();
    assert_eq!(payloads.len(), 1);
    assert_eq!(payloads[0].recipient, "contract-7");
    assert_eq!(payloads[0].data.as_deref(), Some("stored-call"));
}
