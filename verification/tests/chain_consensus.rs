use ed25519_dalek::Signer;
use gaaius_core::block::Block;
use gaaius_core::blockchain::Blockchain;
use gaaius_core::chain::{blocks_valid, Chain, ChainError};
use gaaius_core::consensus::ConsensusStrategy;
use gaaius_core::transaction::Transaction;

fn signed_tx(
    seed: u8,
    sender: &str,
    recipient: &str,
    amount: u64,
    fee: u64,
    nonce: u64,
) -> Transaction {
    let sk = ed25519_dalek::SigningKey::from_bytes(&[seed; 32]);
    let pk = sk.verifying_key().to_bytes().to_vec();
    let mut tx = Transaction::new(
        sender.to_string(),
        recipient.to_string(),
        amount,
        fee,
        nonce,
        pk,
        Vec::new(),
        None,
    );
    let digest = tx.calculate_hash();
    tx.signature = sk.sign(&digest).to_bytes().to_vec();
    tx
}

fn genesis(entries: &[(&str, u64)]) -> Vec<(String, u64)> {
    entries.iter().map(|(a, v)| (a.to_string(), *v)).collect()
}

fn seal_next(chain: &Chain, txs: Vec<Transaction>, producer: &str) -> Block {
    let tip = chain.tip_hash();
    let index = chain.tip_index() + 1;
    Block::new(index, 7, tip, txs, producer.to_string(), 0, 1).unwrap()
}

#[test]
fn genesis_chain_is_valid() {
    let chain = Chain::new(genesis(&[("alice", 1000)]));
    assert!(chain.is_valid());
    assert_eq!(chain.height(), 1);
    assert_eq!(chain.get_balance("alice"), 1000);
}

#[test]
fn append_built_chain_stays_valid() {
    let mut chain = Chain::new(genesis(&[("alice", 1000)]));
    let tx = signed_tx(1, "alice", "bob", 100, 1, 0);
    let b1 = seal_next(&chain, vec![tx], "carol");
    assert!(chain.append(b1).is_ok());
    let b2 = seal_next(&chain, vec![], "carol");
    assert!(chain.append(b2).is_ok());
    assert!(chain.is_valid());
    assert_eq!(chain.height(), 3);
}

#[test]
fn corrupted_parent_link_is_detected() {
    let genesis_alloc = genesis(&[("alice", 1000)]);
    let mut chain = Chain::new(genesis(&[("alice", 1000)]));
    let b1 = seal_next(&chain, vec![signed_tx(1, "alice", "bob", 100, 1, 0)], "carol");
    assert!(chain.append(b1).is_ok());
    let mut blocks = chain.blocks_snapshot();
    assert!(blocks_valid(&genesis_alloc, &blocks));
    blocks[1].previous_hash = format!("x{}", &blocks[1].previous_hash[1..]);
    assert!(!blocks_valid(&genesis_alloc, &blocks));
}

#[test]
fn corrupted_transaction_list_is_detected() {
    let genesis_alloc = genesis(&[("alice", 1000)]);
    let mut chain = Chain::new(genesis(&[("alice", 1000)]));
    let b1 = seal_next(&chain, vec![signed_tx(1, "alice", "bob", 100, 1, 0)], "carol");
    assert!(chain.append(b1).is_ok());
    let mut blocks = chain.blocks_snapshot();
    blocks[1].transactions[0].amount = 99;
    assert!(!blocks_valid(&genesis_alloc, &blocks));
}

#[test]
fn append_rejects_bad_linkage() {
    let mut chain = Chain::new(genesis(&[("alice", 1000)]));
    let forged = Block::new(1, 7, "f".repeat(64), vec![], "carol".to_string(), 0, 1).unwrap();
    assert_eq!(chain.append(forged), Err(ChainError::BadLinkage));
    assert_eq!(chain.height(), 1);
}

#[test]
fn append_rejects_bad_hash() {
    let mut chain = Chain::new(genesis(&[("alice", 1000)]));
    let mut b = seal_next(&chain, vec![], "carol");
    b.hash = "0".repeat(64);
    assert_eq!(chain.append(b), Err(ChainError::BadHash));
}

#[test]
fn append_rejects_bad_index() {
    let mut chain = Chain::new(genesis(&[("alice", 1000)]));
    let tip = chain.tip_hash();
    let b = Block::new(5, 7, tip, vec![], "carol".to_string(), 0, 1).unwrap();
    assert_eq!(chain.append(b), Err(ChainError::BadIndex));
}

#[test]
fn append_rejects_overspending_block() {
    let mut chain = Chain::new(genesis(&[("alice", 1000)]));
    let b = seal_next(&chain, vec![signed_tx(1, "alice", "bob", 2000, 0, 0)], "carol");
    assert_eq!(chain.append(b), Err(ChainError::BadTransaction));
    assert_eq!(chain.get_balance("alice"), 1000);
}

#[test]
fn block_application_mints_exactly_the_reward() {
    let mut chain = Chain::new(genesis(&[("alice", 1000)]));
    let tx = signed_tx(1, "alice", "bob", 100, 7, 0);
    let b = seal_next(&chain, vec![tx], "carol");
    assert!(chain.append(b).is_ok());
    let total = chain.get_balance("alice") + chain.get_balance("bob")
        + chain.get_balance("carol");
    assert_eq!(total, 1000 + gaaius_core::chain::BLOCK_REWARD);
}

#[test]
fn fork_choice_adopts_strictly_heavier_chain() {
    let strategy = ConsensusStrategy::ProofOfWork { difficulty: 0 };
    let mut ours = Chain::new(genesis(&[("alice", 1000)]));
    let mut theirs = Chain::new(genesis(&[("alice", 1000)]));
    let b1 = seal_next(&theirs, vec![], "peer");
    assert!(theirs.append(b1).is_ok());
    let b2 = seal_next(&theirs, vec![], "peer");
    assert!(theirs.append(b2).is_ok());
    assert!(ours.replace_if_heavier(theirs.blocks_snapshot(), &strategy));
    assert_eq!(ours.height(), 3);
    assert!(ours.is_valid());
}

#[test]
fn fork_choice_is_order_independent() {
    let strategy = ConsensusStrategy::ProofOfWork { difficulty: 0 };
    let mut heavy = Chain::new(genesis(&[("alice", 1000)]));
    let mut light = Chain::new(genesis(&[("alice", 1000)]));
    let hb1 = seal_next(&heavy, vec![], "x");
    assert!(heavy.append(hb1).is_ok());
    let hb2 = seal_next(&heavy, vec![], "x");
    assert!(heavy.append(hb2).is_ok());
    let lb1 = seal_next(&light, vec![signed_tx(1, "alice", "bob", 1, 0, 0)], "y");
    assert!(light.append(lb1).is_ok());

    // The light node receives the heavy chain: it adopts.
    let mut node_a = Chain::new(genesis(&[("alice", 1000)]));
    assert!(node_a.replace_if_heavier(light.blocks_snapshot(), &strategy));
    assert!(node_a.replace_if_heavier(heavy.blocks_snapshot(), &strategy));
    // The heavy node receives the light chain: it keeps its own.
    let mut node_b = Chain::new(genesis(&[("alice", 1000)]));
    assert!(node_b.replace_if_heavier(heavy.blocks_snapshot(), &strategy));
    assert!(!node_b.replace_if_heavier(light.blocks_snapshot(), &strategy));
    // Both ended on the heavy chain.
    assert_eq!(node_a.height(), node_b.height());
    assert_eq!(node_a.tip_hash(), node_b.tip_hash());
}

#[test]
fn fork_choice_rejects_invalid_candidate() {
    let strategy = ConsensusStrategy::ProofOfWork { difficulty: 0 };
    let mut ours = Chain::new(genesis(&[("alice", 1000)]));
    let mut theirs = Chain::new(genesis(&[("alice", 1000)]));
    let b1 = seal_next(&theirs, vec![], "peer");
    assert!(theirs.append(b1).is_ok());
    let b2 = seal_next(&theirs, vec![], "peer");
    assert!(theirs.append(b2).is_ok());
    let mut forged = theirs.blocks_snapshot();
    forged[1].previous_hash = "f".repeat(64);
    assert!(!ours.replace_if_heavier(forged, &strategy));
    assert_eq!(ours.height(), 1);
}

#[test]
fn pow_weight_counts_committed_blocks() {
    let strategy = ConsensusStrategy::ProofOfWork { difficulty: 0 };
    let mut chain = Chain::new(genesis(&[]));
    assert_eq!(strategy.weight(&chain.blocks_snapshot()), 0);
    let b1 = seal_next(&chain, vec![], "x");
    assert!(chain.append(b1).is_ok());
    assert_eq!(strategy.weight(&chain.blocks_snapshot()), 1);
}

#[test]
fn stake_weight_sums_producer_stakes() {
    let strategy = ConsensusStrategy::StakeWeighted {
        stakes: genesis(&[("x", 30), ("y", 12)]),
    };
    let mut chain = Chain::new(genesis(&[]));
    let b1 = seal_next(&chain, vec![], "x");
    assert!(chain.append(b1).is_ok());
    let b2 = seal_next(&chain, vec![], "y");
    assert!(chain.append(b2).is_ok());
    let b3 = seal_next(&chain, vec![], "stranger");
    assert!(chain.append(b3).is_ok());
    assert_eq!(strategy.weight(&chain.blocks_snapshot()), 42);
}

#[test]
fn pow_select_producer_names_nobody() {
    let strategy = ConsensusStrategy::ProofOfWork { difficulty: 2 };
    assert!(strategy.select_producer().is_none());
}

#[test]
fn stake_select_producer_elects_a_staker() {
    let empty = ConsensusStrategy::StakeWeighted { stakes: vec![] };
    assert!(empty.select_producer().is_none());
    let lone = ConsensusStrategy::StakeWeighted { stakes: genesis(&[("only", 5)]) };
    assert_eq!(lone.select_producer(), Some("only".to_string()));
    let idle = ConsensusStrategy::StakeWeighted {
        stakes: genesis(&[("zero", 0), ("whale", 9)]),
    };
    assert_eq!(idle.select_producer(), Some("whale".to_string()));
}

#[test]
fn pow_seal_meets_difficulty() {
    let strategy = ConsensusStrategy::ProofOfWork { difficulty: 1 };
    let chain = Chain::new(genesis(&[]));
    let sealed = strategy
        .seal_block(1, 7, chain.tip_hash(), vec![], "x".to_string(), 1 << 16)
        .expect("a 16-bit search should clear one hex digit of difficulty");
    assert!(sealed.hash.starts_with('0'));
    assert_eq!(sealed.index, 1);
}

#[test]
fn validate_proof_checks_difficulty_and_stake() {
    let chain = Chain::new(genesis(&[]));
    let pow = ConsensusStrategy::ProofOfWork { difficulty: 1 };
    let sealed = pow
        .seal_block(1, 7, chain.tip_hash(), vec![], "x".to_string(), 1 << 16)
        .unwrap();
    assert!(pow.validate_proof(&sealed));

    let stake = ConsensusStrategy::StakeWeighted { stakes: genesis(&[("x", 3)]) };
    assert!(stake.validate_proof(&sealed));
    let unstaked = ConsensusStrategy::StakeWeighted { stakes: genesis(&[("y", 3)]) };
    assert!(!unstaked.validate_proof(&sealed));
}

#[test]
fn blockchain_deploy_and_state_registries() {
    let mut bc = Blockchain::new();
    assert!(bc.get_contract("c1").is_none());
    bc.deploy_contract("c1".to_string(), "code-bytes".to_string());
    assert_eq!(bc.get_contract("c1"), Some(&"code-bytes".to_string()));
    assert!(bc.get_state("c1").is_none());
    bc.set_contract_state("c1".to_string(), "state-1".to_string());
    assert_eq!(bc.get_state("c1"), Some(&"state-1".to_string()));
    bc.set_contract_state("c1".to_string(), "state-2".to_string());
    assert_eq!(bc.get_state("c1"), Some(&"state-2".to_string()));
}
