//! Core ledger-and-consensus engine of a minimal blockchain node.
//!
//! The crate keeps an append-only, hash-linked chain of blocks, an
//! account-balance ledger, a pool of unconfirmed transactions, a pluggable
//! block-production strategy, and the peer-synchronization rules that let
//! independently produced chains converge on the heaviest valid one.

pub mod block;
pub mod blockchain;
pub mod chain;
pub mod clock;
pub mod codec;
pub mod consensus;
pub mod crypto;
pub mod explorer;
pub mod kvmap;
pub mod ledger;
pub mod network;
pub mod pool;
pub mod strutil;
pub mod transaction;
pub mod vm;
