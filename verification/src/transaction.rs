//! Signed transfer orders: the unit every block carries and the ledger
//! applies.
//!
//! A transaction is immutable once constructed; its identity is the SHA-256
//! digest of its canonical encoding, and it is valid when its signature
//! verifies over that digest.

use vstd::prelude::*;
use crate::codec::{
    push_opt_str, push_str, push_u64, spec_opt_str_bytes, spec_str_bytes, spec_u64_bytes,
};
use crate::crypto::{ed25519_verify, hex_encode, lemma_spec_hex_len, sha256, sha256_of, sig_ok, spec_hex};
use crate::clock::now_timestamp;

verus! {

/// The mathematical value of a transaction.
#[verifier::ext_equal]
pub struct TxView {
    pub sender: Seq<char>,
    pub recipient: Seq<char>,
    pub amount: u64,
    pub fee: u64,
    pub nonce: u64,
    pub timestamp: u64,
    pub signature: Seq<u8>,
    pub public_key: Seq<u8>,
    pub data: Option<Seq<char>>,
}

/// A signed transfer of `amount` from `sender` to `recipient`, paying `fee`
/// to the block producer. `nonce` orders the sender's transactions; `data`
/// is an opaque payload for contract interactions.
pub struct Transaction {
    pub sender: String,
    pub recipient: String,
    pub amount: u64,
    pub fee: u64,
    pub nonce: u64,
    pub timestamp: u64,
    pub signature: Vec<u8>,
    pub public_key: Vec<u8>,
    pub data: Option<String>,
}

impl View for Transaction {
    type V = TxView;

    open spec fn view(&self) -> TxView {
        TxView {
            sender: self.sender@,
            recipient: self.recipient@,
            amount: self.amount,
            fee: self.fee,
            nonce: self.nonce,
            timestamp: self.timestamp,
            signature: self.signature@,
            public_key: self.public_key@,
            data: match self.data {
                Some(d) => Some(d@),
                None => None,
            },
        }
    }
}

/// The views of a sequence of transactions, in order.
pub open spec fn spec_tx_views(ts: Seq<Transaction>) -> Seq<TxView> {
    Seq::new(ts.len(), |i: int| ts[i]@)
}

/// The canonical encoding of a transaction: every field but the signature
/// and the public key, in a fixed order.
pub open spec fn spec_tx_bytes(t: TxView) -> Seq<u8> {
    spec_str_bytes(t.sender) + spec_str_bytes(t.recipient) + spec_u64_bytes(t.amount)
        + spec_u64_bytes(t.fee) + spec_u64_bytes(t.nonce) + spec_u64_bytes(t.timestamp)
        + spec_opt_str_bytes(t.data)
}

/// The digest a transaction is identified and signed by.
pub open spec fn spec_tx_digest(t: TxView) -> Seq<u8> {
    sha256_of(spec_tx_bytes(t))
}

/// The hex rendering of the digest: the transaction's identity.
pub open spec fn spec_tx_id(t: TxView) -> Seq<char> {
    spec_hex(spec_tx_digest(t))
}

/// A transaction is valid when its signature verifies over its digest under
/// its own public key.
pub open spec fn spec_tx_valid(t: TxView) -> bool {
    sig_ok(t.public_key, spec_tx_digest(t), t.signature)
}

impl Transaction {
    /// Builds a transaction stamped with the current clock reading; every
    /// other field is taken as given.
    pub fn new(
        sender: String,
        recipient: String,
        amount: u64,
        fee: u64,
        nonce: u64,
        public_key: Vec<u8>,
        signature: Vec<u8>,
        data: Option<String>,
    ) -> (t: Transaction)
        ensures
            t@.sender == sender@,
            t@.recipient == recipient@,
            t@.amount == amount,
            t@.fee == fee,
            t@.nonce == nonce,
            t@.signature == signature@,
            t@.public_key == public_key@,
            t@.data == (match data {
                Some(d) => Some::<Seq<char>>(d@),
                None => None::<Seq<char>>,
            }),
    {
        Transaction {
            sender,
            recipient,
            amount,
            fee,
            nonce,
            timestamp: now_timestamp(),
            signature,
            public_key,
            data,
        }
    }

    /// The canonical encoding this transaction is hashed over.
    pub fn canonical_bytes(&self) -> (r: Vec<u8>)
        ensures
            r@ == spec_tx_bytes(self@),
    {
        let mut out: Vec<u8> = Vec::new();
        push_str(&mut out, self.sender.as_str());
        push_str(&mut out, self.recipient.as_str());
        push_u64(&mut out, self.amount);
        push_u64(&mut out, self.fee);
        push_u64(&mut out, self.nonce);
        push_u64(&mut out, self.timestamp);
        push_opt_str(&mut out, &self.data);
        assert(out@ =~= spec_tx_bytes(self@));
        out
    }

    /// The digest of the canonical encoding: 32 bytes.
    pub fn calculate_hash(&self) -> (r: Vec<u8>)
        ensures
            r@ == spec_tx_digest(self@),
            r@.len() == 32,
    {
        let bytes = self.canonical_bytes();
        sha256(&bytes)
    }

    /// The transaction's identity: the digest rendered in hex, 64
    /// characters.
    pub fn hash(&self) -> (r: String)
        ensures
            r@ == spec_tx_id(self@),
            r@.len() == 64,
    {
        let digest = self.calculate_hash();
        proof {
            lemma_spec_hex_len(digest@);
        }
        hex_encode(&digest)
    }

    /// Whether the signature verifies over the digest under the embedded
    /// public key.
    pub fn is_valid(&self) -> (r: bool)
        ensures
            r == spec_tx_valid(self@),
    {
        let digest = self.calculate_hash();
        ed25519_verify(&self.public_key, &digest, &self.signature)
    }
}

impl Clone for Transaction {
    /// A clone carries the same mathematical value.
    fn clone(&self) -> (r: Self)
        ensures
            r@ == self@,
    {
        let r = Transaction {
            sender: self.sender.clone(),
            recipient: self.recipient.clone(),
            amount: self.amount,
            fee: self.fee,
            nonce: self.nonce,
            timestamp: self.timestamp,
            signature: self.signature.clone(),
            public_key: self.public_key.clone(),
            data: match &self.data {
                Some(d) => Some(d.clone()),
                None => None,
            },
        };
        proof {
            assert(r.signature@ =~= self.signature@);
            assert(r.public_key@ =~= self.public_key@);
            assert(r@ =~= self@);
        }
        r
    }
}

} // verus!
