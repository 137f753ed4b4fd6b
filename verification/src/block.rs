//! Blocks: sealed batches of transactions, chained by hash.
//!
//! A block's hash is the SHA-256 digest, rendered in hex, of the canonical
//! encoding of every field but the hash itself. The genesis block is a
//! fixed, hash-independent constant.

use vstd::prelude::*;
use crate::codec::{push_str, push_u64, spec_str_bytes, spec_u64_bytes};
use crate::crypto::{hex_encode, lemma_spec_hex_len, sha256, sha256_of, spec_hex};
use crate::transaction::{spec_tx_bytes, spec_tx_views, Transaction, TxView};

verus! {

/// The mathematical value of a block.
#[verifier::ext_equal]
pub struct BlockView {
    pub index: u64,
    pub timestamp: u64,
    pub transactions: Seq<TxView>,
    pub previous_hash: Seq<char>,
    pub producer: Seq<char>,
    pub nonce: u64,
    pub hash: Seq<char>,
}

/// A sealed batch of transactions. `index` is the height, `previous_hash`
/// links to the parent, `producer` is who assembled it, `nonce` is the
/// consensus proof, and `hash` is the block's own hash.
pub struct Block {
    pub index: u64,
    pub timestamp: u64,
    pub transactions: Vec<Transaction>,
    pub previous_hash: String,
    pub producer: String,
    pub nonce: u64,
    pub hash: String,
}

impl View for Block {
    type V = BlockView;

    open spec fn view(&self) -> BlockView {
        BlockView {
            index: self.index,
            timestamp: self.timestamp,
            transactions: spec_tx_views(self.transactions@),
            previous_hash: self.previous_hash@,
            producer: self.producer@,
            nonce: self.nonce,
            hash: self.hash@,
        }
    }
}

impl Clone for Block {
    /// A clone carries the same mathematical value.
    fn clone(&self) -> (r: Self)
        ensures
            r@ == self@,
    {
        let transactions = self.transactions.clone();
        proof {
            assert(spec_tx_views(transactions@) =~= spec_tx_views(self.transactions@));
        }
        let r = Block {
            index: self.index,
            timestamp: self.timestamp,
            transactions,
            previous_hash: self.previous_hash.clone(),
            producer: self.producer.clone(),
            nonce: self.nonce,
            hash: self.hash.clone(),
        };
        proof {
            assert(r@ =~= self@);
        }
        r
    }
}

/// The views of a sequence of blocks, in order.
pub open spec fn spec_block_views(bs: Seq<Block>) -> Seq<BlockView> {
    Seq::new(bs.len(), |i: int| bs[i]@)
}

/// The transactions among `ts` that carry a contract payload, in order.
pub open spec fn spec_payload_txs(ts: Seq<TxView>) -> Seq<TxView>
    decreases ts.len(),
{
    if ts.len() == 0 {
        Seq::empty()
    } else {
        let rest = spec_payload_txs(ts.drop_last());
        if ts.last().data is Some {
            rest.push(ts.last())
        } else {
            rest
        }
    }
}

/// The canonical encodings of a sequence of transactions, concatenated.
pub open spec fn spec_txs_bytes(ts: Seq<TxView>) -> Seq<u8>
    decreases ts.len(),
{
    if ts.len() == 0 {
        Seq::empty()
    } else {
        spec_txs_bytes(ts.drop_last()) + spec_tx_bytes(ts.last())
    }
}

/// The bytes a block's hash is computed over: index, timestamp, the counted
/// transaction list, previous hash, producer and nonce — everything but the
/// hash itself.
pub open spec fn spec_block_bytes_parts(
    index: u64,
    timestamp: u64,
    transactions: Seq<TxView>,
    previous_hash: Seq<char>,
    producer: Seq<char>,
    nonce: u64,
) -> Seq<u8> {
    spec_u64_bytes(index) + spec_u64_bytes(timestamp) + spec_u64_bytes(
        transactions.len() as u64,
    ) + spec_txs_bytes(transactions) + spec_str_bytes(previous_hash) + spec_str_bytes(producer)
        + spec_u64_bytes(nonce)
}

/// The hash of a block assembled from the given fields.
pub open spec fn spec_block_hash_parts(
    index: u64,
    timestamp: u64,
    transactions: Seq<TxView>,
    previous_hash: Seq<char>,
    producer: Seq<char>,
    nonce: u64,
) -> Seq<char> {
    spec_hex(
        sha256_of(
            spec_block_bytes_parts(index, timestamp, transactions, previous_hash, producer, nonce),
        ),
    )
}

/// The hash a block's fields demand; the stored `hash` field does not enter
/// its own computation.
pub open spec fn spec_block_hash(b: BlockView) -> Seq<char> {
    spec_block_hash_parts(
        b.index,
        b.timestamp,
        b.transactions,
        b.previous_hash,
        b.producer,
        b.nonce,
    )
}

/// A hash meets difficulty `d` when its first `d` characters are `'0'`.
pub open spec fn spec_meets_difficulty(h: Seq<char>, d: int) -> bool {
    d <= h.len() && forall|i: int| 0 <= i < d ==> h[i] == '0'
}

/// The fixed genesis block: height zero, no transactions, an all-zero
/// parent link, and the well-known constant in place of a computed hash.
pub open spec fn spec_genesis() -> BlockView {
    BlockView {
        index: 0,
        timestamp: 0,
        transactions: Seq::empty(),
        previous_hash: "0000000000000000000000000000000000000000000000000000000000000000"@,
        producer: ""@,
        nonce: 0,
        hash: "genesis"@,
    }
}

/// Builds the fixed genesis block.
pub fn genesis_block() -> (b: Block)
    ensures
        b@ == spec_genesis(),
{
    let b = Block {
        index: 0,
        timestamp: 0,
        transactions: Vec::new(),
        previous_hash: "0000000000000000000000000000000000000000000000000000000000000000"
            .to_owned(),
        producer: "".to_owned(),
        nonce: 0,
        hash: "genesis".to_owned(),
    };
    proof {
        assert(b@ =~= spec_genesis());
    }
    b
}

/// Computes the hash demanded by the given block fields: 64 hex
/// characters.
pub fn compute_block_hash(
    index: u64,
    timestamp: u64,
    transactions: &Vec<Transaction>,
    previous_hash: &str,
    producer: &str,
    nonce: u64,
) -> (h: String)
    ensures
        h@ == spec_block_hash_parts(
            index,
            timestamp,
            spec_tx_views(transactions@),
            previous_hash@,
            producer@,
            nonce,
        ),
        h@.len() == 64,
{
    let ghost views: Seq<TxView> = spec_tx_views(transactions@);
    let mut out: Vec<u8> = Vec::new();
    push_u64(&mut out, index);
    push_u64(&mut out, timestamp);
    let n: usize = transactions.len();
    push_u64(&mut out, n as u64);
    let ghost base: Seq<u8> = out@;
    let mut i: usize = 0;
    while i < n
        invariant
            n == transactions@.len(),
            views == spec_tx_views(transactions@),
            i <= n,
            out@ == base + spec_txs_bytes(views.take(i as int)),
        decreases n - i,
    {
        let mut tx_bytes = transactions[i].canonical_bytes();
        out.append(&mut tx_bytes);
        proof {
            assert(views.take(i + 1).drop_last() =~= views.take(i as int));
            assert(views.take(i + 1).last() == views[i as int]);
        }
        i = i + 1;
    }
    proof {
        assert(views.take(n as int) =~= views);
    }
    push_str(&mut out, previous_hash);
    push_str(&mut out, producer);
    push_u64(&mut out, nonce);
    proof {
        assert(out@ =~= spec_block_bytes_parts(
            index,
            timestamp,
            views,
            previous_hash@,
            producer@,
            nonce,
        ));
    }
    let digest = sha256(&out);
    proof {
        lemma_spec_hex_len(digest@);
    }
    hex_encode(&digest)
}

/// Whether the first `difficulty` characters of `h` are `'0'`.
pub fn meets_difficulty(h: &str, difficulty: usize) -> (r: bool)
    ensures
        r == spec_meets_difficulty(h@, difficulty as int),
{
    let n: usize = h.unicode_len();
    if difficulty > n {
        return false;
    }
    let mut i: usize = 0;
    while i < difficulty
        invariant
            n == h@.len(),
            difficulty <= n,
            i <= difficulty,
            forall|j: int| 0 <= j < i ==> h@[j] == '0',
        decreases difficulty - i,
    {
        if h.get_char(i) != '0' {
            return false;
        }
        i = i + 1;
    }
    true
}

impl Block {
    /// The hash this block's fields demand; equal to the stored `hash`
    /// exactly when the block is internally consistent.
    pub fn calculate_hash(&self) -> (h: String)
        ensures
            h@ == spec_block_hash(self@),
            h@.len() == 64,
    {
        compute_block_hash(
            self.index,
            self.timestamp,
            &self.transactions,
            self.previous_hash.as_str(),
            self.producer.as_str(),
            self.nonce,
        )
    }

    /// The committed transactions carrying a contract payload, in block
    /// order: what the external contract executor is handed after this
    /// block commits, the node recording each result against the
    /// recipient.
    pub fn payload_transactions(&self) -> (r: Vec<Transaction>)
        ensures
            spec_tx_views(r@) == spec_payload_txs(self@.transactions),
    {
        let ghost views: Seq<TxView> = self@.transactions;
        let n: usize = self.transactions.len();
        let mut r: Vec<Transaction> = Vec::new();
        let mut i: usize = 0;
        while i < n
            invariant
                n == self.transactions@.len(),
                views == self@.transactions,
                i <= n,
                spec_tx_views(r@) == spec_payload_txs(views.take(i as int)),
            decreases n - i,
        {
            proof {
                assert(views.take(i + 1).drop_last() =~= views.take(i as int));
                assert(views.take(i + 1).last() == views[i as int]);
                assert(spec_tx_views(self.transactions@)[i as int]
                    == self.transactions@[i as int]@);
            }
            if self.transactions[i].data.is_some() {
                let ghost before = spec_tx_views(r@);
                r.push(self.transactions[i].clone());
                proof {
                    assert(spec_tx_views(r@) =~= before.push(views[i as int]));
                }
            }
            i = i + 1;
        }
        proof {
            assert(views.take(n as int) =~= views);
        }
        r
    }

    /// Seals a block: searches nonces upward from zero for one whose hash
    /// meets the difficulty, so the stamped nonce is the least that does;
    /// returns `None` exactly when no nonce below `max_attempts` meets it.
    pub fn new(
        index: u64,
        timestamp: u64,
        previous_hash: String,
        transactions: Vec<Transaction>,
        producer: String,
        difficulty: usize,
        max_attempts: u64,
    ) -> (r: Option<Block>)
        ensures
            match r {
                Some(b) => {
                    &&& b@.index == index
                    &&& b@.timestamp == timestamp
                    &&& b@.transactions == spec_tx_views(transactions@)
                    &&& b@.previous_hash == previous_hash@
                    &&& b@.producer == producer@
                    &&& b@.nonce < max_attempts
                    &&& b@.hash == spec_block_hash(b@)
                    &&& spec_meets_difficulty(b@.hash, difficulty as int)
                    &&& forall|n: u64|
                        n < b@.nonce ==> !spec_meets_difficulty(
                            spec_block_hash_parts(
                                index,
                                timestamp,
                                spec_tx_views(transactions@),
                                previous_hash@,
                                producer@,
                                n,
                            ),
                            difficulty as int,
                        )
                },
                None => forall|n: u64|
                    n < max_attempts ==> !spec_meets_difficulty(
                        spec_block_hash_parts(
                            index,
                            timestamp,
                            spec_tx_views(transactions@),
                            previous_hash@,
                            producer@,
                            n,
                        ),
                        difficulty as int,
                    ),
            },
    {
        let ghost views: Seq<TxView> = spec_tx_views(transactions@);
        let mut nonce: u64 = 0;
        while nonce < max_attempts
            invariant
                views == spec_tx_views(transactions@),
                nonce <= max_attempts,
                forall|n: u64|
                    n < nonce ==> !spec_meets_difficulty(
                        spec_block_hash_parts(
                            index,
                            timestamp,
                            views,
                            previous_hash@,
                            producer@,
                            n,
                        ),
                        difficulty as int,
                    ),
            decreases max_attempts - nonce,
        {
            let h = compute_block_hash(
                index,
                timestamp,
                &transactions,
                previous_hash.as_str(),
                producer.as_str(),
                nonce,
            );
            if meets_difficulty(h.as_str(), difficulty) {
                let b = Block {
                    index,
                    timestamp,
                    transactions,
                    previous_hash,
                    producer,
                    nonce,
                    hash: h,
                };
                return Some(b);
            }
            nonce = nonce + 1;
        }
        None
    }
}

} // verus!
