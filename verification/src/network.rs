//! The peer-synchronization protocol: peer registry, duplicate
//! suppression, and the decision rules that keep chains across a network
//! converging.
//!
//! The handler here is pure state logic: it takes one inbound message,
//! mutates the node, and says what to send. Carrying messages over sockets
//! is the surrounding program's job.

use vstd::prelude::*;
use crate::block::{spec_block_views, Block, BlockView};
use crate::blockchain::Blockchain;
use crate::chain::{
    spec_append_verdict, spec_apply_block, spec_chain_valid, spec_init_ledger, spec_replace,
    spec_replay, ChainError,
};
use crate::consensus::spec_weight;
use crate::pool::{spec_prune_stale, spec_submit_outcome};
use crate::strutil::str_eq;
use crate::transaction::{spec_tx_id, Transaction, TxView};

verus! {

/// A known peer's address.
pub struct Peer {
    pub address: String,
}

impl Peer {
    /// Records a peer by address.
    pub fn new(address: String) -> (p: Peer)
        ensures
            p.address@ == address@,
    {
        Peer { address }
    }
}

/// The wire messages of the peer protocol.
pub enum NetworkMessage {
    /// A transaction to admit and propagate once.
    NewTransaction(Transaction),
    /// A freshly produced block to append.
    NewBlock(Block),
    /// A request for the full local chain.
    RequestChain,
    /// A full chain, answering `RequestChain`.
    ResponseChain(Vec<Block>),
    /// An address to add, idempotently, to the peer registry.
    RegisterPeer(String),
}

/// The mathematical value of a message.
pub enum MessageView {
    NewTransaction(TxView),
    NewBlock(BlockView),
    RequestChain,
    ResponseChain(Seq<BlockView>),
    RegisterPeer(Seq<char>),
}

impl View for NetworkMessage {
    type V = MessageView;

    open spec fn view(&self) -> MessageView {
        match self {
            NetworkMessage::NewTransaction(t) => MessageView::NewTransaction(t@),
            NetworkMessage::NewBlock(b) => MessageView::NewBlock(b@),
            NetworkMessage::RequestChain => MessageView::RequestChain,
            NetworkMessage::ResponseChain(bs) => MessageView::ResponseChain(
                spec_block_views(bs@),
            ),
            NetworkMessage::RegisterPeer(a) => MessageView::RegisterPeer(a@),
        }
    }
}

/// What the caller must do after handling a message: nothing, forward a
/// message once to every known peer, or answer the message's sender.
pub enum NetAction {
    Nothing,
    Broadcast(NetworkMessage),
    Reply(NetworkMessage),
}

/// The mathematical value of an action.
pub enum ActionView {
    Nothing,
    Broadcast(MessageView),
    Reply(MessageView),
}

impl View for NetAction {
    type V = ActionView;

    open spec fn view(&self) -> ActionView {
        match self {
            NetAction::Nothing => ActionView::Nothing,
            NetAction::Broadcast(m) => ActionView::Broadcast(m@),
            NetAction::Reply(m) => ActionView::Reply(m@),
        }
    }
}

/// The views of a sequence of strings, in order.
pub open spec fn spec_str_views(s: Seq<String>) -> Seq<Seq<char>> {
    Seq::new(s.len(), |i: int| s[i]@)
}

/// Whether `x` occurs in `s`.
pub open spec fn spec_contains(s: Seq<Seq<char>>, x: Seq<char>) -> bool {
    exists|i: int| 0 <= i < s.len() && s[i] == x
}

/// The peer registry and the recently-seen transaction identities that
/// suppress re-broadcast loops. The seen list only grows; a long-running
/// node would age entries out, a policy this core leaves to its caller.
pub struct P2PNetwork {
    peers: Vec<String>,
    seen: Vec<String>,
}

impl P2PNetwork {
    /// The registered peer addresses, in registration order.
    pub closed spec fn peers_view(&self) -> Seq<Seq<char>> {
        spec_str_views(self.peers@)
    }

    /// The transaction identities already handled.
    pub closed spec fn seen_view(&self) -> Seq<Seq<char>> {
        spec_str_views(self.seen@)
    }

    /// A network with no peers and nothing seen.
    pub fn new() -> (n: P2PNetwork)
        ensures
            n.peers_view() =~= Seq::<Seq<char>>::empty(),
            n.seen_view() =~= Seq::<Seq<char>>::empty(),
    {
        P2PNetwork { peers: Vec::new(), seen: Vec::new() }
    }

    /// Whether `x` occurs in `list`.
    fn list_contains(list: &Vec<String>, x: &str) -> (r: bool)
        ensures
            r == spec_contains(spec_str_views(list@), x@),
    {
        let n: usize = list.len();
        let mut i: usize = 0;
        while i < n
            invariant
                n == list@.len(),
                i <= n,
                forall|j: int| 0 <= j < i ==> spec_str_views(list@)[j] != x@,
            decreases n - i,
        {
            proof {
                assert(spec_str_views(list@)[i as int] == list@[i as int]@);
            }
            if str_eq(list[i].as_str(), x) {
                return true;
            }
            i = i + 1;
        }
        false
    }

    /// Registers a peer address; receiving the same address again is
    /// harmless — the registry never holds it twice.
    pub fn register_peer(&mut self, address: String)
        ensures
            spec_contains(old(self).peers_view(), address@) ==> final(self).peers_view() == old(
                self,
            ).peers_view(),
            !spec_contains(old(self).peers_view(), address@) ==> final(self).peers_view() == old(
                self,
            ).peers_view().push(address@),
            final(self).seen_view() == old(self).seen_view(),
    {
        if !Self::list_contains(&self.peers, address.as_str()) {
            self.peers.push(address);
            proof {
                assert(self.peers_view() =~= old(self).peers_view().push(
                    self.peers@[self.peers@.len() - 1]@,
                ));
            }
        }
    }

    /// The registered peers, for fan-out by the caller.
    pub fn peer_list(&self) -> (r: Vec<String>)
        ensures
            spec_str_views(r@) == self.peers_view(),
    {
        let r = self.peers.clone();
        proof {
            assert(spec_str_views(r@) =~= spec_str_views(self.peers@));
        }
        r
    }

    /// Handles one inbound message against the node's state and says what
    /// to send: a fresh, admitted transaction is propagated once; a block
    /// that does not link asks its sender for their chain; a chain
    /// request is answered with the full chain; a received chain runs the
    /// fork-choice rule; a peer registration is recorded idempotently.
    pub fn handle_message(&mut self, bc: &mut Blockchain, msg: NetworkMessage) -> (act: NetAction)
        requires
            old(bc).wf(),
        ensures
            final(bc).wf(),
            final(bc).alloc_view() == old(bc).alloc_view(),
            final(bc).strategy_view() == old(bc).strategy_view(),
            final(bc).contracts_view() == old(bc).contracts_view(),
            final(bc).state_view() == old(bc).state_view(),
            match msg@ {
                MessageView::NewTransaction(t) => {
                    &&& final(self).peers_view() == old(self).peers_view()
                    &&& final(bc).chain_view() == old(bc).chain_view()
                    &&& final(bc).ledger_view() == old(bc).ledger_view()
                    &&& if spec_contains(old(self).seen_view(), spec_tx_id(t)) {
                        &&& final(self).seen_view() == old(self).seen_view()
                        &&& final(bc).pool_view() == old(bc).pool_view()
                        &&& act@ == ActionView::Nothing
                    } else {
                        &&& final(self).seen_view() == old(self).seen_view().push(spec_tx_id(t))
                        &&& if spec_submit_outcome(
                            old(bc).pool_view(),
                            old(bc).ledger_view(),
                            t,
                        ) is Ok {
                            &&& final(bc).pool_view() == old(bc).pool_view().push(t)
                            &&& act@ == ActionView::Broadcast(MessageView::NewTransaction(t))
                        } else {
                            &&& final(bc).pool_view() == old(bc).pool_view()
                            &&& act@ == ActionView::Nothing
                        }
                    }
                },
                MessageView::NewBlock(b) => {
                    &&& final(self).peers_view() == old(self).peers_view()
                    &&& final(self).seen_view() == old(self).seen_view()
                    &&& match spec_append_verdict(
                        old(bc).chain_view(),
                        old(bc).ledger_view(),
                        b,
                    ) {
                        Ok(_) => {
                            &&& final(bc).chain_view() == old(bc).chain_view().push(b)
                            &&& Some(final(bc).ledger_view()) == spec_apply_block(
                                old(bc).ledger_view(),
                                b,
                            )
                            &&& final(bc).pool_view() == spec_prune_stale(
                                old(bc).pool_view(),
                                final(bc).ledger_view(),
                            )
                            &&& act@ == ActionView::Nothing
                        },
                        Err(e) => {
                            &&& final(bc).chain_view() == old(bc).chain_view()
                            &&& final(bc).ledger_view() == old(bc).ledger_view()
                            &&& final(bc).pool_view() == old(bc).pool_view()
                            &&& (e == ChainError::BadLinkage ==> act@ == ActionView::Reply(
                                MessageView::RequestChain,
                            ))
                            &&& (e != ChainError::BadLinkage ==> act@ == ActionView::Nothing)
                        },
                    }
                },
                MessageView::RequestChain => {
                    &&& final(self).peers_view() == old(self).peers_view()
                    &&& final(self).seen_view() == old(self).seen_view()
                    &&& final(bc).chain_view() == old(bc).chain_view()
                    &&& final(bc).ledger_view() == old(bc).ledger_view()
                    &&& final(bc).pool_view() == old(bc).pool_view()
                    &&& act@ == ActionView::Reply(
                        MessageView::ResponseChain(old(bc).chain_view()),
                    )
                },
                MessageView::ResponseChain(bs) => {
                    let adopted = spec_chain_valid(old(bc).alloc_view(), bs) && spec_weight(
                        old(bc).strategy_view(),
                        bs,
                    ) > spec_weight(old(bc).strategy_view(), old(bc).chain_view());
                    &&& final(self).peers_view() == old(self).peers_view()
                    &&& final(self).seen_view() == old(self).seen_view()
                    &&& final(bc).chain_view() == spec_replace(
                        old(bc).alloc_view(),
                        old(bc).strategy_view(),
                        old(bc).chain_view(),
                        bs,
                    )
                    &&& (adopted ==> Some(final(bc).ledger_view()) == spec_replay(
                        spec_init_ledger(old(bc).alloc_view()),
                        bs.skip(1),
                    ) && final(bc).pool_view() == spec_prune_stale(
                        old(bc).pool_view(),
                        final(bc).ledger_view(),
                    ))
                    &&& (!adopted ==> final(bc).ledger_view() == old(bc).ledger_view()
                        && final(bc).pool_view() == old(bc).pool_view())
                    &&& act@ == ActionView::Nothing
                },
                MessageView::RegisterPeer(a) => {
                    &&& final(self).seen_view() == old(self).seen_view()
                    &&& final(bc).chain_view() == old(bc).chain_view()
                    &&& final(bc).ledger_view() == old(bc).ledger_view()
                    &&& final(bc).pool_view() == old(bc).pool_view()
                    &&& (spec_contains(old(self).peers_view(), a) ==> final(self).peers_view()
                        == old(self).peers_view())
                    &&& (!spec_contains(old(self).peers_view(), a) ==> final(self).peers_view()
                        == old(self).peers_view().push(a))
                    &&& act@ == ActionView::Nothing
                },
            },
    {
        match msg {
            NetworkMessage::NewTransaction(tx) => {
                let id = tx.hash();
                if Self::list_contains(&self.seen, id.as_str()) {
                    NetAction::Nothing
                } else {
                    self.seen.push(id);
                    proof {
                        assert(self.seen_view() =~= old(self).seen_view().push(
                            self.seen@[self.seen@.len() - 1]@,
                        ));
                    }
                    let relay = tx.clone();
                    match bc.add_transaction(tx) {
                        Ok(_) => NetAction::Broadcast(NetworkMessage::NewTransaction(relay)),
                        Err(_) => NetAction::Nothing,
                    }
                }
            },
            NetworkMessage::NewBlock(b) => {
                match bc.append_block(b) {
                    Ok(_) => NetAction::Nothing,
                    Err(e) => {
                        if e == ChainError::BadLinkage {
                            NetAction::Reply(NetworkMessage::RequestChain)
                        } else {
                            NetAction::Nothing
                        }
                    },
                }
            },
            NetworkMessage::RequestChain => {
                NetAction::Reply(NetworkMessage::ResponseChain(bc.get_chain()))
            },
            NetworkMessage::ResponseChain(bs) => {
                let _adopted = bc.reconcile(bs);
                NetAction::Nothing
            },
            NetworkMessage::RegisterPeer(a) => {
                self.register_peer(a);
                NetAction::Nothing
            },
        }
    }
}

} // verus!
