//! The broker-side session of one client connection.

use vstd::prelude::*;
use crate::protocol::{Transaction, TransactionView};
use crate::sequences::{is_value, lemma_first_match_unique, remove_first_match};

verus! {

/// Identifies a connection for as long as it lives.
pub type PeerId = u64;

/// A transaction addressed to a peer's outbound queue.
#[derive(Debug, Clone, PartialEq, Eq)]
pub struct Delivery {
    pub peer: PeerId,
    pub transaction: Transaction,
}

/// The mathematical content of a [`Delivery`].
pub struct DeliveryView {
    pub peer: PeerId,
    pub transaction: TransactionView,
}

impl View for Delivery {
    type V = DeliveryView;

    open spec fn view(&self) -> DeliveryView {
        DeliveryView { peer: self.peer, transaction: self.transaction@ }
    }
}

/// The contents of a list of deliveries, in order.
pub open spec fn deliveries_view(deliveries: Seq<Delivery>) -> Seq<DeliveryView> {
    Seq::new(deliveries.len(), |i: int| deliveries[i]@)
}

/// The contents of a list of topic names, in order.
pub open spec fn names_view(names: Seq<Vec<u8>>) -> Seq<Seq<u8>> {
    Seq::new(names.len(), |i: int| names[i]@)
}

/// One connection as the broker sees it: who it is and what it joined.
pub struct Peer {
    id: PeerId,
    subscriptions: Vec<Vec<u8>>,
}

/// The mathematical content of a [`Peer`].
pub struct PeerView {
    pub id: PeerId,
    /// The names of the topics joined, one entry per subscription.
    pub subscriptions: Seq<Seq<u8>>,
}

impl View for Peer {
    type V = PeerView;

    closed spec fn view(&self) -> PeerView {
        PeerView { id: self.id, subscriptions: names_view(self.subscriptions@) }
    }
}

impl Peer {
    /// Starts the session of connection `id`, with no subscription.
    pub fn new(id: PeerId) -> (peer: Peer)
        ensures
            peer@ == (PeerView { id, subscriptions: Seq::empty() }),
    {
        let peer = Peer { id, subscriptions: Vec::new() };
        assert(names_view(peer.subscriptions@) =~= Seq::empty());
        peer
    }

    /// The connection this session belongs to.
    pub fn id(&self) -> (id: PeerId)
        ensures
            id == self@.id,
    {
        self.id
    }

    /// Records that the peer joined `topic_name`.
    pub fn subscribe(&mut self, topic_name: Vec<u8>)
        ensures
            final(self)@.id == old(self)@.id,
            final(self)@.subscriptions == old(self)@.subscriptions.push(topic_name@),
    {
        self.subscriptions.push(topic_name);
        assert(names_view(self.subscriptions@) =~= names_view(old(self).subscriptions@).push(
            topic_name@,
        ));
    }

    /// Forgets one subscription to `topic_name`, the earliest recorded; the
    /// latest recorded subscription takes its place in the list.
    pub fn unsubscribe(&mut self, topic_name: &Vec<u8>)
        ensures
            final(self)@.id == old(self)@.id,
            final(self)@.subscriptions == remove_first_match(
                old(self)@.subscriptions,
                is_value(topic_name@),
            ),
    {
        let ghost wanted = is_value(topic_name@);
        let ghost before = names_view(self.subscriptions@);
        let mut i: usize = 0;
        while i < self.subscriptions.len()
            invariant
                i <= self.subscriptions.len(),
                *self == *old(self),
                wanted == is_value(topic_name@),
                before == names_view(self.subscriptions@),
                forall|j: int| 0 <= j < i ==> self.subscriptions@[j]@ != topic_name@,
            decreases self.subscriptions.len() - i,
        {
            if self.subscriptions[i] == *topic_name {
                assert(self.subscriptions@[i as int]@ =~= topic_name@);
                proof {
                    lemma_first_match_unique(before, wanted, i as int);
                }
                self.subscriptions.swap_remove(i);
                assert(names_view(self.subscriptions@) =~= remove_first_match(before, wanted));
                return ;
            }
            i += 1;
        }
        proof {
            lemma_first_match_unique(before, wanted, before.len() as int);
        }
    }

    /// Clears the subscription list and returns what it held, in order.
    pub fn unsubscribe_all(&mut self) -> (topic_names: Vec<Vec<u8>>)
        ensures
            names_view(topic_names@) == old(self)@.subscriptions,
            final(self)@ == (PeerView { id: old(self)@.id, subscriptions: Seq::empty() }),
    {
        let mut taken: Vec<Vec<u8>> = Vec::new();
        core::mem::swap(&mut self.subscriptions, &mut taken);
        assert(names_view(self.subscriptions@) =~= Seq::empty());
        taken
    }

    /// Addresses `transaction` to this peer's outbound queue.
    pub fn send(&self, transaction: Transaction) -> (delivery: Delivery)
        ensures
            delivery@ == (DeliveryView { peer: self@.id, transaction: transaction@ }),
    {
        Delivery { peer: self.id, transaction }
    }
}

} // verus!
