//! A named channel and the subscribers that receive what is published to it.

use vstd::prelude::*;
use crate::peer::{deliveries_view, Delivery, DeliveryView, PeerId};
use crate::protocol::{
    CorrelationId, Exchange, ExchangeView, Message, MessageView, Transaction, TransactionView,
};
use crate::sequences::{lemma_first_match_unique, remove_first_match};

verus! {

/// One subscription: the peer that joined and the correlation id it joined
/// with, which tags every message pushed to it.
#[derive(Debug, Clone, Copy, PartialEq, Eq, Structural)]
pub struct Subscriber {
    pub peer: PeerId,
    pub correlation: CorrelationId,
}

/// The test that accepts the subscriptions of `peer`.
pub open spec fn is_entry_of(peer: PeerId) -> spec_fn(Subscriber) -> bool {
    |entry: Subscriber| entry.peer == peer
}

/// What publishing `message` to `subscribers` enqueues: one copy for each
/// entry, in the entries' order, addressed to the entry's peer and tagged
/// with the entry's correlation id.
pub open spec fn fan_out(subscribers: Seq<Subscriber>, message: MessageView) -> Seq<DeliveryView> {
    Seq::new(
        subscribers.len(),
        |i: int|
            DeliveryView {
                peer: subscribers[i].peer,
                transaction: TransactionView {
                    correlation: subscribers[i].correlation,
                    exchange: ExchangeView::Message(message),
                },
            },
    )
}

/// A topic: its name and its subscriptions.
pub struct Topic {
    name: Vec<u8>,
    subscribers: Vec<Subscriber>,
}

/// The mathematical content of a [`Topic`].
pub struct TopicView {
    pub name: Seq<u8>,
    pub subscribers: Seq<Subscriber>,
}

impl View for Topic {
    type V = TopicView;

    closed spec fn view(&self) -> TopicView {
        TopicView { name: self.name@, subscribers: self.subscribers@ }
    }
}

impl Topic {
    /// Creates the topic `name`, with no subscriber.
    pub fn new(name: Vec<u8>) -> (topic: Topic)
        ensures
            topic@ == (TopicView { name: name@, subscribers: Seq::empty() }),
    {
        Topic { name, subscribers: Vec::new() }
    }

    /// The topic's name.
    pub fn name(&self) -> (name: &Vec<u8>)
        ensures
            name@ == self@.name,
    {
        &self.name
    }

    /// Appends a subscription of `peer`. A peer that subscribes twice is
    /// listed twice and receives every message twice.
    pub fn subscribe(&mut self, peer: PeerId, correlation: CorrelationId)
        ensures
            final(self)@.name == old(self)@.name,
            final(self)@.subscribers == old(self)@.subscribers.push(Subscriber { peer, correlation }),
    {
        self.subscribers.push(Subscriber { peer, correlation });
    }

    /// Removes the earliest subscription of `peer`, if it has one; the last
    /// subscription of the list takes the vacated place.
    pub fn unsubscribe(&mut self, peer: PeerId)
        ensures
            final(self)@.name == old(self)@.name,
            final(self)@.subscribers == remove_first_match(
                old(self)@.subscribers,
                is_entry_of(peer),
            ),
    {
        let mut i: usize = 0;
        while i < self.subscribers.len()
            invariant
                i <= self.subscribers.len(),
                *self == *old(self),
                forall|j: int| 0 <= j < i ==> self.subscribers@[j].peer != peer,
            decreases self.subscribers.len() - i,
        {
            if self.subscribers[i].peer == peer {
                proof {
                    lemma_first_match_unique(self.subscribers@, is_entry_of(peer), i as int);
                }
                self.subscribers.swap_remove(i);
                return ;
            }
            i += 1;
        }
        proof {
            lemma_first_match_unique(
                self.subscribers@,
                is_entry_of(peer),
                self.subscribers@.len() as int,
            );
        }
    }

    /// Fans `message` out: returns one delivery per subscription, in the
    /// subscriptions' order, each tagged with that subscription's own
    /// correlation id.
    pub fn send(&self, message: Message) -> (deliveries: Vec<Delivery>)
        ensures
            deliveries_view(deliveries@) == fan_out(self@.subscribers, message@),
    {
        let mut deliveries: Vec<Delivery> = Vec::new();
        let mut i: usize = 0;
        while i < self.subscribers.len()
            invariant
                i <= self.subscribers.len(),
                deliveries@.len() == i,
                forall|j: int|
                    0 <= j < i ==> (#[trigger] deliveries@[j])@ == fan_out(
                        self.subscribers@,
                        message@,
                    )[j],
            decreases self.subscribers.len() - i,
        {
            let entry = self.subscribers[i];
            let transaction = Transaction {
                correlation: entry.correlation,
                exchange: Exchange::Message(message.duplicate()),
            };
            deliveries.push(Delivery { peer: entry.peer, transaction });
            i += 1;
        }
        assert(deliveries_view(deliveries@) =~= fan_out(self.subscribers@, message@));
        deliveries
    }
}

} // verus!
