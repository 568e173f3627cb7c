//! What holds of every run of the dispatcher, proved over its model.

use vstd::prelude::*;
use crate::peer::{DeliveryView, PeerId, PeerView};
use crate::protocol::{
    CorrelationId, ExchangeView, MessageView, RequestView, Response, TransactionView,
};
use crate::sequences::{
    count_matches, is_value, lemma_count_front, lemma_count_push,
    lemma_remove_first_match_counts,
};
use crate::server::{
    answer, answered, departed, processed, served, EventView, Outcome, Phase,
};
use crate::state::{created, unsubscribed, Registry};
use crate::topic::{fan_out, is_entry_of, Subscriber};

verus! {

/// How many subscriptions to the topic `name` the registry lists for `peer`;
/// none when there is no such topic.
pub open spec fn entries_of(registry: Registry, name: Seq<u8>, peer: PeerId) -> nat {
    if registry.contains_key(name) {
        count_matches(registry[name], is_entry_of(peer))
    } else {
        0
    }
}

/// The registry and the peer's own list agree: for every name, the peer
/// records as many subscriptions as the topic of that name lists for it.
pub open spec fn in_agreement(registry: Registry, peer: PeerView) -> bool {
    forall|name: Seq<u8>|
        count_matches(peer.subscriptions, is_value(name)) == #[trigger] entries_of(
            registry,
            name,
            peer.id,
        )
}

/// The test that accepts the deliveries addressed to `peer`.
pub open spec fn is_addressed_to(peer: PeerId) -> spec_fn(DeliveryView) -> bool {
    |delivery: DeliveryView| delivery.peer == peer
}

/// The registry after each of `requesters` asked in turn for the topic
/// `name` to be created.
pub open spec fn created_by_all(
    registry: Registry,
    name: Seq<u8>,
    requesters: Seq<(PeerView, CorrelationId)>,
) -> Registry
    decreases requesters.len(),
{
    if requesters.len() == 0 {
        registry
    } else {
        served(
            created_by_all(registry, name, requesters.drop_last()),
            requesters.last().0,
            requesters.last().1,
            RequestView::Create { topic: name },
        ).registry
    }
}

/// Creating a topic twice is creating it once: the second request finds the
/// topic, keeps its subscriptions and adds no other topic. Either request
/// is answered with `Okay`.
pub proof fn lemma_create_is_idempotent(
    registry: Registry,
    peer: PeerView,
    correlation: CorrelationId,
    name: Seq<u8>,
)
    ensures
        created(registry, name).contains_key(name),
        created(registry, name).dom() == registry.dom().insert(name),
        registry.contains_key(name) ==> created(registry, name) == registry,
        created(created(registry, name), name) == created(registry, name),
        served(registry, peer, correlation, RequestView::Create { topic: name }) == answered(
            created(registry, name),
            peer,
            correlation,
            Response::Okay,
        ),
{
    assert(created(registry, name).dom() =~= registry.dom().insert(name));
}

/// However many requesters ask for the same topic, one after another, the
/// registry ends as after a single creation, and every one of them is
/// answered with `Okay` whatever the registry held when its turn came.
pub proof fn lemma_repeated_create_yields_one_topic(
    registry: Registry,
    name: Seq<u8>,
    requesters: Seq<(PeerView, CorrelationId)>,
)
    requires
        requesters.len() > 0,
    ensures
        created_by_all(registry, name, requesters) == created(registry, name),
        forall|any: Registry, peer: PeerView, correlation: CorrelationId|
            (#[trigger] served(
                any,
                peer,
                correlation,
                RequestView::Create { topic: name },
            )).deliveries == seq![answer(peer.id, correlation, Response::Okay)],
    decreases requesters.len(),
{
    if requesters.len() > 1 {
        lemma_repeated_create_yields_one_topic(registry, name, requesters.drop_last());
    } else {
        assert(created_by_all(registry, name, requesters.drop_last()) == registry);
    }
}

/// A subscribe, unsubscribe or publish that names a topic which does not
/// exist changes neither the registry nor the peer, and enqueues a single
/// delivery: `UnknownTopic`, to the requester.
pub proof fn lemma_unknown_topic_changes_nothing(
    registry: Registry,
    peer: PeerView,
    correlation: CorrelationId,
    request: RequestView,
)
    requires
        match request {
            RequestView::Subscribe { topic } => !registry.contains_key(topic),
            RequestView::Unsubscribe { topic } => !registry.contains_key(topic),
            RequestView::Publish { topic, .. } => !registry.contains_key(topic),
            _ => false,
        },
    ensures
        served(registry, peer, correlation, request) == (Outcome {
            registry,
            peer,
            deliveries: seq![answer(peer.id, correlation, Response::UnknownTopic)],
        }),
{
}

/// A fan-out addresses to each peer exactly as many deliveries as the peer
/// has subscriptions, and the delivery made for a subscription carries that
/// subscription's correlation id and the published message.
pub proof fn lemma_fan_out_reaches_each_subscription(
    subscribers: Seq<Subscriber>,
    message: MessageView,
    peer: PeerId,
)
    ensures
        fan_out(subscribers, message).len() == subscribers.len(),
        forall|i: int|
            0 <= i < subscribers.len() ==> #[trigger] fan_out(subscribers, message)[i] == (
            DeliveryView {
                peer: subscribers[i].peer,
                transaction: TransactionView {
                    correlation: subscribers[i].correlation,
                    exchange: ExchangeView::Message(message),
                },
            }),
        count_matches(fan_out(subscribers, message), is_addressed_to(peer)) == count_matches(
            subscribers,
            is_entry_of(peer),
        ),
    decreases subscribers.len(),
{
    if subscribers.len() > 0 {
        lemma_fan_out_reaches_each_subscription(subscribers.drop_last(), message, peer);
        assert(fan_out(subscribers, message).drop_last() =~= fan_out(
            subscribers.drop_last(),
            message,
        ));
    }
}

/// A publish to an existing topic enqueues the fan-out to the topic's
/// subscriptions, then `Okay` to the publisher, and changes nothing else.
pub proof fn lemma_publish_fans_out(
    registry: Registry,
    peer: PeerView,
    correlation: CorrelationId,
    topic: Seq<u8>,
    key: Seq<u8>,
    value: Seq<u8>,
)
    requires
        registry.contains_key(topic),
    ensures
        ({
            let outcome = served(
                registry,
                peer,
                correlation,
                RequestView::Publish { topic, key, value },
            );
            let message = MessageView { offset: 0, key, value };
            &&& outcome.registry == registry
            &&& outcome.peer == peer
            &&& outcome.deliveries.len() == registry[topic].len() + 1
            &&& outcome.deliveries.last() == answer(peer.id, correlation, Response::Okay)
            &&& outcome.deliveries.drop_last() == fan_out(registry[topic], message)
        }),
{
    let message = MessageView { offset: 0, key, value };
    assert(fan_out(registry[topic], message).push(
        answer(peer.id, correlation, Response::Okay),
    ).drop_last() =~= fan_out(registry[topic], message));
}

/// Serving a request keeps the requester's list in agreement with the
/// registry.
pub proof fn lemma_served_keeps_agreement(
    registry: Registry,
    peer: PeerView,
    correlation: CorrelationId,
    request: RequestView,
)
    requires
        in_agreement(registry, peer),
    ensures
        in_agreement(
            served(registry, peer, correlation, request).registry,
            served(registry, peer, correlation, request).peer,
        ),
{
    let after = served(registry, peer, correlation, request);
    assert forall|name: Seq<u8>|
        count_matches(after.peer.subscriptions, is_value(name)) == #[trigger] entries_of(
            after.registry,
            name,
            after.peer.id,
        ) by {
        assert(count_matches(peer.subscriptions, is_value(name)) == entries_of(
            registry,
            name,
            peer.id,
        ));
        match request {
            RequestView::Subscribe { topic } => {
                if registry.contains_key(topic) {
                    lemma_count_push(peer.subscriptions, topic, is_value(name));
                    lemma_count_push(
                        registry[topic],
                        Subscriber { peer: peer.id, correlation },
                        is_entry_of(peer.id),
                    );
                }
            },
            RequestView::Unsubscribe { topic } => {
                if registry.contains_key(topic) {
                    assert(count_matches(peer.subscriptions, is_value(topic)) == entries_of(
                        registry,
                        topic,
                        peer.id,
                    ));
                    lemma_remove_first_match_counts(
                        peer.subscriptions,
                        is_value(topic),
                        is_value(name),
                    );
                    lemma_remove_first_match_counts(
                        registry[topic],
                        is_entry_of(peer.id),
                        is_entry_of(peer.id),
                    );
                }
            },
            _ => {},
        }
    }
}

/// Serving one peer's request keeps every other peer's list in agreement
/// with the registry.
pub proof fn lemma_served_keeps_agreement_of_others(
    registry: Registry,
    peer: PeerView,
    correlation: CorrelationId,
    request: RequestView,
    other: PeerView,
)
    requires
        other.id != peer.id,
        in_agreement(registry, other),
    ensures
        in_agreement(served(registry, peer, correlation, request).registry, other),
{
    let after = served(registry, peer, correlation, request);
    assert forall|name: Seq<u8>|
        count_matches(other.subscriptions, is_value(name)) == #[trigger] entries_of(
            after.registry,
            name,
            other.id,
        ) by {
        assert(count_matches(other.subscriptions, is_value(name)) == entries_of(
            registry,
            name,
            other.id,
        ));
        match request {
            RequestView::Subscribe { topic } => {
                if registry.contains_key(topic) {
                    lemma_count_push(
                        registry[topic],
                        Subscriber { peer: peer.id, correlation },
                        is_entry_of(other.id),
                    );
                }
            },
            RequestView::Unsubscribe { topic } => {
                if registry.contains_key(topic) {
                    lemma_remove_first_match_counts(
                        registry[topic],
                        is_entry_of(peer.id),
                        is_entry_of(other.id),
                    );
                }
            },
            _ => {},
        }
    }
}

/// Leaving topics removes no topic and touches no subscription that `other`
/// accepts, as long as `other` accepts none of `peer`'s.
proof fn lemma_departed_keeps(
    registry: Registry,
    peer: PeerId,
    names: Seq<Seq<u8>>,
    name: Seq<u8>,
    other: spec_fn(Subscriber) -> bool,
)
    requires
        forall|entry: Subscriber| entry.peer == peer ==> !#[trigger] other(entry),
    ensures
        departed(registry, peer, names).dom() == registry.dom(),
        registry.contains_key(name) ==> count_matches(
            departed(registry, peer, names)[name],
            other,
        ) == count_matches(registry[name], other),
    decreases names.len(),
{
    if names.len() > 0 {
        if registry.contains_key(names[0]) {
            let next = unsubscribed(registry, names[0], peer);
            assert(next.dom() =~= registry.dom());
            lemma_remove_first_match_counts(registry[names[0]], is_entry_of(peer), other);
            lemma_departed_keeps(next, peer, names.drop_first(), name, other);
        } else {
            lemma_departed_keeps(registry, peer, names.drop_first(), name, other);
        }
    }
}

/// After leaving every topic of a list that agrees with the registry, the
/// peer has no subscription left in any topic.
proof fn lemma_departed_clears(registry: Registry, peer: PeerView, name: Seq<u8>)
    requires
        in_agreement(registry, peer),
    ensures
        entries_of(departed(registry, peer.id, peer.subscriptions), name, peer.id) == 0,
    decreases peer.subscriptions.len(),
{
    let names = peer.subscriptions;
    if names.len() == 0 {
        assert(count_matches(names, is_value(name)) == entries_of(registry, name, peer.id));
    } else {
        let first = names[0];
        let rest = PeerView { id: peer.id, subscriptions: names.drop_first() };
        lemma_count_front(names, is_value(first));
        assert(count_matches(names, is_value(first)) == entries_of(registry, first, peer.id));
        assert(registry.contains_key(first));
        let next = unsubscribed(registry, first, peer.id);
        assert forall|n: Seq<u8>|
            count_matches(rest.subscriptions, is_value(n)) == #[trigger] entries_of(
                next,
                n,
                rest.id,
            ) by {
            assert(count_matches(names, is_value(n)) == entries_of(registry, n, peer.id));
            lemma_count_front(names, is_value(n));
            lemma_remove_first_match_counts(
                registry[first],
                is_entry_of(peer.id),
                is_entry_of(peer.id),
            );
        }
        lemma_departed_clears(next, rest, name);
    }
}

/// Disconnect cleanup: once a serving peer whose list agrees with the
/// registry has gone, every topic is still there, none lists the peer, a later publish to
/// any topic addresses nothing to it, and every subscription of another peer
/// is listed as often as before.
pub proof fn lemma_disconnect_removes_peer(registry: Registry, peer: PeerView)
    requires
        in_agreement(registry, peer),
    ensures
        ({
            let after = processed(registry, peer, Phase::Serving, EventView::Closed);
            &&& after.peer.subscriptions.len() == 0
            &&& after.deliveries.len() == 0
            &&& after.registry.dom() == registry.dom()
            &&& in_agreement(after.registry, after.peer)
            &&& forall|name: Seq<u8>| #[trigger]
                after.registry.contains_key(name) ==> count_matches(
                    after.registry[name],
                    is_entry_of(peer.id),
                ) == 0
            &&& forall|name: Seq<u8>, message: MessageView| #[trigger]
                after.registry.contains_key(name) ==> count_matches(
                    #[trigger] fan_out(after.registry[name], message),
                    is_addressed_to(peer.id),
                ) == 0
            &&& forall|name: Seq<u8>, entry: Subscriber|
                registry.contains_key(name) && entry.peer != peer.id ==> count_matches(
                    #[trigger] after.registry[name],
                    #[trigger] is_value(entry),
                ) == count_matches(registry[name], is_value(entry))
        }),
{
    let after = processed(registry, peer, Phase::Serving, EventView::Closed);
    lemma_departed_keeps(registry, peer.id, peer.subscriptions, Seq::empty(), |e: Subscriber| false);
    assert forall|name: Seq<u8>| #[trigger] after.registry.contains_key(name) implies count_matches(
        after.registry[name],
        is_entry_of(peer.id),
    ) == 0 by {
        lemma_departed_clears(registry, peer, name);
        assert(entries_of(after.registry, name, peer.id) == 0);
    }
    assert forall|name: Seq<u8>|
        count_matches(after.peer.subscriptions, is_value(name)) == #[trigger] entries_of(
            after.registry,
            name,
            after.peer.id,
        ) by {
        lemma_departed_clears(registry, peer, name);
    }
    assert forall|name: Seq<u8>, message: MessageView| #[trigger]
        after.registry.contains_key(name) implies count_matches(
        #[trigger] fan_out(after.registry[name], message),
        is_addressed_to(peer.id),
    ) == 0 by {
        lemma_fan_out_reaches_each_subscription(after.registry[name], message, peer.id);
    }
    assert forall|name: Seq<u8>, entry: Subscriber|
        registry.contains_key(name) && entry.peer != peer.id implies count_matches(
        #[trigger] after.registry[name],
        #[trigger] is_value(entry),
    ) == count_matches(registry[name], is_value(entry)) by {
        lemma_departed_keeps(registry, peer.id, peer.subscriptions, name, is_value(entry));
    }
}

/// One peer's disconnect keeps every other peer's list in agreement with
/// the registry.
pub proof fn lemma_disconnect_keeps_agreement_of_others(
    registry: Registry,
    peer: PeerView,
    other: PeerView,
)
    requires
        other.id != peer.id,
        in_agreement(registry, other),
    ensures
        in_agreement(processed(registry, peer, Phase::Serving, EventView::Closed).registry, other),
{
    let after = processed(registry, peer, Phase::Serving, EventView::Closed);
    assert forall|name: Seq<u8>|
        count_matches(other.subscriptions, is_value(name)) == #[trigger] entries_of(
            after.registry,
            name,
            other.id,
        ) by {
        assert(count_matches(other.subscriptions, is_value(name)) == entries_of(
            registry,
            name,
            other.id,
        ));
        lemma_departed_keeps(registry, peer.id, peer.subscriptions, name, is_entry_of(other.id));
    }
}

/// Whatever a connection reports, handling it keeps the connection's list
/// in agreement with the registry.
pub proof fn lemma_processed_keeps_agreement(
    registry: Registry,
    peer: PeerView,
    phase: Phase,
    event: EventView,
)
    requires
        in_agreement(registry, peer),
    ensures
        in_agreement(
            processed(registry, peer, phase, event).registry,
            processed(registry, peer, phase, event).peer,
        ),
{
    if phase != Phase::Terminated {
        match event {
            EventView::Received(transaction) => {
                match transaction.exchange {
                    ExchangeView::Request(request) => {
                        lemma_served_keeps_agreement(registry, peer, transaction.correlation, request);
                    },
                    _ => {},
                }
            },
            EventView::Garbled => {},
            EventView::Closed => {
                lemma_disconnect_removes_peer(registry, peer);
            },
        }
    }
}

/// Whatever a connection reports, handling it keeps every other
/// connection's list in agreement with the registry.
pub proof fn lemma_processed_keeps_agreement_of_others(
    registry: Registry,
    peer: PeerView,
    phase: Phase,
    event: EventView,
    other: PeerView,
)
    requires
        other.id != peer.id,
        in_agreement(registry, other),
    ensures
        in_agreement(processed(registry, peer, phase, event).registry, other),
{
    if phase != Phase::Terminated {
        match event {
            EventView::Received(transaction) => {
                match transaction.exchange {
                    ExchangeView::Request(request) => {
                        lemma_served_keeps_agreement_of_others(
                            registry,
                            peer,
                            transaction.correlation,
                            request,
                            other,
                        );
                    },
                    _ => {},
                }
            },
            EventView::Garbled => {},
            EventView::Closed => {
                lemma_disconnect_keeps_agreement_of_others(registry, peer, other);
            },
        }
    }
}

/// A terminated connection is inert: whatever it reports changes nothing
/// and enqueues nothing, and it stays terminated.
pub proof fn lemma_terminated_is_inert(registry: Registry, peer: PeerView, event: EventView)
    ensures
        processed(registry, peer, Phase::Terminated, event) == (Outcome {
            registry,
            peer,
            deliveries: Seq::empty(),
        }),
        crate::server::next_phase(Phase::Terminated, event) == Phase::Terminated,
{
}

/// The broker as a whole: the registry and the sessions of the live
/// connections, each under its id. A connection is live from the moment it
/// is accepted until its stream ends.
pub struct Broker {
    pub registry: Registry,
    pub peers: Map<PeerId, PeerView>,
}

impl Broker {
    /// A broker with no topic and no connection.
    pub open spec fn empty() -> Broker {
        Broker { registry: Map::empty(), peers: Map::empty() }
    }

    /// After the connection `id` was accepted.
    pub open spec fn accepted(self, id: PeerId) -> Broker {
        Broker {
            registry: self.registry,
            peers: self.peers.insert(id, PeerView { id, subscriptions: Seq::empty() }),
        }
    }

    /// After the live connection `id` reported `event`. The end of its
    /// stream takes the connection away.
    pub open spec fn handled(self, id: PeerId, event: EventView) -> Broker {
        let outcome = processed(self.registry, self.peers[id], Phase::Serving, event);
        Broker {
            registry: outcome.registry,
            peers: if event is Closed {
                self.peers.remove(id)
            } else {
                self.peers.insert(id, outcome.peer)
            },
        }
    }

    /// Every live connection's list agrees with the registry, and no topic
    /// lists a connection that is not live.
    pub open spec fn sound(self) -> bool {
        &&& forall|id: PeerId| #[trigger]
            self.peers.contains_key(id) ==> self.peers[id].id == id && in_agreement(
                self.registry,
                self.peers[id],
            )
        &&& forall|id: PeerId, name: Seq<u8>|
            !self.peers.contains_key(id) ==> #[trigger] entries_of(self.registry, name, id) == 0
    }
}

/// A peer without subscriptions agrees with the registry exactly when no
/// topic lists it.
proof fn lemma_absent_means_agreement(registry: Registry, id: PeerId)
    ensures
        in_agreement(registry, PeerView { id, subscriptions: Seq::empty() }) <==> forall|
            name: Seq<u8>,
        | #[trigger] entries_of(registry, name, id) == 0,
{
    let peer = PeerView { id, subscriptions: Seq::empty() };
    if in_agreement(registry, peer) {
        assert forall|name: Seq<u8>| #[trigger] entries_of(registry, name, id) == 0 by {
            assert(count_matches(peer.subscriptions, is_value(name)) == entries_of(
                registry,
                name,
                peer.id,
            ));
        }
    }
}

/// The empty broker is sound.
pub proof fn lemma_empty_broker_is_sound()
    ensures
        Broker::empty().sound(),
{
}

/// Accepting a connection under an id that no live connection has keeps
/// the broker sound.
pub proof fn lemma_accepting_keeps_sound(broker: Broker, id: PeerId)
    requires
        broker.sound(),
        !broker.peers.contains_key(id),
    ensures
        broker.accepted(id).sound(),
{
    let after = broker.accepted(id);
    lemma_absent_means_agreement(broker.registry, id);
    assert forall|other: PeerId| #[trigger] after.peers.contains_key(other) implies after.peers[other].id
        == other && in_agreement(after.registry, after.peers[other]) by {
        if other != id {
            assert(broker.peers.contains_key(other));
        }
    }
    assert forall|other: PeerId, name: Seq<u8>|
        !after.peers.contains_key(other) implies #[trigger] entries_of(
        after.registry,
        name,
        other,
    ) == 0 by {
        assert(!broker.peers.contains_key(other));
    }
}

/// Whatever a live connection reports, handling it keeps the broker sound.
/// So in every state that the broker reaches, no topic lists a connection
/// that has gone, and every live connection knows what it joined.
pub proof fn lemma_handling_keeps_sound(broker: Broker, id: PeerId, event: EventView)
    requires
        broker.sound(),
        broker.peers.contains_key(id),
    ensures
        broker.handled(id, event).sound(),
{
    let after = broker.handled(id, event);
    let peer = broker.peers[id];
    let outcome = processed(broker.registry, peer, Phase::Serving, event);
    lemma_processed_keeps_agreement(broker.registry, peer, Phase::Serving, event);
    assert(outcome.peer.id == id);
    assert forall|other: PeerId| #[trigger] after.peers.contains_key(other) implies after.peers[other].id
        == other && in_agreement(after.registry, after.peers[other]) by {
        if other != id {
            assert(broker.peers.contains_key(other));
            lemma_processed_keeps_agreement_of_others(
                broker.registry,
                peer,
                Phase::Serving,
                event,
                broker.peers[other],
            );
        }
    }
    assert forall|other: PeerId, name: Seq<u8>|
        !after.peers.contains_key(other) implies #[trigger] entries_of(
        after.registry,
        name,
        other,
    ) == 0 by {
        if other == id {
            lemma_absent_means_agreement(after.registry, id);
            assert(outcome.peer == (PeerView { id, subscriptions: Seq::empty() }));
        } else {
            assert(!broker.peers.contains_key(other));
            lemma_absent_means_agreement(broker.registry, other);
            lemma_absent_means_agreement(after.registry, other);
            let gone = PeerView { id: other, subscriptions: Seq::empty() };
            assert forall|n: Seq<u8>| #[trigger] entries_of(broker.registry, n, other) == 0 by {
                assert(!broker.peers.contains_key(other));
            }
            lemma_processed_keeps_agreement_of_others(
                broker.registry,
                peer,
                Phase::Serving,
                event,
                gone,
            );
        }
    }
}

} // verus!
