//! The dispatcher: what the broker does with each event of a connection.
//!
//! The caller owns the socket and the outbound queues. It reports what the
//! connection produced (a decoded transaction, an undecodable frame, the end
//! of the stream) and enqueues the deliveries it gets back, in order.

use vstd::prelude::*;
use crate::peer::{deliveries_view, Delivery, DeliveryView, Peer, PeerId, PeerView};
use crate::protocol::{
    CorrelationId, Exchange, ExchangeView, Message, MessageView, Request, RequestView, Response,
    Transaction, TransactionView,
};
use crate::sequences::{is_value, remove_first_match};
use crate::state::{created, subscribed, unsubscribed, Registry, State};
use crate::topic::fan_out;

verus! {

/// What a connection's read side reports.
#[derive(Debug, Clone, PartialEq, Eq)]
pub enum Event {
    /// A frame was decoded into this transaction.
    Received(Transaction),
    /// A frame arrived that could not be decoded.
    Garbled,
    /// The stream ended or failed.
    Closed,
}

/// The mathematical content of an [`Event`].
pub enum EventView {
    Received(TransactionView),
    Garbled,
    Closed,
}

impl View for Event {
    type V = EventView;

    open spec fn view(&self) -> EventView {
        match *self {
            Event::Received(transaction) => EventView::Received(transaction@),
            Event::Garbled => EventView::Garbled,
            Event::Closed => EventView::Closed,
        }
    }
}

/// Where a connection stands in its life. Removing the peer from its
/// topics, between the end of the stream and `Terminated`, happens within the
/// one step that handles `Closed`.
#[derive(Debug, Clone, Copy, PartialEq, Eq, Structural)]
pub enum Phase {
    /// Accepted; nothing was received yet.
    Connected,
    /// Requests are being served.
    Serving,
    /// The stream has ended and the peer has left every topic.
    Terminated,
}

/// The phase after `event`: a terminated connection stays so, the end of
/// the stream terminates it, and anything else is served.
pub open spec fn next_phase(phase: Phase, event: EventView) -> Phase {
    if phase == Phase::Terminated || event is Closed {
        Phase::Terminated
    } else {
        Phase::Serving
    }
}

/// One connection: its session and its phase.
pub struct Connection {
    peer: Peer,
    phase: Phase,
}

/// The mathematical content of a [`Connection`].
pub struct ConnectionView {
    pub peer: PeerView,
    pub phase: Phase,
}

impl View for Connection {
    type V = ConnectionView;

    closed spec fn view(&self) -> ConnectionView {
        ConnectionView { peer: self.peer@, phase: self.phase }
    }
}

impl Connection {
    /// The connection `id`, just accepted.
    pub fn new(id: PeerId) -> (connection: Connection)
        ensures
            connection@ == (ConnectionView {
                peer: PeerView { id, subscriptions: Seq::empty() },
                phase: Phase::Connected,
            }),
    {
        Connection { peer: Peer::new(id), phase: Phase::Connected }
    }

    /// The connection's session.
    pub fn peer(&self) -> (peer: &Peer)
        ensures
            peer@ == self@.peer,
    {
        &self.peer
    }

    /// The connection's phase.
    pub fn phase(&self) -> (phase: Phase)
        ensures
            phase == self@.phase,
    {
        self.phase
    }
}

/// The broker after an event: the registry, the session of the connection
/// that produced the event, and what was enqueued, in order.
pub struct Outcome {
    pub registry: Registry,
    pub peer: PeerView,
    pub deliveries: Seq<DeliveryView>,
}

/// The delivery that answers `peer`'s request `correlation` with `response`.
pub open spec fn answer(peer: PeerId, correlation: CorrelationId, response: Response) -> DeliveryView {
    DeliveryView { peer, transaction: Transaction::spec_reply(correlation, response) }
}

/// An outcome that changes nothing and only answers the requester.
pub open spec fn answered(
    registry: Registry,
    peer: PeerView,
    correlation: CorrelationId,
    response: Response,
) -> Outcome {
    Outcome { registry, peer, deliveries: seq![answer(peer.id, correlation, response)] }
}

/// What serving `request`, sent by `peer` with `correlation`, does.
///
/// A request that names a topic which does not exist changes nothing and is
/// answered with `UnknownTopic`. A publish enqueues the fan-out to the
/// topic's subscribers before the answer to the publisher.
pub open spec fn served(
    registry: Registry,
    peer: PeerView,
    correlation: CorrelationId,
    request: RequestView,
) -> Outcome {
    match request {
        RequestView::Ping => answered(registry, peer, correlation, Response::Okay),
        RequestView::Create { topic } => answered(
            created(registry, topic),
            peer,
            correlation,
            Response::Okay,
        ),
        RequestView::Subscribe { topic } => if registry.contains_key(topic) {
            answered(
                subscribed(registry, topic, peer.id, correlation),
                PeerView { id: peer.id, subscriptions: peer.subscriptions.push(topic) },
                correlation,
                Response::Okay,
            )
        } else {
            answered(registry, peer, correlation, Response::UnknownTopic)
        },
        RequestView::Unsubscribe { topic } => if registry.contains_key(topic) {
            answered(
                unsubscribed(registry, topic, peer.id),
                PeerView {
                    id: peer.id,
                    subscriptions: remove_first_match(peer.subscriptions, is_value(topic)),
                },
                correlation,
                Response::Okay,
            )
        } else {
            answered(registry, peer, correlation, Response::UnknownTopic)
        },
        RequestView::Publish { topic, key, value } => if registry.contains_key(topic) {
            Outcome {
                registry,
                peer,
                deliveries: fan_out(registry[topic], MessageView { offset: 0, key, value }).push(
                    answer(peer.id, correlation, Response::Okay),
                ),
            }
        } else {
            answered(registry, peer, correlation, Response::UnknownTopic)
        },
    }
}

/// What receiving `transaction` from `peer` does: a request is served, and
/// anything else is ignored.
pub open spec fn dispatched(registry: Registry, peer: PeerView, transaction: TransactionView) -> Outcome {
    match transaction.exchange {
        ExchangeView::Request(request) => served(registry, peer, transaction.correlation, request),
        _ => Outcome { registry, peer, deliveries: Seq::empty() },
    }
}

/// `registry` after `peer` left the topics listed in `names`, one
/// subscription per listed name, in the list's order. A name of no topic is
/// passed over.
pub open spec fn departed(registry: Registry, peer: PeerId, names: Seq<Seq<u8>>) -> Registry
    decreases names.len(),
{
    if names.len() == 0 {
        registry
    } else if registry.contains_key(names[0]) {
        departed(unsubscribed(registry, names[0], peer), peer, names.drop_first())
    } else {
        departed(registry, peer, names.drop_first())
    }
}

/// What an event does to the registry and to the session of the connection
/// that reports it, while the connection is in `phase`.
///
/// An undecodable frame is answered with `InvalidCommand` under correlation
/// zero and the connection stays open. The end of the stream removes the
/// peer from every topic it joined and enqueues nothing. On a terminated
/// connection no event does anything.
pub open spec fn processed(registry: Registry, peer: PeerView, phase: Phase, event: EventView) -> Outcome {
    if phase == Phase::Terminated {
        Outcome { registry, peer, deliveries: Seq::empty() }
    } else {
        match event {
            EventView::Received(transaction) => dispatched(registry, peer, transaction),
            EventView::Garbled => answered(registry, peer, 0, Response::InvalidCommand),
            EventView::Closed => Outcome {
                registry: departed(registry, peer.id, peer.subscriptions),
                peer: PeerView { id: peer.id, subscriptions: Seq::empty() },
                deliveries: Seq::empty(),
            },
        }
    }
}

/// The single delivery that answers `peer` with `response`.
fn respond(peer: &Peer, correlation: CorrelationId, response: Response) -> (deliveries: Vec<
    Delivery,
>)
    ensures
        deliveries_view(deliveries@) == seq![answer(peer@.id, correlation, response)],
{
    let mut deliveries: Vec<Delivery> = Vec::new();
    deliveries.push(peer.send(Transaction::reply(correlation, response)));
    assert(deliveries_view(deliveries@) =~= seq![answer(peer@.id, correlation, response)]);
    deliveries
}

/// Serves one transaction received from `peer` and returns what to enqueue.
pub fn dispatch(state: &mut State, peer: &mut Peer, transaction: Transaction) -> (deliveries: Vec<
    Delivery,
>)
    ensures
        final(state)@ == dispatched(old(state)@, old(peer)@, transaction@).registry,
        final(peer)@ == dispatched(old(state)@, old(peer)@, transaction@).peer,
        deliveries_view(deliveries@) == dispatched(
            old(state)@,
            old(peer)@,
            transaction@,
        ).deliveries,
{
    let correlation = transaction.correlation;
    let request = match transaction.exchange {
        Exchange::Request(request) => request,
        _ => {
            let nothing: Vec<Delivery> = Vec::new();
            assert(deliveries_view(nothing@) =~= Seq::empty());
            return nothing;
        },
    };
    match request {
        Request::Publish { topic, key, value } => {
            match state.get(&topic) {
                Some(found) => {
                    let mut deliveries = found.send(Message { offset: 0, key, value });
                    let ghost pushed = deliveries_view(deliveries@);
                    deliveries.push(peer.send(Transaction::reply(correlation, Response::Okay)));
                    assert(deliveries_view(deliveries@) =~= pushed.push(
                        answer(peer@.id, correlation, Response::Okay),
                    ));
                    deliveries
                },
                None => respond(peer, correlation, Response::UnknownTopic),
            }
        },
        Request::Create { topic } => {
            state.create(topic);
            respond(peer, correlation, Response::Okay)
        },
        Request::Subscribe { topic } => {
            if state.subscribe(&topic, peer.id(), correlation) {
                peer.subscribe(topic);
                assert(peer@ == (PeerView {
                    id: old(peer)@.id,
                    subscriptions: old(peer)@.subscriptions.push(topic@),
                }));
                respond(peer, correlation, Response::Okay)
            } else {
                respond(peer, correlation, Response::UnknownTopic)
            }
        },
        Request::Unsubscribe { topic } => {
            if state.unsubscribe(&topic, peer.id()) {
                peer.unsubscribe(&topic);
                assert(peer@ == (PeerView {
                    id: old(peer)@.id,
                    subscriptions: remove_first_match(
                        old(peer)@.subscriptions,
                        is_value(topic@),
                    ),
                }));
                respond(peer, correlation, Response::Okay)
            } else {
                respond(peer, correlation, Response::UnknownTopic)
            }
        },
        Request::Ping => respond(peer, correlation, Response::Okay),
    }
}

/// Removes `peer` from every topic it joined and clears its subscriptions.
pub fn disconnect(state: &mut State, peer: &mut Peer)
    ensures
        final(state)@ == departed(old(state)@, old(peer)@.id, old(peer)@.subscriptions),
        final(peer)@ == (PeerView { id: old(peer)@.id, subscriptions: Seq::empty() }),
{
    let id = peer.id();
    let names = peer.unsubscribe_all();
    let ghost listed = old(peer)@.subscriptions;
    assert(listed.skip(0) =~= listed);
    let mut i: usize = 0;
    while i < names.len()
        invariant
            i <= names@.len(),
            listed.len() == names@.len(),
            forall|j: int| 0 <= j < names@.len() ==> (#[trigger] names@[j])@ == listed[j],
            departed(state@, id, listed.skip(i as int)) == departed(old(state)@, id, listed),
        decreases names@.len() - i,
    {
        assert(listed.skip(i as int)[0] == names@[i as int]@);
        assert(listed.skip(i as int).drop_first() =~= listed.skip(i as int + 1));
        state.unsubscribe(&names[i], id);
        i += 1;
    }
}

/// Handles one event of a connection, moves the connection to its next
/// phase and returns what to enqueue.
pub fn process(state: &mut State, connection: &mut Connection, event: Event) -> (deliveries: Vec<
    Delivery,
>)
    ensures
        final(connection)@.phase == next_phase(old(connection)@.phase, event@),
        final(state)@ == processed(
            old(state)@,
            old(connection)@.peer,
            old(connection)@.phase,
            event@,
        ).registry,
        final(connection)@.peer == processed(
            old(state)@,
            old(connection)@.peer,
            old(connection)@.phase,
            event@,
        ).peer,
        deliveries_view(deliveries@) == processed(
            old(state)@,
            old(connection)@.peer,
            old(connection)@.phase,
            event@,
        ).deliveries,
{
    if let Phase::Terminated = connection.phase {
        let nothing: Vec<Delivery> = Vec::new();
        assert(deliveries_view(nothing@) =~= Seq::empty());
        return nothing;
    }
    match event {
        Event::Received(transaction) => {
            connection.phase = Phase::Serving;
            dispatch(state, &mut connection.peer, transaction)
        },
        Event::Garbled => {
            connection.phase = Phase::Serving;
            respond(&connection.peer, 0, Response::InvalidCommand)
        },
        Event::Closed => {
            connection.phase = Phase::Terminated;
            disconnect(state, &mut connection.peer);
            let nothing: Vec<Delivery> = Vec::new();
            assert(deliveries_view(nothing@) =~= Seq::empty());
            nothing
        },
    }
}

} // verus!
