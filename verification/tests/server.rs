use rufka::peer::{Delivery, Peer};
use rufka::protocol::{Exchange, Message, Request, Response, Transaction};
use rufka::server::{disconnect, dispatch, process, Connection, Event, Phase};
use rufka::state::State;

fn request(correlation: i32, request: Request) -> Transaction {
    Transaction { correlation, exchange: Exchange::Request(request) }
}

fn reply(peer: u64, correlation: i32, response: Response) -> Delivery {
    Delivery {
        peer,
        transaction: Transaction { correlation, exchange: Exchange::Response(response) },
    }
}

fn pushed(peer: u64, correlation: i32, key: &[u8], value: &[u8]) -> Delivery {
    Delivery {
        peer,
        transaction: Transaction {
            correlation,
            exchange: Exchange::Message(Message {
                offset: 0,
                key: key.to_vec(),
                value: value.to_vec(),
            }),
        },
    }
}

fn create(name: &[u8]) -> Request {
    Request::Create { topic: name.to_vec() }
}

fn subscribe(name: &[u8]) -> Request {
    Request::Subscribe { topic: name.to_vec() }
}

fn unsubscribe(name: &[u8]) -> Request {
    Request::Unsubscribe { topic: name.to_vec() }
}

fn publish(name: &[u8], key: &[u8], value: &[u8]) -> Request {
    Request::Publish { topic: name.to_vec(), key: key.to_vec(), value: value.to_vec() }
}

#[test]
fn ping_is_answered_ok() {
    let mut state = State::new();
    let mut peer = Peer::new(9);
    let out = dispatch(&mut state, &mut peer, request(77, Request::Ping));
    assert_eq!(out, vec![reply(9, 77, Response::Okay)]);
    assert_eq!(state.len(), 0);
}

#[test]
fn create_is_idempotent() {
    let mut state = State::new();
    let mut peer = Peer::new(1);
    let first = dispatch(&mut state, &mut peer, request(5, create(b"t")));
    assert_eq!(first, vec![reply(1, 5, Response::Okay)]);
    assert_eq!(state.len(), 1);
    dispatch(&mut state, &mut peer, request(6, subscribe(b"t")));
    let second = dispatch(&mut state, &mut peer, request(7, create(b"t")));
    assert_eq!(second, vec![reply(1, 7, Response::Okay)]);
    assert_eq!(state.len(), 1);
    assert!(state.contains(&b"t".to_vec()));
    let out = dispatch(&mut state, &mut peer, request(8, publish(b"t", b"k", b"v")));
    assert_eq!(out, vec![pushed(1, 6, b"k", b"v"), reply(1, 8, Response::Okay)]);
}

#[test]
fn unknown_topic_is_reported_and_changes_nothing() {
    let mut state = State::new();
    let mut owner = Peer::new(1);
    dispatch(&mut state, &mut owner, request(1, create(b"there")));
    dispatch(&mut state, &mut owner, request(2, subscribe(b"there")));
    let mut peer = Peer::new(2);
    let out = dispatch(&mut state, &mut peer, request(10, subscribe(b"missing")));
    assert_eq!(out, vec![reply(2, 10, Response::UnknownTopic)]);
    let out = dispatch(&mut state, &mut peer, request(11, unsubscribe(b"missing")));
    assert_eq!(out, vec![reply(2, 11, Response::UnknownTopic)]);
    let out = dispatch(&mut state, &mut peer, request(12, publish(b"missing", b"k", b"v")));
    assert_eq!(out, vec![reply(2, 12, Response::UnknownTopic)]);
    assert_eq!(state.len(), 1);
    assert!(!state.contains(&b"missing".to_vec()));
    assert!(peer.unsubscribe_all().is_empty());
    let out = dispatch(&mut state, &mut owner, request(3, publish(b"there", b"k", b"v")));
    assert_eq!(out, vec![pushed(1, 2, b"k", b"v"), reply(1, 3, Response::Okay)]);
}

#[test]
fn publish_fans_out_with_each_subscribers_own_correlation() {
    let mut state = State::new();
    let mut publisher = Peer::new(100);
    dispatch(&mut state, &mut publisher, request(0, create(b"t")));
    let mut one = Peer::new(11);
    let mut two = Peer::new(12);
    let mut three = Peer::new(13);
    assert_eq!(
        dispatch(&mut state, &mut one, request(1, subscribe(b"t"))),
        vec![reply(11, 1, Response::Okay)]
    );
    dispatch(&mut state, &mut two, request(2, subscribe(b"t")));
    dispatch(&mut state, &mut three, request(3, subscribe(b"t")));
    let out = dispatch(&mut state, &mut publisher, request(50, publish(b"t", b"k", b"v")));
    assert_eq!(
        out,
        vec![
            pushed(11, 1, b"k", b"v"),
            pushed(12, 2, b"k", b"v"),
            pushed(13, 3, b"k", b"v"),
            reply(100, 50, Response::Okay),
        ]
    );
}

#[test]
fn publish_to_a_topic_without_subscribers_only_answers() {
    let mut state = State::new();
    let mut peer = Peer::new(1);
    dispatch(&mut state, &mut peer, request(0, create(b"t")));
    let out = dispatch(&mut state, &mut peer, request(1, publish(b"t", b"", b"")));
    assert_eq!(out, vec![reply(1, 1, Response::Okay)]);
}

#[test]
fn subscribing_twice_delivers_twice() {
    let mut state = State::new();
    let mut peer = Peer::new(4);
    dispatch(&mut state, &mut peer, request(0, create(b"t")));
    dispatch(&mut state, &mut peer, request(1, subscribe(b"t")));
    dispatch(&mut state, &mut peer, request(2, subscribe(b"t")));
    let out = dispatch(&mut state, &mut peer, request(3, publish(b"t", b"k", b"v")));
    assert_eq!(
        out,
        vec![pushed(4, 1, b"k", b"v"), pushed(4, 2, b"k", b"v"), reply(4, 3, Response::Okay)]
    );
    dispatch(&mut state, &mut peer, request(4, unsubscribe(b"t")));
    let out = dispatch(&mut state, &mut peer, request(5, publish(b"t", b"k", b"v")));
    assert_eq!(out, vec![pushed(4, 2, b"k", b"v"), reply(4, 5, Response::Okay)]);
}

#[test]
fn unsubscribe_stops_delivery() {
    let mut state = State::new();
    let mut one = Peer::new(1);
    let mut two = Peer::new(2);
    let mut three = Peer::new(3);
    dispatch(&mut state, &mut one, request(0, create(b"t")));
    dispatch(&mut state, &mut one, request(1, subscribe(b"t")));
    dispatch(&mut state, &mut two, request(2, subscribe(b"t")));
    dispatch(&mut state, &mut three, request(3, subscribe(b"t")));
    let out = dispatch(&mut state, &mut one, request(4, unsubscribe(b"t")));
    assert_eq!(out, vec![reply(1, 4, Response::Okay)]);
    let out = dispatch(&mut state, &mut two, request(5, publish(b"t", b"k", b"v")));
    assert_eq!(
        out,
        vec![pushed(3, 3, b"k", b"v"), pushed(2, 2, b"k", b"v"), reply(2, 5, Response::Okay)]
    );
    let out = dispatch(&mut state, &mut one, request(6, unsubscribe(b"t")));
    assert_eq!(out, vec![reply(1, 6, Response::Okay)]);
}

#[test]
fn disconnect_removes_the_peer_from_every_topic() {
    let mut state = State::new();
    let mut leaver = Peer::new(1);
    let mut stayer = Peer::new(2);
    dispatch(&mut state, &mut leaver, request(0, create(b"a")));
    dispatch(&mut state, &mut leaver, request(0, create(b"b")));
    dispatch(&mut state, &mut leaver, request(1, subscribe(b"a")));
    dispatch(&mut state, &mut stayer, request(2, subscribe(b"a")));
    dispatch(&mut state, &mut leaver, request(3, subscribe(b"b")));
    dispatch(&mut state, &mut stayer, request(4, subscribe(b"b")));
    disconnect(&mut state, &mut leaver);
    assert!(leaver.unsubscribe_all().is_empty());
    assert_eq!(state.len(), 2);
    let out = dispatch(&mut state, &mut stayer, request(5, publish(b"a", b"k", b"v")));
    assert_eq!(out, vec![pushed(2, 2, b"k", b"v"), reply(2, 5, Response::Okay)]);
    let out = dispatch(&mut state, &mut stayer, request(6, publish(b"b", b"k", b"v")));
    assert_eq!(out, vec![pushed(2, 4, b"k", b"v"), reply(2, 6, Response::Okay)]);
}

#[test]
fn closed_event_cleans_up_and_sends_nothing() {
    let mut state = State::new();
    let mut connection = Connection::new(1);
    assert_eq!(connection.phase(), Phase::Connected);
    assert_eq!(connection.peer().id(), 1);
    process(&mut state, &mut connection, Event::Received(request(0, create(b"a"))));
    assert_eq!(connection.phase(), Phase::Serving);
    process(&mut state, &mut connection, Event::Received(request(1, subscribe(b"a"))));
    process(&mut state, &mut connection, Event::Received(request(2, subscribe(b"a"))));
    let out = process(&mut state, &mut connection, Event::Closed);
    assert!(out.is_empty());
    assert_eq!(connection.phase(), Phase::Terminated);
    let mut other = Connection::new(2);
    let out =
        process(&mut state, &mut other, Event::Received(request(9, publish(b"a", b"", b""))));
    assert_eq!(out, vec![reply(2, 9, Response::Okay)]);
}

#[test]
fn terminated_connection_is_inert() {
    let mut state = State::new();
    let mut connection = Connection::new(1);
    process(&mut state, &mut connection, Event::Received(request(0, create(b"a"))));
    process(&mut state, &mut connection, Event::Closed);
    assert!(process(&mut state, &mut connection, Event::Received(request(1, create(b"b"))))
        .is_empty());
    assert!(process(&mut state, &mut connection, Event::Received(request(2, subscribe(b"a"))))
        .is_empty());
    assert!(process(&mut state, &mut connection, Event::Garbled).is_empty());
    assert!(process(&mut state, &mut connection, Event::Closed).is_empty());
    assert_eq!(connection.phase(), Phase::Terminated);
    assert_eq!(state.len(), 1);
    let mut other = Connection::new(2);
    let out =
        process(&mut state, &mut other, Event::Received(request(9, publish(b"a", b"", b""))));
    assert_eq!(out, vec![reply(2, 9, Response::Okay)]);
}

#[test]
fn closing_a_fresh_connection_terminates_it() {
    let mut state = State::new();
    let mut connection = Connection::new(1);
    assert!(process(&mut state, &mut connection, Event::Closed).is_empty());
    assert_eq!(connection.phase(), Phase::Terminated);
}

#[test]
fn garbled_frame_is_answered_and_the_connection_serves_on() {
    let mut state = State::new();
    let mut connection = Connection::new(3);
    let out = process(&mut state, &mut connection, Event::Garbled);
    assert_eq!(out, vec![reply(3, 0, Response::InvalidCommand)]);
    assert_eq!(connection.phase(), Phase::Serving);
    let out = process(&mut state, &mut connection, Event::Received(request(1, Request::Ping)));
    assert_eq!(out, vec![reply(3, 1, Response::Okay)]);
}

#[test]
fn exchanges_that_are_no_request_are_ignored() {
    let mut state = State::new();
    let mut peer = Peer::new(3);
    let response = Transaction { correlation: 1, exchange: Exchange::Response(Response::Okay) };
    assert!(dispatch(&mut state, &mut peer, response).is_empty());
    let message = Transaction {
        correlation: 1,
        exchange: Exchange::Message(Message { offset: 0, key: vec![], value: vec![] }),
    };
    assert!(dispatch(&mut state, &mut peer, message).is_empty());
    assert_eq!(state.len(), 0);
}

#[test]
fn many_creates_of_one_name_make_one_topic() {
    let mut state = State::new();
    for id in 0..32u64 {
        let mut peer = Peer::new(id);
        let out = dispatch(&mut state, &mut peer, request(id as i32, create(b"same-name")));
        assert_eq!(out, vec![reply(id, id as i32, Response::Okay)]);
    }
    assert_eq!(state.len(), 1);
    assert!(state.contains(&b"same-name".to_vec()));
}
