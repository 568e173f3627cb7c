use rufka::peer::{Delivery, Peer};
use rufka::protocol::{Exchange, Message, Response, Transaction};
use rufka::state::State;
use rufka::topic::Topic;

fn message(key: &[u8], value: &[u8]) -> Message {
    Message { offset: 0, key: key.to_vec(), value: value.to_vec() }
}

fn peers_of(deliveries: &[Delivery]) -> Vec<(u64, i32)> {
    deliveries.iter().map(|d| (d.peer, d.transaction.correlation)).collect()
}

#[test]
fn topic_send_tags_each_copy() {
    let mut topic = Topic::new(b"t".to_vec());
    assert_eq!(topic.name(), &b"t".to_vec());
    assert!(topic.send(message(b"k", b"v")).is_empty());
    topic.subscribe(7, 70);
    topic.subscribe(8, 80);
    let out = topic.send(message(b"k", b"v"));
    assert_eq!(peers_of(&out), vec![(7, 70), (8, 80)]);
    for delivery in &out {
        assert_eq!(delivery.transaction.exchange, Exchange::Message(message(b"k", b"v")));
    }
}

#[test]
fn topic_unsubscribe_swaps_the_last_entry_in() {
    let mut topic = Topic::new(b"t".to_vec());
    topic.subscribe(1, 10);
    topic.subscribe(2, 20);
    topic.subscribe(1, 11);
    topic.subscribe(3, 30);
    topic.unsubscribe(1);
    assert_eq!(peers_of(&topic.send(message(b"", b""))), vec![(3, 30), (2, 20), (1, 11)]);
    topic.unsubscribe(9);
    assert_eq!(peers_of(&topic.send(message(b"", b""))), vec![(3, 30), (2, 20), (1, 11)]);
    topic.unsubscribe(1);
    assert_eq!(peers_of(&topic.send(message(b"", b""))), vec![(3, 30), (2, 20)]);
    topic.unsubscribe(2);
    topic.unsubscribe(3);
    assert!(topic.send(message(b"", b"")).is_empty());
}

#[test]
fn peer_keeps_its_subscriptions() {
    let mut peer = Peer::new(5);
    assert_eq!(peer.id(), 5);
    peer.subscribe(b"a".to_vec());
    peer.subscribe(b"b".to_vec());
    peer.subscribe(b"a".to_vec());
    peer.subscribe(b"c".to_vec());
    peer.unsubscribe(&b"a".to_vec());
    peer.unsubscribe(&b"zzz".to_vec());
    assert_eq!(peer.unsubscribe_all(), vec![b"c".to_vec(), b"b".to_vec(), b"a".to_vec()]);
    assert!(peer.unsubscribe_all().is_empty());
}

#[test]
fn peer_send_addresses_the_transaction() {
    let peer = Peer::new(5);
    let transaction = Transaction::reply(3, Response::UnknownTopic);
    assert_eq!(
        transaction,
        Transaction { correlation: 3, exchange: Exchange::Response(Response::UnknownTopic) }
    );
    assert_eq!(peer.send(transaction.clone()), Delivery { peer: 5, transaction });
}

#[test]
fn message_duplicate_is_equal() {
    let first = message(b"key", b"value");
    assert_eq!(first.duplicate(), first);
}

#[test]
fn state_create_get_subscribe() {
    let mut state = State::new();
    assert_eq!(state.len(), 0);
    assert!(state.get(&b"t".to_vec()).is_none());
    assert!(state.create(b"t".to_vec()));
    assert!(!state.create(b"t".to_vec()));
    assert!(state.create(b"u".to_vec()));
    assert_eq!(state.len(), 2);
    assert!(state.contains(&b"t".to_vec()));
    assert!(!state.contains(&b"v".to_vec()));
    assert!(state.subscribe(&b"t".to_vec(), 1, 10));
    assert!(!state.subscribe(&b"v".to_vec(), 1, 10));
    assert!(state.subscribe(&b"t".to_vec(), 2, 20));
    let topic = state.get(&b"t".to_vec()).unwrap();
    assert_eq!(topic.name(), &b"t".to_vec());
    assert_eq!(peers_of(&topic.send(message(b"", b""))), vec![(1, 10), (2, 20)]);
    assert!(state.get(&b"u".to_vec()).unwrap().send(message(b"", b"")).is_empty());
    assert!(state.unsubscribe(&b"t".to_vec(), 1));
    assert!(!state.unsubscribe(&b"v".to_vec(), 1));
    assert_eq!(peers_of(&state.get(&b"t".to_vec()).unwrap().send(message(b"", b""))), vec![(2, 20)]);
    assert!(!state.create(b"t".to_vec()));
    assert_eq!(peers_of(&state.get(&b"t".to_vec()).unwrap().send(message(b"", b""))), vec![(2, 20)]);
}
