use rufka::bufpool::{get_buffer, Pool};
use rufka::errors::Error;
use rufka::manager::{bypass, connect, create, disconnect, publish, subscribe, Manager, Outgoing};
use rufka::protocol::OutcomingMessage;

fn kinds(sent: &[Outgoing]) -> Vec<(usize, String)> {
    sent.iter()
        .map(|outgoing| {
            let text = match &outgoing.message {
                OutcomingMessage::Okay => "ok".to_string(),
                OutcomingMessage::Failure(error) => format!("{:?}", error),
                OutcomingMessage::Data { topic_name, payload } => {
                    format!("{} {:?}", topic_name, payload.as_slice())
                }
            };
            (outgoing.client, text)
        })
        .collect()
}

fn payload(pool: &mut Pool, bytes: &[u8]) -> rufka::bufpool::Buffer {
    let mut buffer = get_buffer(pool, bytes.len());
    buffer.as_mut_slice().copy_from_slice(bytes);
    buffer
}

#[test]
fn connect_hands_out_distinct_tokens() {
    let mut manager = Manager::new();
    let one = connect(&mut manager);
    let two = connect(&mut manager);
    assert_ne!(one, two);
    assert_ne!(one.key(), two.key());
    assert!(manager.is_connected(&one));
    assert!(manager.is_connected(&two));
}

#[test]
fn manager_create_answers_ok_and_is_idempotent() {
    let mut manager = Manager::new();
    let mut pool = Pool::new();
    let token = connect(&mut manager);
    let key = token.key();
    assert_eq!(kinds(&create(&mut manager, &token, "t".to_string())), vec![(key, "ok".to_string())]);
    assert_eq!(kinds(&subscribe(&mut manager, &token, "t")), vec![(key, "ok".to_string())]);
    assert_eq!(kinds(&create(&mut manager, &token, "t".to_string())), vec![(key, "ok".to_string())]);
    let sent = publish(&manager, &token, "t", payload(&mut pool, b"hi"));
    assert_eq!(
        kinds(&sent),
        vec![(key, "t [104, 105]".to_string()), (key, "ok".to_string())]
    );
}

#[test]
fn manager_reports_unknown_topics() {
    let mut manager = Manager::new();
    let mut pool = Pool::new();
    let token = connect(&mut manager);
    let key = token.key();
    let failure = format!("{:?}", Error::UnknownTopic);
    assert_eq!(kinds(&subscribe(&mut manager, &token, "nope")), vec![(key, failure.clone())]);
    let sent = publish(&manager, &token, "nope", payload(&mut pool, b"x"));
    assert_eq!(kinds(&sent), vec![(key, failure)]);
    disconnect(&mut manager, token);
}

#[test]
fn manager_publish_reaches_every_subscriber_in_order() {
    let mut manager = Manager::new();
    let mut pool = Pool::new();
    let publisher = connect(&mut manager);
    let one = connect(&mut manager);
    let two = connect(&mut manager);
    create(&mut manager, &publisher, "news".to_string());
    create(&mut manager, &publisher, "other".to_string());
    subscribe(&mut manager, &one, "news");
    subscribe(&mut manager, &two, "news");
    subscribe(&mut manager, &two, "other");
    let sent = publish(&manager, &publisher, "news", payload(&mut pool, b"abc"));
    assert_eq!(
        kinds(&sent),
        vec![
            (one.key(), "news [97, 98, 99]".to_string()),
            (two.key(), "news [97, 98, 99]".to_string()),
            (publisher.key(), "ok".to_string()),
        ]
    );
    match (&sent[0].message, &sent[1].message) {
        (
            OutcomingMessage::Data { payload: first, .. },
            OutcomingMessage::Data { payload: second, .. },
        ) => assert!(std::sync::Arc::ptr_eq(first, second)),
        _ => panic!("two payloads expected"),
    }
}

#[test]
fn manager_bypass_addresses_the_client_itself() {
    let mut manager = Manager::new();
    let _first = connect(&mut manager);
    let token = connect(&mut manager);
    let sent = bypass(&manager, &token, OutcomingMessage::Failure(Error::InvalidCommand));
    assert_eq!(kinds(&sent), vec![(token.key(), format!("{:?}", Error::InvalidCommand))]);
}

#[test]
fn manager_disconnect_strikes_the_client_everywhere() {
    let mut manager = Manager::new();
    let mut pool = Pool::new();
    let stayer = connect(&mut manager);
    let leaver = connect(&mut manager);
    let gone = leaver.key();
    create(&mut manager, &stayer, "a".to_string());
    create(&mut manager, &stayer, "b".to_string());
    subscribe(&mut manager, &leaver, "a");
    subscribe(&mut manager, &stayer, "a");
    subscribe(&mut manager, &leaver, "a");
    subscribe(&mut manager, &leaver, "b");
    disconnect(&mut manager, leaver);
    let sent = publish(&manager, &stayer, "a", payload(&mut pool, b""));
    assert_eq!(
        kinds(&sent),
        vec![(stayer.key(), "a []".to_string()), (stayer.key(), "ok".to_string())]
    );
    let sent = publish(&manager, &stayer, "b", payload(&mut pool, b""));
    assert_eq!(kinds(&sent), vec![(stayer.key(), "ok".to_string())]);
    let next = connect(&mut manager);
    assert!(manager.is_connected(&next));
    assert_ne!(next.key(), stayer.key());
    let sent = publish(&manager, &next, "a", payload(&mut pool, b""));
    assert_eq!(sent.iter().filter(|outgoing| outgoing.client == next.key()).count(), 1);
    let _ = gone;
}
