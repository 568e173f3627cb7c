use rufka::client::{acknowledged, create, looked_up, publish, status, subscribe, Report, CORRELATION};
use rufka::protocol::{Exchange, Message, Request, Response, Transaction};

#[test]
fn client_requests_carry_the_correlation() {
    assert_eq!(CORRELATION, 42);
    assert_eq!(
        status(),
        Transaction { correlation: 42, exchange: Exchange::Request(Request::Ping) }
    );
    assert_eq!(
        create("news".to_string()),
        Transaction {
            correlation: 42,
            exchange: Exchange::Request(Request::Create { topic: b"news".to_vec() }),
        }
    );
    assert_eq!(
        subscribe("тема".to_string()),
        Transaction {
            correlation: 42,
            exchange: Exchange::Request(Request::Subscribe { topic: "тема".as_bytes().to_vec() }),
        }
    );
    assert_eq!(
        publish("news".to_string(), "k".to_string(), vec![1, 2, 3]),
        Transaction {
            correlation: 42,
            exchange: Exchange::Request(Request::Publish {
                topic: b"news".to_vec(),
                key: b"k".to_vec(),
                value: vec![1, 2, 3],
            }),
        }
    );
}

#[test]
fn client_judges_replies() {
    let ok = Exchange::Response(Response::Okay);
    let unknown = Exchange::Response(Response::UnknownTopic);
    let invalid = Exchange::Response(Response::InvalidCommand);
    let message = Exchange::Message(Message { offset: 0, key: vec![], value: vec![] });
    let request = Exchange::Request(Request::Ping);
    assert_eq!(acknowledged(&ok), Report::Done);
    assert_eq!(acknowledged(&unknown), Report::Invalid);
    assert_eq!(acknowledged(&invalid), Report::Invalid);
    assert_eq!(acknowledged(&message), Report::Invalid);
    assert_eq!(acknowledged(&request), Report::Invalid);
    assert_eq!(looked_up(&ok), Report::Done);
    assert_eq!(looked_up(&unknown), Report::UnknownTopic);
    assert_eq!(looked_up(&invalid), Report::Invalid);
    assert_eq!(looked_up(&message), Report::Invalid);
    assert_eq!(Report::Done.exit_code(), 0);
    assert_eq!(Report::UnknownTopic.exit_code(), 0);
    assert_eq!(Report::Invalid.exit_code(), 1);
}
