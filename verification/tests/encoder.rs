use rufka::bufpool::{get_buffer, Pool};
use rufka::encoder::Encoder;
use rufka::errors::Error;
use rufka::protocol::OutcomingMessage;
use std::sync::Arc;

fn data(topic: &str, bytes: &[u8]) -> OutcomingMessage {
    let mut pool = Pool::new();
    let mut buffer = get_buffer(&mut pool, bytes.len());
    buffer.as_mut_slice().copy_from_slice(bytes);
    OutcomingMessage::Data { topic_name: topic.to_string(), payload: Arc::new(buffer) }
}

#[test]
fn encoder_writes_ok() {
    let mut encoder = Encoder::new(Vec::new());
    encoder.write(OutcomingMessage::Okay);
    assert_eq!(encoder.take(), b"OK\n".to_vec());
    assert!(encoder.take().is_empty());
}

#[test]
fn encoder_writes_failures_as_their_text() {
    let mut encoder = Encoder::new(Vec::new());
    encoder.write(OutcomingMessage::Failure(Error::UnknownTopic));
    encoder.write(OutcomingMessage::Failure(Error::InvalidCommand));
    assert_eq!(encoder.take(), b"Unknown topic\nInvalid command\n".to_vec());
    assert_eq!(Error::MalformedHeader.description(), "Malformed frame header");
    assert_eq!(Error::FrameTooLarge.description(), "Frame too large");
}

#[test]
fn encoder_writes_data_with_its_size() {
    let mut encoder = Encoder::new(b">".to_vec());
    encoder.write(data("news", b"hello"));
    assert_eq!(encoder.take(), b">news 5 hello\n".to_vec());
    encoder.write(data("t", b""));
    assert_eq!(encoder.take(), b"t 0 \n".to_vec());
    encoder.write(data("тема", &[0u8; 1234]));
    let mut expected = "тема 1234 ".as_bytes().to_vec();
    expected.extend_from_slice(&[0u8; 1234]);
    expected.push(b'\n');
    assert_eq!(encoder.take(), expected);
}

#[test]
fn encoder_appends_in_order() {
    let mut encoder = Encoder::new(Vec::new());
    encoder.write(OutcomingMessage::Okay);
    encoder.write(data("a", b"\n"));
    encoder.write(OutcomingMessage::Okay);
    assert_eq!(encoder.take(), b"OK\na 1 \n\nOK\n".to_vec());
}
