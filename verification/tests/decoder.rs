use rufka::bufpool::{put_buffer, get_buffer, Pool};
use rufka::decoder::{command, parse_message, Command};
use rufka::errors::Error;
use rufka::protocol::IncomingMessage;

#[test]
fn it_parse_pub_command() {
    assert_eq!(command("PUB topic-name 42\r\n"), Ok(("", Command::Pub("topic-name", 42))));
}

#[test]
fn it_parse_sub_command() {
    assert_eq!(command("SUB topic-name\r\n"), Ok(("", Command::Sub("topic-name"))));
}

#[test]
fn it_parse_create_command() {
    assert_eq!(command("CREATE topic-name\r\n"), Ok(("", Command::Create("topic-name"))));
}

#[test]
fn command_hands_back_what_follows_the_line() {
    assert_eq!(command("SUB a\r\nSUB b\r\n"), Ok(("SUB b\r\n", Command::Sub("a"))));
    assert_eq!(command("PUB t 3\r\nabc"), Ok(("abc", Command::Pub("t", 3))));
}

#[test]
fn command_takes_topics_beyond_ascii() {
    assert_eq!(command("CREATE тема\r\nрест"), Ok(("рест", Command::Create("тема"))));
    assert_eq!(command("PUB naïve 7\r\n"), Ok(("", Command::Pub("naïve", 7))));
}

#[test]
fn command_rejects_unknown_words() {
    assert_eq!(command("DROP topic\r\n"), Err(Error::InvalidCommand));
    assert_eq!(command("create topic\r\n"), Err(Error::InvalidCommand));
    assert_eq!(command("CREATED topic\r\n"), Err(Error::InvalidCommand));
    assert_eq!(command(" topic\r\n"), Err(Error::InvalidCommand));
    assert_eq!(command(""), Err(Error::InvalidCommand));
    assert_eq!(command("PUB"), Err(Error::InvalidCommand));
}

#[test]
fn command_rejects_lines_without_their_end() {
    assert_eq!(command("CREATE topic"), Err(Error::InvalidCommand));
    assert_eq!(command("CREATE topic\r"), Err(Error::InvalidCommand));
    assert_eq!(command("CREATE topic\n"), Err(Error::InvalidCommand));
    assert_eq!(command("SUB topic \r\n"), Err(Error::InvalidCommand));
    assert_eq!(command("PUB topic 42"), Err(Error::InvalidCommand));
    assert_eq!(command("PUB topic 42\r"), Err(Error::InvalidCommand));
}

#[test]
fn command_rejects_empty_fields() {
    assert_eq!(command("CREATE \r\n"), Err(Error::InvalidCommand));
    assert_eq!(command("SUB \r\n"), Err(Error::InvalidCommand));
    assert_eq!(command("PUB  42\r\n"), Err(Error::InvalidCommand));
    assert_eq!(command("PUB topic \r\n"), Err(Error::InvalidCommand));
    assert_eq!(command("PUB topic\r\n"), Err(Error::InvalidCommand));
}

#[test]
fn publish_size_is_decimal_and_fits_32_bits() {
    assert_eq!(command("PUB t 0\r\n"), Ok(("", Command::Pub("t", 0))));
    assert_eq!(command("PUB t 007\r\n"), Ok(("", Command::Pub("t", 7))));
    assert_eq!(command("PUB t 4294967295\r\n"), Ok(("", Command::Pub("t", 4294967295))));
    assert_eq!(command("PUB t 4294967296\r\n"), Err(Error::InvalidCommand));
    assert_eq!(command("PUB t 99999999999999999999\r\n"), Err(Error::InvalidCommand));
    assert_eq!(command("PUB t -1\r\n"), Err(Error::InvalidCommand));
    assert_eq!(command("PUB t +1\r\n"), Err(Error::InvalidCommand));
    assert_eq!(command("PUB t 1x\r\n"), Err(Error::InvalidCommand));
}

#[test]
fn publish_topic_ends_at_the_first_space_only() {
    assert_eq!(command("PUB a\rb 1\r\n"), Ok(("", Command::Pub("a\rb", 1))));
    assert_eq!(command("CREATE a\rb\r\n"), Err(Error::InvalidCommand));
}

#[test]
fn parse_message_maps_commands() {
    let mut pool = Pool::new();
    match parse_message(&mut pool, "CREATE news\r\n") {
        IncomingMessage::Create { topic_name } => assert_eq!(topic_name, "news"),
        other => panic!("unexpected {:?}", other),
    }
    match parse_message(&mut pool, "SUB news\r\n") {
        IncomingMessage::Subscribe { topic_name } => assert_eq!(topic_name, "news"),
        other => panic!("unexpected {:?}", other),
    }
    assert!(matches!(parse_message(&mut pool, "NOPE news\r\n"), IncomingMessage::Invalid));
    assert!(matches!(parse_message(&mut pool, "SUB news"), IncomingMessage::Invalid));
}

#[test]
fn parse_message_takes_the_payload_buffer_from_the_pool() {
    let mut pool = Pool::new();
    match parse_message(&mut pool, "PUB news 5\r\n") {
        IncomingMessage::Publish { topic_name, payload } => {
            assert_eq!(topic_name, "news");
            assert_eq!(payload.as_slice(), &[0u8, 0, 0, 0, 0][..]);
        }
        other => panic!("unexpected {:?}", other),
    }
    let mut used = get_buffer(&mut pool, 3);
    used.as_mut_slice().copy_from_slice(b"xyz");
    put_buffer(&mut pool, used);
    assert_eq!(pool.len(), 1);
    match parse_message(&mut pool, "PUB news 5\r\n") {
        IncomingMessage::Publish { payload, .. } => {
            assert_eq!(payload.as_slice(), &b"xyz\0\0"[..]);
        }
        other => panic!("unexpected {:?}", other),
    }
    assert_eq!(pool.len(), 0);
    assert!(matches!(parse_message(&mut pool, "SUB news\r\n"), IncomingMessage::Subscribe { .. }));
    assert_eq!(pool.len(), 0);
}
