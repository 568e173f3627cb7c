use bytes::BytesMut;
use rufka::codec::{Codec, HEADER_SIZE, MAX_FRAME};
use rufka::errors::Error;

#[test]
fn encode_writes_length_then_payload() {
    let codec = Codec::new();
    let mut buffer = BytesMut::new();
    assert_eq!(codec.encode(b"hello", &mut buffer), Ok(()));
    assert_eq!(&buffer[..], &b"\x00\x00\x00\x05hello"[..]);
    assert_eq!(codec.encode(b"", &mut buffer), Ok(()));
    assert_eq!(&buffer[..], &b"\x00\x00\x00\x05hello\x00\x00\x00\x00"[..]);
}

#[test]
fn encode_writes_every_length_byte() {
    let codec = Codec::new();
    let payload = vec![7u8; 0x01_02_03];
    let mut buffer = BytesMut::new();
    assert_eq!(codec.encode(&payload, &mut buffer), Ok(()));
    assert_eq!(&buffer[..HEADER_SIZE], &[0x00u8, 0x01, 0x02, 0x03][..]);
    assert_eq!(buffer.len(), HEADER_SIZE + 0x01_02_03);
    assert_eq!(&buffer[HEADER_SIZE..], &payload[..]);
}

#[test]
fn encode_rejects_payload_over_the_limit() {
    let codec = Codec::with_max_frame(4);
    let mut buffer = BytesMut::from(&b"kept"[..]);
    assert_eq!(codec.encode(b"12345", &mut buffer), Err(Error::FrameTooLarge));
    assert_eq!(&buffer[..], &b"kept"[..]);
    assert_eq!(codec.encode(b"1234", &mut buffer), Ok(()));
    assert_eq!(&buffer[..], &b"kept\x00\x00\x00\x041234"[..]);
}

#[test]
fn codec_limits() {
    assert_eq!(Codec::new().max_frame(), MAX_FRAME);
    assert_eq!(MAX_FRAME, i32::MAX as usize);
    assert_eq!(Codec::with_max_frame(16).max_frame(), 16);
    assert_eq!(Codec::with_max_frame(usize::MAX).max_frame(), MAX_FRAME);
}

#[test]
fn decode_round_trip() {
    let codec = Codec::new();
    let mut buffer = BytesMut::new();
    codec.encode(b"first", &mut buffer).unwrap();
    codec.encode(b"second!", &mut buffer).unwrap();
    let first = codec.decode(&mut buffer).unwrap().unwrap();
    assert_eq!(&first[..], &b"first"[..]);
    let second = codec.decode(&mut buffer).unwrap().unwrap();
    assert_eq!(&second[..], &b"second!"[..]);
    assert_eq!(codec.decode(&mut buffer), Ok(None));
    assert!(buffer.is_empty());
}

#[test]
fn decode_waits_for_the_whole_header() {
    let codec = Codec::new();
    let mut buffer = BytesMut::new();
    assert_eq!(codec.decode(&mut buffer), Ok(None));
    buffer.extend_from_slice(b"\x00\x00\x00");
    assert_eq!(codec.decode(&mut buffer), Ok(None));
    assert_eq!(&buffer[..], &b"\x00\x00\x00"[..]);
}

#[test]
fn decode_keeps_a_partial_frame_until_it_is_whole() {
    let codec = Codec::new();
    let mut frame = BytesMut::new();
    codec.encode(b"payload!", &mut frame).unwrap();
    let half = HEADER_SIZE + 4;
    let mut buffer = BytesMut::new();
    buffer.extend_from_slice(&frame[..half]);
    for _ in 0..3 {
        assert_eq!(codec.decode(&mut buffer), Ok(None));
        assert_eq!(&buffer[..], &frame[..half]);
    }
    buffer.extend_from_slice(&frame[half..]);
    let payload = codec.decode(&mut buffer).unwrap().unwrap();
    assert_eq!(&payload[..], &b"payload!"[..]);
    assert!(buffer.is_empty());
    assert_eq!(codec.decode(&mut buffer), Ok(None));
}

#[test]
fn decode_byte_by_byte_yields_one_frame() {
    let codec = Codec::new();
    let mut frame = BytesMut::new();
    codec.encode(b"abc", &mut frame).unwrap();
    let mut buffer = BytesMut::new();
    let mut frames = 0;
    for byte in frame.iter() {
        buffer.extend_from_slice(&[*byte]);
        if let Some(payload) = codec.decode(&mut buffer).unwrap() {
            assert_eq!(&payload[..], &b"abc"[..]);
            frames += 1;
        }
    }
    assert_eq!(frames, 1);
    assert!(buffer.is_empty());
}

#[test]
fn decode_empty_frame() {
    let codec = Codec::new();
    let mut buffer = BytesMut::from(&b"\x00\x00\x00\x00next"[..]);
    let payload = codec.decode(&mut buffer).unwrap().unwrap();
    assert!(payload.is_empty());
    assert_eq!(&buffer[..], &b"next"[..]);
}

#[test]
fn decode_reads_the_length_big_endian() {
    let codec = Codec::new();
    let mut buffer = BytesMut::from(&b"\x00\x00\x01\x00"[..]);
    buffer.extend_from_slice(&[9u8; 255]);
    assert_eq!(codec.decode(&mut buffer), Ok(None));
    buffer.extend_from_slice(&[9u8; 2]);
    let payload = codec.decode(&mut buffer).unwrap().unwrap();
    assert_eq!(payload.len(), 256);
    assert_eq!(&buffer[..], &[9u8][..]);
}

#[test]
fn decode_rejects_negative_length() {
    let codec = Codec::new();
    let mut buffer = BytesMut::from(&b"\xff\xff\xff\xffrest"[..]);
    assert_eq!(codec.decode(&mut buffer), Err(Error::MalformedHeader));
    assert!(buffer.is_empty());
    let mut buffer = BytesMut::from(&b"\x80\x00\x00\x00"[..]);
    assert_eq!(codec.decode(&mut buffer), Err(Error::MalformedHeader));
}

#[test]
fn decode_rejects_length_over_the_limit() {
    let codec = Codec::with_max_frame(8);
    let mut buffer = BytesMut::from(&b"\x00\x00\x00\x09123456789"[..]);
    assert_eq!(codec.decode(&mut buffer), Err(Error::FrameTooLarge));
    assert!(buffer.is_empty());
    let mut buffer = BytesMut::from(&b"\x00\x00\x00\x0812345678"[..]);
    let payload = codec.decode(&mut buffer).unwrap().unwrap();
    assert_eq!(&payload[..], &b"12345678"[..]);
    let mut buffer = BytesMut::from(&b"\x7f\xff\xff\xff"[..]);
    assert_eq!(codec.decode(&mut buffer), Err(Error::FrameTooLarge));
    assert_eq!(Codec::new().decode(&mut BytesMut::from(&b"\x7f\xff\xff\xff"[..])), Ok(None));
}

#[test]
fn frames_carry_serialized_transactions() {
    let mut config = bincode::config();
    config.limit(i32::max_value() as u64).big_endian();
    let publish = (7i32, 0u32, 4u32, b"topic".to_vec(), b"key".to_vec(), b"value".to_vec());
    let payload = config.serialize(&publish).unwrap();
    let codec = Codec::new();
    let mut buffer = BytesMut::new();
    codec.encode(&payload, &mut buffer).unwrap();
    assert_eq!(&buffer[..4], &config.serialize(&(payload.len() as i32)).unwrap()[..]);
    let received = codec.decode(&mut buffer).unwrap().unwrap();
    let decoded: (i32, u32, u32, Vec<u8>, Vec<u8>, Vec<u8>) =
        config.deserialize(&received).unwrap();
    assert_eq!(decoded, publish);
}
