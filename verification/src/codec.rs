//! The wire framing: a four-byte big-endian signed length, then that many
//! bytes of payload.
//!
//! The codec frames and unframes payloads in a `bytes::BytesMut`. Turning a
//! transaction into its payload and back is the caller's part.

use std::io::Cursor;
use bytes::Buf;
use vstd::prelude::*;
use crate::errors::Error;

verus! {

/// The size of the length field that starts a frame.
pub const HEADER_SIZE: usize = 4;

/// The largest payload a length field can announce.
pub const MAX_FRAME: usize = 0x7fff_ffff;

#[verifier::external_type_specification]
#[verifier::external_body]
pub struct ExBytesMut(bytes::BytesMut);

/// The bytes that a buffer holds, in order.
pub uninterp spec fn buffered(buffer: bytes::BytesMut) -> Seq<u8>;

/// The signed number that the first four bytes of `bytes` write, most
/// significant byte first, in two's complement.
pub open spec fn be_i32(bytes: Seq<u8>) -> int
    recommends
        bytes.len() >= 4,
{
    let unsigned = bytes[0] * 0x100_0000 + bytes[1] * 0x1_0000 + bytes[2] * 0x100 + bytes[3];
    if unsigned >= 0x8000_0000 {
        unsigned - 0x1_0000_0000
    } else {
        unsigned
    }
}

/// The four bytes that write `size`, most significant byte first.
pub open spec fn header(size: nat) -> Seq<u8>
    recommends
        size <= MAX_FRAME,
{
    seq![
        (size / 0x100_0000) as u8,
        (size / 0x1_0000 % 0x100) as u8,
        (size / 0x100 % 0x100) as u8,
        (size % 0x100) as u8,
    ]
}

/// The frame that carries `payload`.
pub open spec fn frame(payload: Seq<u8>) -> Seq<u8>
    recommends
        payload.len() <= MAX_FRAME,
{
    header(payload.len()) + payload
}

/// What the start of a byte stream holds.
pub enum Decoded {
    /// Not yet a whole frame: more bytes are needed.
    Incomplete,
    /// A whole frame with this payload, followed by `rest`.
    Frame { payload: Seq<u8>, rest: Seq<u8> },
    /// A length field that announces a negative length.
    Malformed,
    /// A length field that announces more than the codec admits.
    TooLarge,
}

/// What `bytes` decodes to under a limit of `max_frame` payload bytes.
///
/// The length field is judged as soon as its four bytes are there; a frame
/// is handed out only when all of its payload is.
pub open spec fn decoded(bytes: Seq<u8>, max_frame: nat) -> Decoded {
    if bytes.len() < HEADER_SIZE {
        Decoded::Incomplete
    } else if be_i32(bytes) < 0 {
        Decoded::Malformed
    } else if be_i32(bytes) > max_frame {
        Decoded::TooLarge
    } else if bytes.len() - HEADER_SIZE < be_i32(bytes) {
        Decoded::Incomplete
    } else {
        Decoded::Frame {
            payload: bytes.subrange(HEADER_SIZE as int, HEADER_SIZE + be_i32(bytes)),
            rest: bytes.skip(HEADER_SIZE + be_i32(bytes)),
        }
    }
}

/// `bytes::BytesMut::len`: the number of bytes held.
#[verifier::external_body]
fn buffer_len(buffer: &bytes::BytesMut) -> (len: usize)
    ensures
        len == buffered(*buffer).len(),
{
    buffer.len()
}

/// `bytes::BytesMut::reserve`: makes room for `additional` more bytes and
/// leaves the contents alone. It panics when the capacity would overflow
/// `usize`, which the precondition rules out.
#[verifier::external_body]
fn buffer_reserve(buffer: &mut bytes::BytesMut, additional: usize)
    requires
        buffered(*old(buffer)).len() + additional <= usize::MAX,
    ensures
        buffered(*final(buffer)) == buffered(*old(buffer)),
{
    buffer.reserve(additional)
}

/// `bytes::BytesMut::extend_from_slice`: appends `bytes`, growing the
/// buffer as needed. It panics when the capacity would overflow `usize`,
/// which the precondition rules out.
#[verifier::external_body]
fn buffer_extend(buffer: &mut bytes::BytesMut, bytes: &[u8])
    requires
        buffered(*old(buffer)).len() + bytes@.len() <= usize::MAX,
    ensures
        buffered(*final(buffer)) == buffered(*old(buffer)) + bytes@,
{
    buffer.extend_from_slice(bytes)
}

/// `bytes::BytesMut::split_to`: takes the first `at` bytes out into a
/// buffer of their own and keeps the rest. It panics when `at` is beyond
/// the length, which the precondition rules out.
#[verifier::external_body]
fn buffer_split_to(buffer: &mut bytes::BytesMut, at: usize) -> (head: bytes::BytesMut)
    requires
        at <= buffered(*old(buffer)).len(),
    ensures
        buffered(head) == buffered(*old(buffer)).take(at as int),
        buffered(*final(buffer)) == buffered(*old(buffer)).skip(at as int),
{
    buffer.split_to(at)
}

/// `bytes::BytesMut::clear`: drops every byte held.
#[verifier::external_body]
fn buffer_clear(buffer: &mut bytes::BytesMut)
    ensures
        buffered(*final(buffer)) =~= Seq::empty(),
{
    buffer.clear()
}

/// `bytes::Buf::get_i32_be` on a cursor at the start of the buffer: the
/// first four bytes read as a big-endian signed number. The buffer itself
/// is not advanced. It panics on fewer than four bytes, which the
/// precondition rules out.
#[verifier::external_body]
fn buffer_peek_i32_be(buffer: &bytes::BytesMut) -> (value: i32)
    requires
        buffered(*buffer).len() >= 4,
    ensures
        value == be_i32(buffered(*buffer)),
{
    Cursor::new(buffer).get_i32_be()
}

/// The four bytes of the length field for a payload of `size` bytes.
fn header_bytes(size: usize) -> (bytes: [u8; 4])
    requires
        size <= MAX_FRAME,
    ensures
        bytes@ == header(size as nat),
{
    let bytes: [u8; 4] = [
        (size / 0x100_0000) as u8,
        (size / 0x1_0000 % 0x100) as u8,
        (size / 0x100 % 0x100) as u8,
        (size % 0x100) as u8,
    ];
    assert(bytes@ =~= header(size as nat));
    bytes
}

/// Frames payloads into, and out of, a byte buffer.
#[derive(Debug, Clone, Copy, PartialEq, Eq)]
pub struct Codec {
    max_frame: usize,
}

impl Codec {
    /// The largest payload this codec frames or hands out.
    pub closed spec fn spec_max_frame(&self) -> nat {
        self.max_frame as nat
    }

    #[verifier::type_invariant]
    spec fn bounded(&self) -> bool {
        self.max_frame <= MAX_FRAME
    }

    /// A codec that admits every payload a length field can announce.
    pub fn new() -> (codec: Codec)
        ensures
            codec.spec_max_frame() == MAX_FRAME,
    {
        Codec { max_frame: MAX_FRAME }
    }

    /// A codec that admits payloads of up to `max_frame` bytes, capped at
    /// what a length field can announce.
    pub fn with_max_frame(max_frame: usize) -> (codec: Codec)
        ensures
            codec.spec_max_frame() == if max_frame <= MAX_FRAME {
                max_frame
            } else {
                MAX_FRAME
            },
    {
        if max_frame <= MAX_FRAME {
            Codec { max_frame }
        } else {
            Codec { max_frame: MAX_FRAME }
        }
    }

    /// The largest payload this codec frames or hands out.
    pub fn max_frame(&self) -> (max_frame: usize)
        ensures
            max_frame == self.spec_max_frame(),
            max_frame <= MAX_FRAME,
    {
        proof {
            use_type_invariant(self);
        }
        self.max_frame
    }

    /// Appends the frame that carries `payload` to `buffer`.
    ///
    /// Fails with `FrameTooLarge`, and leaves the buffer alone, when the
    /// payload is over the codec's limit or the buffer would outgrow the
    /// address space.
    pub fn encode(&self, payload: &[u8], buffer: &mut bytes::BytesMut) -> (result: Result<
        (),
        Error,
    >)
        ensures
            match result {
                Ok(_) => payload@.len() <= self.spec_max_frame() && buffered(*final(buffer))
                    == buffered(*old(buffer)) + frame(payload@),
                Err(error) => error == Error::FrameTooLarge && buffered(*final(buffer))
                    == buffered(*old(buffer)),
            },
            result is Ok <==> payload@.len() <= self.spec_max_frame() && buffered(
                *old(buffer),
            ).len() + HEADER_SIZE + payload@.len() <= usize::MAX,
    {
        proof {
            use_type_invariant(self);
        }
        let size = payload.len();
        if size > self.max_frame {
            return Err(Error::FrameTooLarge);
        }
        if size > usize::MAX - HEADER_SIZE || buffer_len(buffer) > usize::MAX - HEADER_SIZE - size {
            return Err(Error::FrameTooLarge);
        }
        buffer_reserve(buffer, size + HEADER_SIZE);
        let length = header_bytes(size);
        buffer_extend(buffer, length.as_slice());
        buffer_extend(buffer, payload);
        assert(buffered(*buffer) =~= buffered(*old(buffer)) + frame(payload@));
        Ok(())
    }

    /// Takes the frame at the start of `buffer` out, if it is all there.
    ///
    /// While the frame is incomplete the buffer is left as it is and `None`
    /// is returned. A whole frame leaves the buffer, and its payload is
    /// returned. A length field that is negative, or over the codec's
    /// limit, fails with `MalformedHeader` or `FrameTooLarge`; the stream has
    /// then lost its framing, and everything buffered is dropped.
    pub fn decode(&self, buffer: &mut bytes::BytesMut) -> (result: Result<
        Option<bytes::BytesMut>,
        Error,
    >)
        ensures
            match decoded(buffered(*old(buffer)), self.spec_max_frame()) {
                Decoded::Incomplete => result == Ok::<Option<bytes::BytesMut>, Error>(None)
                    && buffered(*final(buffer)) == buffered(*old(buffer)),
                Decoded::Frame { payload, rest } => result matches Ok(Some(found)) && buffered(
                    found,
                ) == payload && buffered(*final(buffer)) == rest,
                Decoded::Malformed => result == Err::<Option<bytes::BytesMut>, Error>(
                    Error::MalformedHeader,
                ) && buffered(*final(buffer)) == Seq::<u8>::empty(),
                Decoded::TooLarge => result == Err::<Option<bytes::BytesMut>, Error>(
                    Error::FrameTooLarge,
                ) && buffered(*final(buffer)) == Seq::<u8>::empty(),
            },
    {
        proof {
            use_type_invariant(self);
        }
        let available = buffer_len(buffer);
        if available < HEADER_SIZE {
            return Ok(None);
        }
        let announced = buffer_peek_i32_be(buffer);
        if announced < 0 {
            buffer_clear(buffer);
            return Err(Error::MalformedHeader);
        }
        let size = announced as usize;
        if size > self.max_frame {
            buffer_clear(buffer);
            return Err(Error::FrameTooLarge);
        }
        if available - HEADER_SIZE < size {
            return Ok(None);
        }
        let ghost before = buffered(*buffer);
        let _ = buffer_split_to(buffer, HEADER_SIZE);
        let payload = buffer_split_to(buffer, size);
        assert(buffered(payload) =~= before.subrange(HEADER_SIZE as int, HEADER_SIZE + size));
        assert(buffered(*buffer) =~= before.skip(HEADER_SIZE + size));
        Ok(Some(payload))
    }
}

/// The length field reads back as the size it was written for.
pub proof fn lemma_header_reads_back(size: nat, rest: Seq<u8>)
    requires
        size <= MAX_FRAME,
    ensures
        header(size).len() == HEADER_SIZE,
        be_i32(header(size) + rest) == size,
{
    let bytes = header(size) + rest;
    assert(bytes[0] == header(size)[0]);
    assert(bytes[1] == header(size)[1]);
    assert(bytes[2] == header(size)[2]);
    assert(bytes[3] == header(size)[3]);
}

/// Round trip: what `encode` appends for a payload within the limit
/// decodes to that payload, and what followed the frame is left over.
pub proof fn lemma_frame_round_trip(payload: Seq<u8>, rest: Seq<u8>, max_frame: nat)
    requires
        payload.len() <= max_frame <= MAX_FRAME,
    ensures
        decoded(frame(payload) + rest, max_frame) == (Decoded::Frame { payload, rest }),
{
    let bytes = frame(payload) + rest;
    lemma_header_reads_back(payload.len(), payload + rest);
    assert(bytes =~= header(payload.len()) + (payload + rest));
    assert(bytes.subrange(HEADER_SIZE as int, HEADER_SIZE + payload.len()) =~= payload);
    assert(bytes.skip(HEADER_SIZE + payload.len()) =~= rest);
}

/// Partial frames: any proper prefix of a frame is incomplete, however many
/// of its bytes have arrived, so the decoder keeps waiting and loses
/// nothing.
pub proof fn lemma_partial_frame_is_incomplete(payload: Seq<u8>, arrived: int, max_frame: nat)
    requires
        payload.len() <= max_frame <= MAX_FRAME,
        0 <= arrived < frame(payload).len(),
    ensures
        decoded(frame(payload).take(arrived), max_frame) == Decoded::Incomplete,
{
    if arrived >= HEADER_SIZE {
        let part = frame(payload).take(arrived);
        lemma_header_reads_back(payload.len(), part.skip(HEADER_SIZE as int));
        assert(part =~= header(payload.len()) + part.skip(HEADER_SIZE as int));
    }
}

} // verus!
