//! The line protocol's encoder: what the broker writes to a client.
//!
//! ```text
//! OK\n
//! <failure text>\n
//! <topic> <payload size> <payload>\n
//! ```

use vstd::prelude::*;
use vstd::utf8::encode_utf8;
use crate::decoder::{decimal, is_digit};
use crate::protocol::{OutcomingMessage, OutcomingView};

verus! {

/// ASCII `O`.
pub const LETTER_O: u8 = 79;

/// ASCII `K`.
pub const LETTER_K: u8 = 75;

/// ASCII line feed, which ends every message.
pub const LINE_FEED: u8 = 10;

/// ASCII space, which parts the fields of a message.
pub const SPACE: u8 = 32;

/// ASCII `0`; the other digits follow it.
pub const DIGIT_ZERO: u8 = 48;

/// The ASCII digit that writes `value`, for a value below ten.
pub open spec fn digit(value: nat) -> u8
    recommends
        value < 10,
{
    (DIGIT_ZERO + value) as u8
}

/// `value` in decimal, without leading zeros.
pub open spec fn decimal_digits(value: nat) -> Seq<u8>
    decreases value,
{
    if value < 10 {
        seq![digit(value)]
    } else {
        decimal_digits(value / 10).push(digit(value % 10))
    }
}

/// The bytes that `message` is written as.
pub open spec fn encoded(message: OutcomingView) -> Seq<u8> {
    match message {
        OutcomingView::Okay => seq![LETTER_O, LETTER_K, LINE_FEED],
        OutcomingView::Failure(error) => encode_utf8(error.spec_description()).push(LINE_FEED),
        OutcomingView::Data { topic_name, payload } => encode_utf8(topic_name).push(SPACE)
            + decimal_digits(payload.len()).push(SPACE) + payload.push(LINE_FEED),
    }
}

/// Appends `value` in decimal to `out`.
fn write_decimal(out: &mut Vec<u8>, value: usize)
    ensures
        final(out)@ == old(out)@ + decimal_digits(value as nat),
    decreases value,
{
    if value >= 10 {
        write_decimal(out, value / 10);
    }
    let last: u8 = (value % 10) as u8;
    out.push(DIGIT_ZERO + last);
    assert(out@ =~= old(out)@ + decimal_digits(value as nat));
}

/// Encodes outgoing messages, one after another, into a byte sink.
pub struct Encoder {
    writer: Vec<u8>,
}

impl View for Encoder {
    type V = Seq<u8>;

    /// Everything written so far and not yet taken.
    closed spec fn view(&self) -> Seq<u8> {
        self.writer@
    }
}

impl Encoder {
    /// An encoder that appends to `writer`.
    pub fn new(writer: Vec<u8>) -> (encoder: Encoder)
        ensures
            encoder@ == writer@,
    {
        Encoder { writer }
    }

    /// Appends the encoding of `message`.
    pub fn write(&mut self, message: OutcomingMessage)
        ensures
            final(self)@ == old(self)@ + encoded(message@),
    {
        match message {
            OutcomingMessage::Okay => {
                self.writer.push(LETTER_O);
                self.writer.push(LETTER_K);
                self.writer.push(LINE_FEED);
                assert(self.writer@ =~= old(self).writer@ + seq![LETTER_O, LETTER_K, LINE_FEED]);
            },
            OutcomingMessage::Failure(error) => {
                let text = error.description();
                self.writer.extend_from_slice(text.as_bytes());
                self.writer.push(LINE_FEED);
                assert(self.writer@ =~= old(self).writer@ + encode_utf8(
                    error.spec_description(),
                ).push(LINE_FEED));
            },
            OutcomingMessage::Data { topic_name, payload } => {
                self.writer.extend_from_slice(topic_name.as_str().as_bytes());
                self.writer.push(SPACE);
                write_decimal(&mut self.writer, payload.len());
                self.writer.push(SPACE);
                self.writer.extend_from_slice(payload.as_slice());
                self.writer.push(LINE_FEED);
                assert(self.writer@ =~= old(self).writer@ + (encode_utf8(topic_name@).push(SPACE)
                    + decimal_digits(payload@.len()).push(SPACE) + payload@.push(LINE_FEED)));
            },
        }
    }

    /// Hands over everything written so far and starts afresh.
    pub fn take(&mut self) -> (bytes: Vec<u8>)
        ensures
            bytes@ == old(self)@,
            final(self)@ == Seq::<u8>::empty(),
    {
        let mut bytes: Vec<u8> = Vec::new();
        core::mem::swap(&mut self.writer, &mut bytes);
        bytes
    }
}

/// ASCII bytes as characters.
pub open spec fn as_chars(bytes: Seq<u8>) -> Seq<char> {
    Seq::new(bytes.len(), |i: int| bytes[i] as char)
}

/// The size that the encoder writes is read back by the command parser: it
/// is made of decimal digits, at least one, and they write the size.
pub proof fn lemma_decimal_digits_read_back(value: nat)
    ensures
        decimal_digits(value).len() > 0,
        forall|i: int|
            0 <= i < decimal_digits(value).len() ==> is_digit(
                #[trigger] as_chars(decimal_digits(value))[i],
            ),
        decimal(as_chars(decimal_digits(value))) == value,
    decreases value,
{
    let digits = as_chars(decimal_digits(value));
    if value < 10 {
        assert(digits.drop_last() =~= Seq::empty());
        assert(decimal(digits.drop_last()) == 0);
    } else {
        lemma_decimal_digits_read_back(value / 10);
        assert(digits.drop_last() =~= as_chars(decimal_digits(value / 10)));
        assert forall|i: int| 0 <= i < digits.len() implies is_digit(#[trigger] digits[i]) by {
            if i < digits.len() - 1 {
                assert(digits[i] == as_chars(decimal_digits(value / 10))[i]);
            }
        }
    }
}

} // verus!
