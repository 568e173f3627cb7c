//! The line protocol's commands and their parser.
//!
//! A command is one line: an upper-case word, a space, the arguments, and a
//! carriage return and line feed. What follows the line feed is handed back
//! unread.
//!
//! ```text
//! CREATE <topic>\r\n
//! SUB <topic>\r\n
//! PUB <topic> <payload size>\r\n
//! ```

use vstd::prelude::*;
use crate::bufpool::{get_buffer, resized, Pool};
use crate::errors::Error;
use crate::protocol::{IncomingMessage, IncomingView};
use crate::sequences::{first_match, lemma_first_match_is_first, lemma_first_match_unique};

verus! {

/// A parsed command line. The topic names borrow from the line.
#[derive(Debug, Clone, Copy, PartialEq, Eq)]
pub enum Command<'a> {
    Create(&'a str),
    Sub(&'a str),
    /// The topic and the size in bytes of the payload that follows the line.
    Pub(&'a str, u32),
}

/// The mathematical content of a [`Command`].
pub enum CommandView {
    Create(Seq<char>),
    Sub(Seq<char>),
    Pub(Seq<char>, u32),
}

impl<'a> View for Command<'a> {
    type V = CommandView;

    open spec fn view(&self) -> CommandView {
        match *self {
            Command::Create(topic) => CommandView::Create(topic@),
            Command::Sub(topic) => CommandView::Sub(topic@),
            Command::Pub(topic, size) => CommandView::Pub(topic@, size),
        }
    }
}

/// The kinds of character at which a field of a command line ends.
#[derive(Clone, Copy)]
enum Stop {
    /// Anything but an upper-case letter `A` to `Z`.
    NotUpper,
    /// A space or a carriage return.
    BlankOrReturn,
    /// A space.
    Blank,
    /// Anything but a digit `0` to `9`.
    NotDigit,
}

pub open spec fn is_upper(c: char) -> bool {
    'A' <= c <= 'Z'
}

pub open spec fn is_digit(c: char) -> bool {
    '0' <= c <= '9'
}

/// The test that accepts what is no upper-case letter.
pub open spec fn not_upper() -> spec_fn(char) -> bool {
    |c: char| !is_upper(c)
}

/// The test that accepts a space and a carriage return.
pub open spec fn blank_or_return() -> spec_fn(char) -> bool {
    |c: char| c == ' ' || c == '\r'
}

/// The test that accepts a space.
pub open spec fn blank() -> spec_fn(char) -> bool {
    |c: char| c == ' '
}

/// The test that accepts what is no digit.
pub open spec fn not_digit() -> spec_fn(char) -> bool {
    |c: char| !is_digit(c)
}

impl Stop {
    spec fn test(self) -> spec_fn(char) -> bool {
        match self {
            Stop::NotUpper => not_upper(),
            Stop::BlankOrReturn => blank_or_return(),
            Stop::Blank => blank(),
            Stop::NotDigit => not_digit(),
        }
    }

    fn accepts(self, c: char) -> (stop: bool)
        ensures
            stop == (self.test())(c),
    {
        match self {
            Stop::NotUpper => !('A' <= c && c <= 'Z'),
            Stop::BlankOrReturn => c == ' ' || c == '\r',
            Stop::Blank => c == ' ',
            Stop::NotDigit => !('0' <= c && c <= '9'),
        }
    }
}

/// The number that the decimal digits `digits` write.
pub open spec fn decimal(digits: Seq<char>) -> nat
    decreases digits.len(),
{
    if digits.len() == 0 {
        0
    } else {
        decimal(digits.drop_last()) * 10 + (digits.last() as u32 - '0' as u32) as nat
    }
}

/// The word `CREATE`.
pub open spec fn create_word() -> Seq<char> {
    seq!['C', 'R', 'E', 'A', 'T', 'E']
}

/// The word `SUB`.
pub open spec fn sub_word() -> Seq<char> {
    seq!['S', 'U', 'B']
}

/// The word `PUB`.
pub open spec fn pub_word() -> Seq<char> {
    seq!['P', 'U', 'B']
}

/// The arguments of `CREATE` and `SUB`: a topic, which is everything up to
/// the first space or carriage return and must not be empty, then the line
/// end. Gives the rest after the line end and the topic.
pub open spec fn parsed_topic(args: Seq<char>) -> Option<(Seq<char>, Seq<char>)> {
    let end = first_match(args, blank_or_return());
    if 0 < end && end + 1 < args.len() && args[end] == '\r' && args[end + 1] == '\n' {
        Some((args.skip(end + 2), args.take(end)))
    } else {
        None
    }
}

/// The arguments of `PUB`: a topic, which is everything up to the first
/// space and must not be empty, the space, a size in decimal digits, at
/// least one, that fits 32 bits, then the line end. Gives the rest after the
/// line end, the topic and the size.
pub open spec fn parsed_publish(args: Seq<char>) -> Option<(Seq<char>, Seq<char>, u32)> {
    let end = first_match(args, blank());
    let from = end + 1;
    let to = from + first_match(args.skip(from), not_digit());
    if 0 < end && end < args.len() && from < to && to + 1 < args.len() && args[to] == '\r'
        && args[to + 1] == '\n' && decimal(args.subrange(from, to)) <= u32::MAX {
        Some((args.skip(to + 2), args.take(end), decimal(args.subrange(from, to)) as u32))
    } else {
        None
    }
}

/// What a line parses to: the rest after the command's line end and the
/// command, or nothing when the line does not start with a command.
///
/// The command word is the run of upper-case letters at the start of the
/// line; it must be one of the three words and be followed by a space.
pub open spec fn parsed(line: Seq<char>) -> Option<(Seq<char>, CommandView)> {
    let word_end = first_match(line, not_upper());
    let word = line.take(word_end);
    let args = line.skip(word_end + 1);
    if word_end >= line.len() || line[word_end] != ' ' {
        None
    } else if word == create_word() {
        match parsed_topic(args) {
            Some((rest, topic)) => Some((rest, CommandView::Create(topic))),
            None => None,
        }
    } else if word == sub_word() {
        match parsed_topic(args) {
            Some((rest, topic)) => Some((rest, CommandView::Sub(topic))),
            None => None,
        }
    } else if word == pub_word() {
        match parsed_publish(args) {
            Some((rest, topic, size)) => Some((rest, CommandView::Pub(topic, size))),
            None => None,
        }
    } else {
        None
    }
}

/// The characters of `line`, in order.
fn characters(line: &str) -> (chars: Vec<char>)
    ensures
        chars@ == line@,
{
    let mut chars: Vec<char> = Vec::new();
    for c in it: line.chars()
        invariant
            it.seq() == line@,
            chars@ == line@.take(it.index() as int),
    {
        chars.push(c);
        assert(chars@ =~= line@.take(it.index() + 1));
    }
    assert(chars@ =~= line@);
    chars
}

/// The index of the first character at or after `from` that `stop` accepts,
/// or the length when there is none.
fn scan(chars: &Vec<char>, from: usize, stop: Stop) -> (end: usize)
    requires
        from <= chars@.len(),
    ensures
        from <= end <= chars@.len(),
        end == from + first_match(chars@.skip(from as int), stop.test()),
{
    let mut end: usize = from;
    while end < chars.len() && !stop.accepts(chars[end])
        invariant
            from <= end <= chars@.len(),
            forall|j: int| from <= j < end ==> !(stop.test())(#[trigger] chars@[j]),
        decreases chars@.len() - end,
    {
        end += 1;
    }
    proof {
        let tail = chars@.skip(from as int);
        assert forall|j: int| 0 <= j < end - from implies !(stop.test())(#[trigger] tail[j]) by {
            assert(tail[j] == chars@[from + j]);
        }
        lemma_first_match_unique(tail, stop.test(), end - from);
    }
    end
}

/// Whether the characters of `chars` before `end` spell `word`.
fn spells(chars: &Vec<char>, end: usize, word: &str) -> (same: bool)
    requires
        end <= chars@.len(),
    ensures
        same == (chars@.take(end as int) == word@),
{
    let letters = characters(word);
    if letters.len() != end {
        return false;
    }
    let mut i: usize = 0;
    while i < end
        invariant
            i <= end <= chars@.len(),
            letters@.len() == end,
            letters@ == word@,
            forall|j: int| 0 <= j < i ==> chars@[j] == letters@[j],
        decreases end - i,
    {
        if chars[i] != letters[i] {
            assert(chars@.take(end as int)[i as int] != letters@[i as int]);
            return false;
        }
        i += 1;
    }
    assert(chars@.take(end as int) =~= letters@);
    true
}

/// Adding a digit to the right multiplies by ten and adds the digit.
proof fn lemma_decimal_grows(digits: Seq<char>, n: int)
    requires
        0 <= n < digits.len(),
    ensures
        decimal(digits.take(n + 1)) == decimal(digits.take(n)) * 10 + (digits[n] as u32
            - '0' as u32) as nat,
        decimal(digits.take(n + 1)) <= decimal(digits),
    decreases digits.len() - n,
{
    assert(digits.take(n + 1).drop_last() =~= digits.take(n));
    if n + 1 < digits.len() {
        lemma_decimal_grows(digits, n + 1);
    } else {
        assert(digits.take(n + 1) =~= digits);
    }
}

/// The number written by the digits of `chars` from `from` up to `to`, if it
/// fits 32 bits.
fn number(chars: &Vec<char>, from: usize, to: usize) -> (value: Option<u32>)
    requires
        from <= to <= chars@.len(),
        forall|j: int| from <= j < to ==> is_digit(#[trigger] chars@[j]),
    ensures
        match value {
            Some(n) => n == decimal(chars@.subrange(from as int, to as int)),
            None => decimal(chars@.subrange(from as int, to as int)) > u32::MAX,
        },
{
    let ghost digits = chars@.subrange(from as int, to as int);
    let mut value: u32 = 0;
    let mut i: usize = from;
    assert(digits.take(0) =~= Seq::empty());
    while i < to
        invariant
            from <= i <= to <= chars@.len(),
            digits == chars@.subrange(from as int, to as int),
            forall|j: int| from <= j < to ==> is_digit(#[trigger] chars@[j]),
            value == decimal(digits.take(i - from)),
        decreases to - i,
    {
        let c = chars[i];
        assert(is_digit(chars@[i as int]));
        assert(digits[i - from] == c);
        let digit: u32 = c as u32 - '0' as u32;
        proof {
            lemma_decimal_grows(digits, i - from);
        }
        if value > (u32::MAX - digit) / 10 {
            assert(value * 10 + digit > u32::MAX);
            return None;
        }
        value = value * 10 + digit;
        i += 1;
    }
    assert(digits.take(to - from) =~= digits);
    Some(value)
}

/// Reads the arguments of `CREATE` and `SUB`, which start at `from`.
fn topic_argument<'a>(line: &'a str, chars: &Vec<char>, from: usize) -> (result: Option<
    (&'a str, &'a str),
>)
    requires
        chars@ == line@,
        from <= chars@.len(),
    ensures
        match result {
            Some((rest, topic)) => parsed_topic(line@.skip(from as int)) == Some((rest@, topic@)),
            None => parsed_topic(line@.skip(from as int)) is None,
        },
{
    let len = chars.len();
    let topic_end = scan(chars, from, Stop::BlankOrReturn);
    if topic_end == from || topic_end >= len - 1 || chars[topic_end] != '\r' || chars[topic_end
        + 1] != '\n' {
        return None;
    }
    let topic = line.substring_char(from, topic_end);
    let rest = line.substring_char(topic_end + 2, len);
    assert(topic@ =~= line@.skip(from as int).take(topic_end - from));
    assert(rest@ =~= line@.skip(from as int).skip(topic_end + 2 - from));
    Some((rest, topic))
}

/// Reads the arguments of `PUB`, which start at `from`.
fn publish_arguments<'a>(line: &'a str, chars: &Vec<char>, from: usize) -> (result: Option<
    (&'a str, &'a str, u32),
>)
    requires
        chars@ == line@,
        from <= chars@.len(),
    ensures
        match result {
            Some((rest, topic, size)) => parsed_publish(line@.skip(from as int)) == Some(
                (rest@, topic@, size),
            ),
            None => parsed_publish(line@.skip(from as int)) is None,
        },
{
    let len = chars.len();
    let ghost args = line@.skip(from as int);
    let topic_end = scan(chars, from, Stop::Blank);
    if topic_end == from || topic_end >= len {
        return None;
    }
    let digits_from = topic_end + 1;
    let digits_end = scan(chars, digits_from, Stop::NotDigit);
    assert(args.skip(topic_end + 1 - from) =~= chars@.skip(digits_from as int));
    if digits_end == digits_from || digits_end >= len - 1 || chars[digits_end] != '\r'
        || chars[digits_end + 1] != '\n' {
        return None;
    }
    assert(args.subrange(digits_from - from, digits_end - from) =~= chars@.subrange(
        digits_from as int,
        digits_end as int,
    ));
    assert forall|j: int| digits_from <= j < digits_end implies is_digit(#[trigger] chars@[j]) by {
        lemma_first_match_is_first(chars@.skip(digits_from as int), not_digit());
        assert(chars@[j] == chars@.skip(digits_from as int)[j - digits_from]);
    }
    match number(chars, digits_from, digits_end) {
        Some(size) => {
            let topic = line.substring_char(from, topic_end);
            let rest = line.substring_char(digits_end + 2, len);
            assert(topic@ =~= args.take(topic_end - from));
            assert(rest@ =~= args.skip(digits_end + 2 - from));
            Some((rest, topic, size))
        },
        None => None,
    }
}

/// Parses the command at the start of `line`.
///
/// Returns the rest of `line` after the command's line end, and the command;
/// or `InvalidCommand` when `line` does not start with a complete command.
pub fn command<'a>(line: &'a str) -> (result: Result<(&'a str, Command<'a>), Error>)
    ensures
        match result {
            Ok((rest, found)) => parsed(line@) == Some((rest@, found@)),
            Err(error) => parsed(line@) is None && error == Error::InvalidCommand,
        },
{
    let chars = characters(line);
    let word_end = scan(&chars, 0, Stop::NotUpper);
    assert(chars@.skip(0) =~= chars@);
    if word_end >= chars.len() || chars[word_end] != ' ' {
        return Err(Error::InvalidCommand);
    }
    proof {
        reveal_strlit("CREATE");
        reveal_strlit("SUB");
        reveal_strlit("PUB");
        assert("CREATE"@ =~= create_word());
        assert("SUB"@ =~= sub_word());
        assert("PUB"@ =~= pub_word());
    }
    if spells(&chars, word_end, "CREATE") {
        match topic_argument(line, &chars, word_end + 1) {
            Some((rest, topic)) => Ok((rest, Command::Create(topic))),
            None => Err(Error::InvalidCommand),
        }
    } else if spells(&chars, word_end, "SUB") {
        match topic_argument(line, &chars, word_end + 1) {
            Some((rest, topic)) => Ok((rest, Command::Sub(topic))),
            None => Err(Error::InvalidCommand),
        }
    } else if spells(&chars, word_end, "PUB") {
        match publish_arguments(line, &chars, word_end + 1) {
            Some((rest, topic, size)) => Ok((rest, Command::Pub(topic, size))),
            None => Err(Error::InvalidCommand),
        }
    } else {
        Err(Error::InvalidCommand)
    }
}

/// The buffer that a pool holding `pool` yields for a payload of `size`
/// bytes.
pub open spec fn payload_buffer(pool: Seq<Seq<u8>>, size: nat) -> Seq<u8> {
    if pool.len() == 0 {
        resized(Seq::empty(), size)
    } else {
        resized(pool.last(), size)
    }
}

/// What `line` means to the broker, given the buffers that `pool` holds: a
/// line that parses to a command becomes that message, any other line is
/// `Invalid`. A publish carries a buffer of the announced size, taken from
/// the pool.
pub open spec fn message_of(line: Seq<char>, pool: Seq<Seq<u8>>) -> IncomingView {
    match parsed(line) {
        Some((_, CommandView::Create(topic_name))) => IncomingView::Create { topic_name },
        Some((_, CommandView::Sub(topic_name))) => IncomingView::Subscribe { topic_name },
        Some((_, CommandView::Pub(topic_name, size))) => IncomingView::Publish {
            topic_name,
            payload: payload_buffer(pool, size as nat),
        },
        None => IncomingView::Invalid,
    }
}

/// Turns a line into the message it stands for. For a publish, takes the
/// payload's buffer from `pool`; otherwise leaves the pool alone.
pub fn parse_message(pool: &mut Pool, line: &str) -> (message: IncomingMessage)
    ensures
        message@ == message_of(line@, old(pool)@),
        final(pool)@ == if parsed(line@) matches Some((_, CommandView::Pub(_, _))) {
            if old(pool)@.len() == 0 {
                old(pool)@
            } else {
                old(pool)@.drop_last()
            }
        } else {
            old(pool)@
        },
{
    match command(line) {
        Ok((_, Command::Create(topic_name))) => IncomingMessage::Create {
            topic_name: topic_name.to_owned(),
        },
        Ok((_, Command::Sub(topic_name))) => IncomingMessage::Subscribe {
            topic_name: topic_name.to_owned(),
        },
        Ok((_, Command::Pub(topic_name, size))) => {
            let payload = get_buffer(pool, size as usize);
            assert(resized(Seq::empty(), size as nat) =~= crate::bufpool::zeros(size as nat));
            IncomingMessage::Publish { topic_name: topic_name.to_owned(), payload }
        },
        Err(_) => IncomingMessage::Invalid,
    }
}

/// A carriage return and a line feed.
pub open spec fn line_end() -> Seq<char> {
    seq!['\r', '\n']
}

/// What `CREATE` and `SUB` take for a topic: at least one character, none
/// of them a space or a carriage return.
pub open spec fn is_topic(topic: Seq<char>) -> bool {
    topic.len() > 0 && forall|i: int|
        0 <= i < topic.len() ==> (#[trigger] topic[i]) != ' ' && topic[i] != '\r'
}

/// What `PUB` takes for a topic: at least one character, none of them a
/// space.
pub open spec fn is_publish_topic(topic: Seq<char>) -> bool {
    topic.len() > 0 && forall|i: int| 0 <= i < topic.len() ==> (#[trigger] topic[i]) != ' '
}

/// What `PUB` takes for a size: at least one decimal digit, writing a
/// number that fits 32 bits.
pub open spec fn is_size(digits: Seq<char>) -> bool {
    digits.len() > 0 && decimal(digits) <= u32::MAX && forall|i: int|
        0 <= i < digits.len() ==> is_digit(#[trigger] digits[i])
}

/// The line `<word> <topic>\r\n`, followed by `rest`.
pub open spec fn topic_line(word: Seq<char>, topic: Seq<char>, rest: Seq<char>) -> Seq<char> {
    word + seq![' '] + topic + line_end() + rest
}

/// The line `PUB <topic> <digits>\r\n`, followed by `rest`.
pub open spec fn publish_line(topic: Seq<char>, digits: Seq<char>, rest: Seq<char>) -> Seq<char> {
    pub_word() + seq![' '] + topic + seq![' '] + digits + line_end() + rest
}

/// A word of upper-case letters, then a space: the command word of such a
/// line is the word, and its arguments are what follows the space.
proof fn lemma_word_is_read(word: Seq<char>, args: Seq<char>)
    requires
        forall|i: int| 0 <= i < word.len() ==> is_upper(#[trigger] word[i]),
    ensures
        first_match(word + seq![' '] + args, not_upper()) == word.len(),
        (word + seq![' '] + args).take(word.len() as int) == word,
        (word + seq![' '] + args).skip(word.len() as int + 1) == args,
        (word + seq![' '] + args)[word.len() as int] == ' ',
{
    let line = word + seq![' '] + args;
    assert forall|j: int| 0 <= j < word.len() implies !(not_upper())(#[trigger] line[j]) by {
        assert(line[j] == word[j]);
    }
    lemma_first_match_unique(line, not_upper(), word.len() as int);
    assert(line.take(word.len() as int) =~= word);
    assert(line.skip(word.len() as int + 1) =~= args);
}

/// The three command words are upper case and differ from each other.
proof fn lemma_words()
    ensures
        forall|i: int| 0 <= i < create_word().len() ==> is_upper(#[trigger] create_word()[i]),
        forall|i: int| 0 <= i < sub_word().len() ==> is_upper(#[trigger] sub_word()[i]),
        forall|i: int| 0 <= i < pub_word().len() ==> is_upper(#[trigger] pub_word()[i]),
        create_word() != sub_word(),
        create_word() != pub_word(),
        sub_word() != pub_word(),
{
    assert(create_word().len() == 6);
    assert(sub_word().len() == 3);
    assert(sub_word()[0] == 'S' && pub_word()[0] == 'P');
}

/// A topic followed by the line end reads as that topic.
proof fn lemma_topic_is_read(topic: Seq<char>, rest: Seq<char>)
    requires
        is_topic(topic),
    ensures
        parsed_topic(topic + line_end() + rest) == Some((rest, topic)),
{
    let args = topic + line_end() + rest;
    assert forall|j: int| 0 <= j < topic.len() implies !(blank_or_return())(#[trigger] args[j]) by {
        assert(args[j] == topic[j]);
    }
    assert(args[topic.len() as int] == '\r');
    assert(args[topic.len() as int + 1] == '\n');
    lemma_first_match_unique(args, blank_or_return(), topic.len() as int);
    assert(args.skip(topic.len() as int + 2) =~= rest);
    assert(args.take(topic.len() as int) =~= topic);
}

/// Completeness for `CREATE`: the line written for a topic parses to the
/// creation of that topic, and what follows the line is the rest.
pub proof fn lemma_create_line_parses(topic: Seq<char>, rest: Seq<char>)
    requires
        is_topic(topic),
    ensures
        parsed(topic_line(create_word(), topic, rest)) == Some(
            (rest, CommandView::Create(topic)),
        ),
{
    lemma_words();
    lemma_word_is_read(create_word(), topic + line_end() + rest);
    lemma_topic_is_read(topic, rest);
    assert(topic_line(create_word(), topic, rest) =~= create_word() + seq![' '] + (topic
        + line_end() + rest));
}

/// Completeness for `SUB`: the line written for a topic parses to the
/// subscription to that topic, and what follows the line is the rest.
pub proof fn lemma_sub_line_parses(topic: Seq<char>, rest: Seq<char>)
    requires
        is_topic(topic),
    ensures
        parsed(topic_line(sub_word(), topic, rest)) == Some((rest, CommandView::Sub(topic))),
{
    lemma_words();
    lemma_word_is_read(sub_word(), topic + line_end() + rest);
    lemma_topic_is_read(topic, rest);
    assert(topic_line(sub_word(), topic, rest) =~= sub_word() + seq![' '] + (topic + line_end()
        + rest));
}

/// Completeness for `PUB`: the line written for a topic and a size parses
/// to the publication of that many bytes to that topic, and what follows
/// the line is the rest.
pub proof fn lemma_publish_line_parses(topic: Seq<char>, digits: Seq<char>, rest: Seq<char>)
    requires
        is_publish_topic(topic),
        is_size(digits),
    ensures
        parsed(publish_line(topic, digits, rest)) == Some(
            (rest, CommandView::Pub(topic, decimal(digits) as u32)),
        ),
{
    lemma_words();
    let args = topic + seq![' '] + digits + line_end() + rest;
    lemma_word_is_read(pub_word(), args);
    assert(publish_line(topic, digits, rest) =~= pub_word() + seq![' '] + args);
    assert forall|j: int| 0 <= j < topic.len() implies !(blank())(#[trigger] args[j]) by {
        assert(args[j] == topic[j]);
    }
    assert(args[topic.len() as int] == ' ');
    lemma_first_match_unique(args, blank(), topic.len() as int);
    let from = topic.len() as int + 1;
    let tail = args.skip(from);
    assert forall|j: int| 0 <= j < digits.len() implies !(not_digit())(#[trigger] tail[j]) by {
        assert(tail[j] == digits[j]);
    }
    assert(tail[digits.len() as int] == '\r');
    lemma_first_match_unique(tail, not_digit(), digits.len() as int);
    let to = from + digits.len();
    assert(args[to] == '\r');
    assert(args[to + 1] == '\n');
    assert(args.subrange(from, to) =~= digits);
    assert(args.skip(to + 2) =~= rest);
    assert(args.take(topic.len() as int) =~= topic);
}

/// Arguments that read as a topic are that topic, the line end and the
/// rest.
proof fn lemma_topic_was_written(args: Seq<char>)
    ensures
        parsed_topic(args) matches Some((rest, topic)) ==> is_topic(topic) && args == topic
            + line_end() + rest,
{
    if parsed_topic(args) is Some {
        let end = first_match(args, blank_or_return());
        lemma_first_match_is_first(args, blank_or_return());
        let topic = args.take(end);
        let rest = args.skip(end + 2);
        assert(args =~= topic + line_end() + rest);
        assert forall|i: int| 0 <= i < topic.len() implies (#[trigger] topic[i]) != ' '
            && topic[i] != '\r' by {
            assert(!(blank_or_return())(args[i]));
        }
    }
}

/// Arguments that read as a publish are the topic, a space, the digits of
/// the size, the line end and the rest.
proof fn lemma_publish_was_written(args: Seq<char>)
    ensures
        parsed_publish(args) matches Some((rest, topic, size)) ==> is_publish_topic(topic)
            && exists|digits: Seq<char>|
            #![trigger decimal(digits)]
            is_size(digits) && decimal(digits) == size && args == topic + seq![' '] + digits
                + line_end() + rest,
{
    if parsed_publish(args) is Some {
        let end = first_match(args, blank());
        lemma_first_match_is_first(args, blank());
        let from = end + 1;
        let tail = args.skip(from);
        lemma_first_match_is_first(tail, not_digit());
        let to = from + first_match(tail, not_digit());
        let topic = args.take(end);
        let digits = args.subrange(from, to);
        let rest = args.skip(to + 2);
        assert(args =~= topic + seq![' '] + digits + line_end() + rest);
        assert forall|i: int| 0 <= i < topic.len() implies (#[trigger] topic[i]) != ' ' by {
            assert(!(blank())(args[i]));
        }
        assert forall|i: int| 0 <= i < digits.len() implies is_digit(#[trigger] digits[i]) by {
            assert(!(not_digit())(tail[i]));
        }
        assert(is_size(digits));
    }
}

/// Soundness: a line that parses is the line written for the command it
/// parses to, followed by the rest. For a publish, the size is the number
/// that the digits of the line write.
pub proof fn lemma_parsed_line_was_written(line: Seq<char>)
    ensures
        match parsed(line) {
            Some((rest, CommandView::Create(topic))) => is_topic(topic) && line == topic_line(
                create_word(),
                topic,
                rest,
            ),
            Some((rest, CommandView::Sub(topic))) => is_topic(topic) && line == topic_line(
                sub_word(),
                topic,
                rest,
            ),
            Some((rest, CommandView::Pub(topic, size))) => is_publish_topic(topic) && exists|
                digits: Seq<char>,
            |
                #![trigger decimal(digits)]
                is_size(digits) && decimal(digits) == size && line == publish_line(
                    topic,
                    digits,
                    rest,
                ),
            None => true,
        },
{
    if parsed(line) is Some {
        lemma_words();
        lemma_first_match_is_first(line, not_upper());
        let word_end = first_match(line, not_upper());
        let word = line.take(word_end);
        let args = line.skip(word_end + 1);
        assert(line =~= word + seq![' '] + args);
        lemma_topic_was_written(args);
        lemma_publish_was_written(args);
        if word == create_word() || word == sub_word() {
            let (rest, topic) = parsed_topic(args)->0;
            assert(line =~= topic_line(word, topic, rest));
        } else {
            let (rest, topic, size) = parsed_publish(args)->0;
            let digits = choose|digits: Seq<char>|
                #![trigger decimal(digits)]
                is_size(digits) && decimal(digits) == size && args == topic + seq![' '] + digits
                    + line_end() + rest;
            assert(line =~= publish_line(topic, digits, rest));
        }
    }
}

} // verus!
