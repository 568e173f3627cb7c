//! The client's side of an exchange: the request to send for a command, and
//! what to make of the reply. Connecting, sending and receiving are the
//! caller's part.

use vstd::prelude::*;
use vstd::utf8::encode_utf8;
use crate::protocol::{
    CorrelationId, Exchange, ExchangeView, Request, RequestView, Response, Transaction,
    TransactionView,
};

verus! {

/// The correlation id the client tags its one request with.
pub const CORRELATION: CorrelationId = 42;

/// The transaction that carries `request` under the client's correlation id.
pub open spec fn requested(request: RequestView) -> TransactionView {
    TransactionView { correlation: CORRELATION, exchange: ExchangeView::Request(request) }
}

fn send(request: Request) -> (transaction: Transaction)
    ensures
        transaction@ == requested(request@),
{
    Transaction { correlation: CORRELATION, exchange: Exchange::Request(request) }
}

/// The request that asks whether the broker is up.
pub fn status() -> (transaction: Transaction)
    ensures
        transaction@ == requested(RequestView::Ping),
{
    send(Request::Ping)
}

/// The request that creates `topic`.
pub fn create(topic: String) -> (transaction: Transaction)
    ensures
        transaction@ == requested(RequestView::Create { topic: encode_utf8(topic@) }),
{
    send(Request::Create { topic: topic.as_str().as_bytes_vec() })
}

/// The request that subscribes to `topic`.
pub fn subscribe(topic: String) -> (transaction: Transaction)
    ensures
        transaction@ == requested(RequestView::Subscribe { topic: encode_utf8(topic@) }),
{
    send(Request::Subscribe { topic: topic.as_str().as_bytes_vec() })
}

/// The request that publishes `value` under `key` to `topic`.
pub fn publish(topic: String, key: String, value: Vec<u8>) -> (transaction: Transaction)
    ensures
        transaction@ == requested(
            RequestView::Publish {
                topic: encode_utf8(topic@),
                key: encode_utf8(key@),
                value: value@,
            },
        ),
{
    send(
        Request::Publish {
            topic: topic.as_str().as_bytes_vec(),
            key: key.as_str().as_bytes_vec(),
            value,
        },
    )
}

/// What the client makes of the reply to its request.
#[derive(Debug, Clone, Copy, PartialEq, Eq, Structural)]
pub enum Report {
    /// The broker carried the request out.
    Done,
    /// The broker knows no such topic.
    UnknownTopic,
    /// The reply is none that the request allows.
    Invalid,
}

impl Report {
    /// The process exit code: one for an invalid reply, zero otherwise.
    pub open spec fn spec_exit_code(self) -> i32 {
        if self == Report::Invalid {
            1
        } else {
            0
        }
    }

    /// The process exit code: one for an invalid reply, zero otherwise.
    pub fn exit_code(&self) -> (code: i32)
        ensures
            code == self.spec_exit_code(),
    {
        match self {
            Report::Invalid => 1,
            _ => 0,
        }
    }
}

/// What `reply` means to a request that names no topic to look up, such as
/// a status or a create: only `Okay` is a valid reply.
pub open spec fn spec_acknowledged(reply: ExchangeView) -> Report {
    if reply == ExchangeView::Response(Response::Okay) {
        Report::Done
    } else {
        Report::Invalid
    }
}

/// What `reply` means to a request that names a topic to look up, such as
/// a publish: `Okay` and `UnknownTopic` are the valid replies.
pub open spec fn spec_looked_up(reply: ExchangeView) -> Report {
    if reply == ExchangeView::Response(Response::Okay) {
        Report::Done
    } else if reply == ExchangeView::Response(Response::UnknownTopic) {
        Report::UnknownTopic
    } else {
        Report::Invalid
    }
}

/// Judges the reply to a status or a create.
pub fn acknowledged(reply: &Exchange) -> (report: Report)
    ensures
        report == spec_acknowledged(reply@),
{
    match reply {
        Exchange::Response(Response::Okay) => Report::Done,
        _ => Report::Invalid,
    }
}

/// Judges the reply to a publish.
pub fn looked_up(reply: &Exchange) -> (report: Report)
    ensures
        report == spec_looked_up(reply@),
{
    match reply {
        Exchange::Response(Response::Okay) => Report::Done,
        Exchange::Response(Response::UnknownTopic) => Report::UnknownTopic,
        _ => Report::Invalid,
    }
}

} // verus!
