//! The values exchanged between a client and the broker.

use std::sync::Arc;
use vstd::prelude::*;
use crate::bufpool::Buffer;
use crate::errors::Error;

verus! {

/// Chosen by the requester and echoed on every answer to it.
pub type CorrelationId = i32;

/// The broker's answer to a request.
#[derive(Debug, Clone, Copy, PartialEq, Eq, Structural)]
pub enum Response {
    Okay,
    InvalidCommand,
    UnknownTopic,
}

/// A published payload as pushed to a subscriber.
#[derive(Debug, Clone, PartialEq, Eq)]
pub struct Message {
    /// Reserved: the broker always writes zero.
    pub offset: i64,
    pub key: Vec<u8>,
    pub value: Vec<u8>,
}

/// The mathematical content of a [`Message`].
pub struct MessageView {
    pub offset: i64,
    pub key: Seq<u8>,
    pub value: Seq<u8>,
}

impl View for Message {
    type V = MessageView;

    open spec fn view(&self) -> MessageView {
        MessageView { offset: self.offset, key: self.key@, value: self.value@ }
    }
}

impl Message {
    /// Returns a message with the same content.
    pub fn duplicate(&self) -> (copy: Message)
        ensures
            copy@ == self@,
    {
        Message { offset: self.offset, key: self.key.clone(), value: self.value.clone() }
    }
}

/// A command sent by a client.
#[derive(Debug, Clone, PartialEq, Eq)]
pub enum Request {
    Ping,
    Create { topic: Vec<u8> },
    Subscribe { topic: Vec<u8> },
    Unsubscribe { topic: Vec<u8> },
    Publish { topic: Vec<u8>, key: Vec<u8>, value: Vec<u8> },
}

/// The mathematical content of a [`Request`].
pub enum RequestView {
    Ping,
    Create { topic: Seq<u8> },
    Subscribe { topic: Seq<u8> },
    Unsubscribe { topic: Seq<u8> },
    Publish { topic: Seq<u8>, key: Seq<u8>, value: Seq<u8> },
}

impl View for Request {
    type V = RequestView;

    open spec fn view(&self) -> RequestView {
        match *self {
            Request::Ping => RequestView::Ping,
            Request::Create { topic } => RequestView::Create { topic: topic@ },
            Request::Subscribe { topic } => RequestView::Subscribe { topic: topic@ },
            Request::Unsubscribe { topic } => RequestView::Unsubscribe { topic: topic@ },
            Request::Publish { topic, key, value } => RequestView::Publish {
                topic: topic@,
                key: key@,
                value: value@,
            },
        }
    }
}

/// What a transaction carries: a request, its answer, or a pushed message.
#[derive(Debug, Clone, PartialEq, Eq)]
pub enum Exchange {
    Request(Request),
    Response(Response),
    Message(Message),
}

/// The mathematical content of an [`Exchange`].
pub enum ExchangeView {
    Request(RequestView),
    Response(Response),
    Message(MessageView),
}

impl View for Exchange {
    type V = ExchangeView;

    open spec fn view(&self) -> ExchangeView {
        match *self {
            Exchange::Request(request) => ExchangeView::Request(request@),
            Exchange::Response(response) => ExchangeView::Response(response),
            Exchange::Message(message) => ExchangeView::Message(message@),
        }
    }
}

/// One unit of the protocol: an exchange tagged with its correlation id.
#[derive(Debug, Clone, PartialEq, Eq)]
pub struct Transaction {
    pub correlation: CorrelationId,
    pub exchange: Exchange,
}

/// The mathematical content of a [`Transaction`].
pub struct TransactionView {
    pub correlation: CorrelationId,
    pub exchange: ExchangeView,
}

impl View for Transaction {
    type V = TransactionView;

    open spec fn view(&self) -> TransactionView {
        TransactionView { correlation: self.correlation, exchange: self.exchange@ }
    }
}

impl Transaction {
    /// The answer `response` to the request that carried `correlation`.
    pub open spec fn spec_reply(correlation: CorrelationId, response: Response) -> TransactionView {
        TransactionView { correlation, exchange: ExchangeView::Response(response) }
    }

    /// Builds the answer `response` to the request that carried `correlation`.
    pub fn reply(correlation: CorrelationId, response: Response) -> (transaction: Transaction)
        ensures
            transaction@ == Transaction::spec_reply(correlation, response),
    {
        Transaction { correlation, exchange: Exchange::Response(response) }
    }
}

/// A line-protocol command as handed to the broker.
#[derive(Debug)]
pub enum IncomingMessage {
    Create { topic_name: String },
    Subscribe { topic_name: String },
    /// A publish, with the buffer that the payload following the line is
    /// read into.
    Publish { topic_name: String, payload: Buffer },
    /// A line that is no command.
    Invalid,
}

/// The mathematical content of an [`IncomingMessage`].
pub enum IncomingView {
    Create { topic_name: Seq<char> },
    Subscribe { topic_name: Seq<char> },
    Publish { topic_name: Seq<char>, payload: Seq<u8> },
    Invalid,
}

impl View for IncomingMessage {
    type V = IncomingView;

    open spec fn view(&self) -> IncomingView {
        match *self {
            IncomingMessage::Create { topic_name } => IncomingView::Create {
                topic_name: topic_name@,
            },
            IncomingMessage::Subscribe { topic_name } => IncomingView::Subscribe {
                topic_name: topic_name@,
            },
            IncomingMessage::Publish { topic_name, payload } => IncomingView::Publish {
                topic_name: topic_name@,
                payload: payload@,
            },
            IncomingMessage::Invalid => IncomingView::Invalid,
        }
    }
}

/// What the broker sends to a line-protocol client.
#[derive(Debug, Clone)]
pub enum OutcomingMessage {
    /// The command was carried out.
    Okay,
    /// The command failed.
    Failure(Error),
    /// A payload published to a topic the client subscribed to. The buffer
    /// is shared by all the subscribers it goes to.
    Data { topic_name: String, payload: Arc<Buffer> },
}

/// The mathematical content of an [`OutcomingMessage`].
pub enum OutcomingView {
    Okay,
    Failure(Error),
    Data { topic_name: Seq<char>, payload: Seq<u8> },
}

impl View for OutcomingMessage {
    type V = OutcomingView;

    open spec fn view(&self) -> OutcomingView {
        match *self {
            OutcomingMessage::Okay => OutcomingView::Okay,
            OutcomingMessage::Failure(error) => OutcomingView::Failure(error),
            OutcomingMessage::Data { topic_name, payload } => OutcomingView::Data {
                topic_name: topic_name@,
                payload: payload@,
            },
        }
    }
}

} // verus!
