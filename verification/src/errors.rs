//! The failures the broker reports to a client or to its caller.

use vstd::prelude::*;

verus! {

/// What went wrong while framing, parsing or serving a request.
#[derive(Debug, Clone, Copy, PartialEq, Eq, Structural)]
pub enum Error {
    /// A line or a frame that is no command of the protocol.
    InvalidCommand,
    /// A request named a topic that was never created.
    UnknownTopic,
    /// A frame header declared a negative payload length.
    MalformedHeader,
    /// A frame header declared more payload than the codec admits.
    FrameTooLarge,
}

impl Error {
    /// The human-readable text of the failure, as sent to text-protocol clients.
    pub open spec fn spec_description(self) -> Seq<char> {
        match self {
            Error::InvalidCommand => "Invalid command"@,
            Error::UnknownTopic => "Unknown topic"@,
            Error::MalformedHeader => "Malformed frame header"@,
            Error::FrameTooLarge => "Frame too large"@,
        }
    }

    /// Returns the human-readable text of the failure.
    pub fn description(&self) -> (text: &'static str)
        ensures
            text@ == self.spec_description(),
    {
        match self {
            Error::InvalidCommand => "Invalid command",
            Error::UnknownTopic => "Unknown topic",
            Error::MalformedHeader => "Malformed frame header",
            Error::FrameTooLarge => "Frame too large",
        }
    }
}

} // verus!
