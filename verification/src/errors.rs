//! Error kinds shared by the broker, the registry and the wire codecs.

use vstd::prelude::*;

verus! {

/// Errors raised by the queue engine, the registry and configuration checks.
///
/// Each variant is one kind of the error taxonomy; the payload is the text
/// shown to an operator.
#[derive(Debug, Clone, PartialEq, Eq)]
pub enum NsqError {
    Config(String),
    Validation(String),
    Queue(String),
    Metrics(String),
    Protocol(String),
    Io(String),
    Json(String),
    Utf8(String),
    Channel(String),
}

/// Errors raised while framing or parsing wire data.
#[derive(Debug, Clone, PartialEq, Eq)]
pub enum ProtocolError {
    InvalidFrameSize(usize),
    InvalidFrameType(u8),
    InvalidCommand(String),
    InvalidMessage(String),
    Compression(String),
    Serialization(String),
    Io(String),
    Utf8(String),
}

/// `res` is a validation error whose text is `text`.
pub open spec fn invalid_with<T>(res: Result<T, NsqError>, text: Seq<char>) -> bool {
    res matches Err(NsqError::Validation(m)) && m@ == text
}

/// `res` is a queue error whose text is `text`.
pub open spec fn queue_error_with<T>(res: Result<T, NsqError>, text: Seq<char>) -> bool {
    res matches Err(NsqError::Queue(m)) && m@ == text
}

impl NsqError {
    /// The text carried by the error.
    pub fn message(&self) -> (text: &String)
        ensures
            *text == self.text(),
    {
        match self {
            NsqError::Config(m) => m,
            NsqError::Validation(m) => m,
            NsqError::Queue(m) => m,
            NsqError::Metrics(m) => m,
            NsqError::Protocol(m) => m,
            NsqError::Io(m) => m,
            NsqError::Json(m) => m,
            NsqError::Utf8(m) => m,
            NsqError::Channel(m) => m,
        }
    }

    /// The payload of whichever variant `self` is.
    pub open spec fn text(self) -> String {
        match self {
            NsqError::Config(m) => m,
            NsqError::Validation(m) => m,
            NsqError::Queue(m) => m,
            NsqError::Metrics(m) => m,
            NsqError::Protocol(m) => m,
            NsqError::Io(m) => m,
            NsqError::Json(m) => m,
            NsqError::Utf8(m) => m,
            NsqError::Channel(m) => m,
        }
    }
}

} // verus!
