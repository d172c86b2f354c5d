//! Failure kinds of the codec and the protocol error codes they map to.

use vstd::prelude::*;

verus! {

/// Protocol code for a fault on the server side, such as a failed read.
pub const UNKNOWN_SERVER_ERROR: i16 = -1;

/// Protocol code for a request that succeeded.
pub const NONE: i16 = 0;

/// Protocol code for a request body that does not decode.
pub const CORRUPT_MESSAGE: i16 = 2;

/// Protocol code for an API version outside the supported range.
pub const UNSUPPORTED_VERSION: i16 = 35;

/// Protocol code for a request the broker cannot serve at all.
pub const INVALID_REQUEST: i16 = 42;

/// Why a read or write on the byte source failed.
#[derive(Clone, Copy, Debug, PartialEq, Eq, Structural)]
pub enum IoErrorKind {
    /// The source ended before the requested bytes were available.
    UnexpectedEof,
    /// Any other failure reported by the transport.
    Other,
}

/// The array length of a fetch request that was found to be negative.
#[derive(Clone, Copy, Debug, PartialEq, Eq, Structural)]
pub enum CorruptedField {
    /// Number of topics in a fetch request.
    TopicCount,
    /// Number of partitions of one topic, fetched or forgotten.
    PartitionCount,
    /// Number of forgotten topics in a fetch request.
    ForgottenTopicCount,
}

/// Everything that can go wrong between reading a frame and answering it.
#[derive(Clone, Copy, Debug, PartialEq, Eq, Structural)]
pub enum KafkaError {
    /// The byte source failed or ran out.
    Io(IoErrorKind),
    /// A length field holds a value that no frame or text can have.
    InvalidMessageLength(i32),
    /// The request names a version of its API that is not served.
    UnsupportedApiVersion(i16),
    /// A text field is not valid UTF-8.
    InvalidString,
    /// The request names an API that is not served.
    UnsupportedApiKey(i16),
    /// An array length in the body is negative; the value read is kept.
    CorruptedMessage(CorruptedField, i32),
}

/// The protocol code that reports `error` to the peer.
pub open spec fn wire_code(error: KafkaError) -> i16 {
    match error {
        KafkaError::Io(_) => UNKNOWN_SERVER_ERROR,
        KafkaError::UnsupportedApiKey(_) => INVALID_REQUEST,
        KafkaError::UnsupportedApiVersion(_) => UNSUPPORTED_VERSION,
        KafkaError::InvalidMessageLength(_) => CORRUPT_MESSAGE,
        KafkaError::InvalidString => CORRUPT_MESSAGE,
        KafkaError::CorruptedMessage(_, _) => CORRUPT_MESSAGE,
    }
}

impl KafkaError {
    /// Maps the failure to its 16-bit protocol code.
    pub fn to_error_code(&self) -> (code: i16)
        ensures
            code == wire_code(*self),
    {
        match self {
            KafkaError::Io(_) => UNKNOWN_SERVER_ERROR,
            KafkaError::UnsupportedApiKey(_) => INVALID_REQUEST,
            KafkaError::InvalidMessageLength(_) => CORRUPT_MESSAGE,
            KafkaError::InvalidString => CORRUPT_MESSAGE,
            KafkaError::UnsupportedApiVersion(_) => UNSUPPORTED_VERSION,
            KafkaError::CorruptedMessage(_, _) => CORRUPT_MESSAGE,
        }
    }

    /// Short name for [`KafkaError::to_error_code`].
    pub fn error_code(&self) -> (code: i16)
        ensures
            code == wire_code(*self),
    {
        self.to_error_code()
    }
}

} // verus!
