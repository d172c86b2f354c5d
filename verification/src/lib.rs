//! Wire codec and request dispatch for a small Kafka-style broker.

pub mod connection;
pub mod dispatch;
pub mod errors;
pub mod frame;
pub mod readers;
pub mod request;
pub mod response;
pub mod roundtrip;
pub mod wire;
pub mod writers;

pub use errors::{CorruptedField, IoErrorKind, KafkaError};
