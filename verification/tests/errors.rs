use kafka_codec::errors::{
    CorruptedField, IoErrorKind, KafkaError, CORRUPT_MESSAGE, INVALID_REQUEST, NONE,
    UNKNOWN_SERVER_ERROR, UNSUPPORTED_VERSION,
};

#[test]
fn error_code_constants() {
    assert_eq!(UNKNOWN_SERVER_ERROR, -1);
    assert_eq!(NONE, 0);
    assert_eq!(CORRUPT_MESSAGE, 2);
    assert_eq!(UNSUPPORTED_VERSION, 35);
    assert_eq!(INVALID_REQUEST, 42);
}

#[test]
fn io_failure_is_unknown_server_error() {
    assert_eq!(KafkaError::Io(IoErrorKind::UnexpectedEof).to_error_code(), -1);
    assert_eq!(KafkaError::Io(IoErrorKind::Other).to_error_code(), -1);
}

#[test]
fn unsupported_version_is_35() {
    assert_eq!(KafkaError::UnsupportedApiVersion(5).to_error_code(), 35);
}

#[test]
fn unsupported_key_is_42() {
    assert_eq!(KafkaError::UnsupportedApiKey(99).to_error_code(), 42);
}

#[test]
fn malformed_data_is_corrupt_message() {
    assert_eq!(KafkaError::InvalidMessageLength(-5).to_error_code(), 2);
    assert_eq!(KafkaError::InvalidString.to_error_code(), 2);
    assert_eq!(
        KafkaError::CorruptedMessage(CorruptedField::TopicCount, -1).to_error_code(),
        2
    );
    assert_eq!(
        KafkaError::CorruptedMessage(CorruptedField::PartitionCount, -1).to_error_code(),
        2
    );
    assert_eq!(
        KafkaError::CorruptedMessage(CorruptedField::ForgottenTopicCount, -1).to_error_code(),
        2
    );
}

#[test]
fn error_code_agrees_with_to_error_code() {
    let errors = [
        KafkaError::Io(IoErrorKind::UnexpectedEof),
        KafkaError::InvalidMessageLength(0),
        KafkaError::UnsupportedApiVersion(3),
        KafkaError::InvalidString,
        KafkaError::UnsupportedApiKey(7),
        KafkaError::CorruptedMessage(CorruptedField::TopicCount, -3),
    ];
    for error in errors {
        assert_eq!(error.error_code(), error.to_error_code());
    }
}
