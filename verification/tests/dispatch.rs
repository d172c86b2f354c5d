use kafka_codec::dispatch::{
    api_versions_table, handle_fetch, lookup_api, process_request, respond, APIVERSIONS, FETCH,
};
use kafka_codec::errors::{CorruptedField, IoErrorKind, KafkaError};
use kafka_codec::request::{FetchRequest, KafkaRequestHeader};
use kafka_codec::response::{
    ApiKeyVerInfo, ApiVersionsResponse, ErrorResponse, FetchResponse, KafkaResponse,
};

fn header(api_key: i16, api_ver: i16, correlation_id: i32) -> KafkaRequestHeader {
    KafkaRequestHeader { api_key, api_ver, correlation_id, client_id: None }
}

fn fetch_body(session_id: i32, topic_count: i32) -> Vec<u8> {
    let mut body = Vec::new();
    body.extend_from_slice(&500i32.to_be_bytes());
    body.extend_from_slice(&1i32.to_be_bytes());
    body.extend_from_slice(&1024i32.to_be_bytes());
    body.push(0);
    body.extend_from_slice(&session_id.to_be_bytes());
    body.extend_from_slice(&0i32.to_be_bytes());
    body.extend_from_slice(&topic_count.to_be_bytes());
    body.push(0);
    body.extend_from_slice(&0i32.to_be_bytes());
    body.push(0);
    body.extend_from_slice(&(-1i16).to_be_bytes());
    body
}

#[test]
fn table_lists_both_apis() {
    assert_eq!(
        api_versions_table(),
        vec![
            ApiKeyVerInfo { id: 18, min: 4, max: 4 },
            ApiKeyVerInfo { id: 1, min: 16, max: 16 },
        ]
    );
    assert_eq!(APIVERSIONS, 18);
    assert_eq!(FETCH, 1);
}

#[test]
fn lookup_finds_the_first_entry_for_a_key() {
    let table = vec![
        ApiKeyVerInfo { id: 3, min: 0, max: 1 },
        ApiKeyVerInfo { id: 5, min: 2, max: 7 },
        ApiKeyVerInfo { id: 3, min: 9, max: 9 },
    ];
    assert_eq!(lookup_api(&table, 3), Some(ApiKeyVerInfo { id: 3, min: 0, max: 1 }));
    assert_eq!(lookup_api(&table, 5), Some(ApiKeyVerInfo { id: 5, min: 2, max: 7 }));
    assert_eq!(lookup_api(&table, 4), None);
    assert_eq!(lookup_api(&vec![], 3), None);
}

#[test]
fn api_versions_in_range_returns_the_table() {
    assert_eq!(
        process_request(&header(18, 4, 7), &[]),
        Ok(KafkaResponse::ApiVersions(ApiVersionsResponse {
            correlation_id: 7,
            api_key_versions: api_versions_table(),
        }))
    );
}

#[test]
fn api_versions_out_of_range_is_refused() {
    for version in [5i16, 3, 0, -1, 16, i16::MAX, i16::MIN] {
        assert_eq!(
            process_request(&header(18, version, 7), &[]),
            Err(KafkaError::UnsupportedApiVersion(version))
        );
        assert_eq!(
            respond(&header(18, version, 7), &[]),
            KafkaResponse::Error(ErrorResponse { correlation_id: 7, error_code: 35 })
        );
    }
}

#[test]
fn unknown_api_key_is_refused() {
    for key in [0i16, 2, 17, 19, -1, i16::MAX] {
        assert_eq!(
            process_request(&header(key, 4, 11), &[]),
            Err(KafkaError::UnsupportedApiKey(key))
        );
        assert_eq!(
            respond(&header(key, 4, 11), &[]),
            KafkaResponse::Error(ErrorResponse { correlation_id: 11, error_code: 42 })
        );
    }
}

#[test]
fn fetch_in_range_is_answered_without_records() {
    let body = fetch_body(77, 0);
    assert_eq!(
        process_request(&header(1, 16, 21), &body),
        Ok(KafkaResponse::Fetch(FetchResponse {
            correlation_id: 21,
            throttle_time_ms: 0,
            session_id: 77,
            responses: vec![],
        }))
    );
}

#[test]
fn fetch_out_of_range_is_refused_before_decoding() {
    for version in [4i16, 15, 17, 0] {
        assert_eq!(
            process_request(&header(1, version, 21), &[0xff]),
            Err(KafkaError::UnsupportedApiVersion(version))
        );
    }
}

#[test]
fn fetch_with_negative_topic_count_is_corrupt() {
    let body = fetch_body(77, -1);
    assert_eq!(
        process_request(&header(1, 16, 21), &body),
        Err(KafkaError::CorruptedMessage(CorruptedField::TopicCount, -1))
    );
    assert_eq!(
        respond(&header(1, 16, 21), &body),
        KafkaResponse::Error(ErrorResponse { correlation_id: 21, error_code: 2 })
    );
}

#[test]
fn fetch_with_truncated_body_is_a_server_error() {
    assert_eq!(
        process_request(&header(1, 16, 21), &[0, 0]),
        Err(KafkaError::Io(IoErrorKind::UnexpectedEof))
    );
    assert_eq!(
        respond(&header(1, 16, 21), &[0, 0]),
        KafkaResponse::Error(ErrorResponse { correlation_id: 21, error_code: -1 })
    );
}

#[test]
fn handle_fetch_echoes_session_and_correlation() {
    let request = FetchRequest::parse(&fetch_body(-5, 0), 99).unwrap();
    assert_eq!(
        handle_fetch(&request),
        FetchResponse { correlation_id: 99, throttle_time_ms: 0, session_id: -5, responses: vec![] }
    );
}

#[test]
fn every_response_echoes_the_correlation_id() {
    let body = fetch_body(1, 0);
    for correlation_id in [0, 7, -1, i32::MIN, i32::MAX] {
        for (key, version) in [(18, 4), (18, 5), (1, 16), (1, 4), (9, 9)] {
            let found = match respond(&header(key, version, correlation_id), &body) {
                KafkaResponse::ApiVersions(response) => response.correlation_id,
                KafkaResponse::Error(response) => response.correlation_id,
                KafkaResponse::Fetch(response) => response.correlation_id,
            };
            assert_eq!(found, correlation_id);
        }
    }
}
