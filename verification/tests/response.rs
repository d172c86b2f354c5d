use kafka_codec::readers::{read_int128, read_int16, read_int32, read_int8, Cursor};
use kafka_codec::response::{
    encode_response, ApiKeyVerInfo, ApiVersionsResponse, ErrorResponse, FetchResponse,
    KafkaResponse, ResponsePartition, ResponseTopic, MAX_COMPACT_LEN,
};

// A decoder of responses written by hand, for these tests alone.

fn count_byte(cursor: &mut Cursor) -> usize {
    let byte = read_int8(cursor).unwrap() as u8;
    assert!(byte >= 1, "a count byte of zero announces no list");
    usize::from(byte) - 1
}

fn decode_error(bytes: &[u8]) -> ErrorResponse {
    let mut cursor = Cursor::new(bytes);
    let correlation_id = read_int32(&mut cursor).unwrap();
    let error_code = read_int16(&mut cursor).unwrap();
    assert_eq!(cursor.position(), bytes.len());
    ErrorResponse { correlation_id, error_code }
}

fn decode_api_versions(bytes: &[u8]) -> (ApiVersionsResponse, i16, i32) {
    let mut cursor = Cursor::new(bytes);
    let correlation_id = read_int32(&mut cursor).unwrap();
    let error_code = read_int16(&mut cursor).unwrap();
    let count = count_byte(&mut cursor);
    let mut api_key_versions = Vec::new();
    for _ in 0..count {
        let id = read_int16(&mut cursor).unwrap();
        let min = read_int16(&mut cursor).unwrap();
        let max = read_int16(&mut cursor).unwrap();
        assert_eq!(read_int8(&mut cursor), Ok(0));
        api_key_versions.push(ApiKeyVerInfo { id, min, max });
    }
    let throttle_time_ms = read_int32(&mut cursor).unwrap();
    assert_eq!(read_int8(&mut cursor), Ok(0));
    assert_eq!(cursor.position(), bytes.len());
    (ApiVersionsResponse { correlation_id, api_key_versions }, error_code, throttle_time_ms)
}

fn decode_fetch(bytes: &[u8]) -> (FetchResponse, i16) {
    let mut cursor = Cursor::new(bytes);
    let throttle_time_ms = read_int32(&mut cursor).unwrap();
    let correlation_id = read_int32(&mut cursor).unwrap();
    let error_code = read_int16(&mut cursor).unwrap();
    let session_id = read_int32(&mut cursor).unwrap();
    let topic_count = count_byte(&mut cursor);
    let mut responses = Vec::new();
    for _ in 0..topic_count {
        let topic_id = read_int128(&mut cursor).unwrap();
        let partition_count = count_byte(&mut cursor);
        let mut partitions = Vec::new();
        for _ in 0..partition_count {
            let partition_index = read_int32(&mut cursor).unwrap();
            let error_code = read_int16(&mut cursor).unwrap();
            assert_eq!(read_int8(&mut cursor), Ok(0));
            partitions.push(ResponsePartition { partition_index, error_code });
        }
        assert_eq!(read_int8(&mut cursor), Ok(0));
        responses.push(ResponseTopic { topic_id, partitions });
    }
    assert_eq!(read_int8(&mut cursor), Ok(0));
    assert_eq!(cursor.position(), bytes.len());
    (FetchResponse { correlation_id, throttle_time_ms, session_id, responses }, error_code)
}

fn partitions(count: usize, seed: i32) -> Vec<ResponsePartition> {
    (0..count)
        .map(|i| ResponsePartition {
            partition_index: seed.wrapping_mul(31).wrapping_add(i as i32),
            error_code: (i as i16).wrapping_sub(seed as i16),
        })
        .collect()
}

#[test]
fn error_response_layout() {
    let response = ErrorResponse { correlation_id: 7, error_code: 35 };
    let bytes = encode_response(&KafkaResponse::Error(response));
    assert_eq!(bytes, vec![0u8, 0, 0, 7, 0, 35]);
}

#[test]
fn error_response_round_trip() {
    for (correlation_id, error_code) in [(0, 0), (7, 35), (-1, -1), (i32::MIN, 2), (i32::MAX, 42)] {
        let response = ErrorResponse { correlation_id, error_code };
        let bytes = encode_response(&KafkaResponse::Error(response));
        assert_eq!(decode_error(&bytes), response);
    }
}

#[test]
fn api_versions_response_layout() {
    let response = ApiVersionsResponse {
        correlation_id: 0x0102_0304,
        api_key_versions: vec![
            ApiKeyVerInfo { id: 18, min: 4, max: 4 },
            ApiKeyVerInfo { id: 1, min: 16, max: 16 },
        ],
    };
    let bytes = encode_response(&KafkaResponse::ApiVersions(response));
    assert_eq!(
        bytes,
        vec![
            1u8, 2, 3, 4, // correlation id
            0, 0, // error code
            3, // two entries
            0, 18, 0, 4, 0, 4, 0, // version negotiation
            0, 1, 0, 16, 0, 16, 0, // fetch
            0, 0, 0, 0, // throttle time
            0, // tag buffer
        ]
    );
}

#[test]
fn api_versions_response_round_trip() {
    for count in [0usize, 1, 2, 17, MAX_COMPACT_LEN] {
        let response = ApiVersionsResponse {
            correlation_id: -(count as i32) - 3,
            api_key_versions: (0..count)
                .map(|i| ApiKeyVerInfo { id: i as i16, min: -(i as i16), max: i as i16 * 100 })
                .collect(),
        };
        let bytes = encode_response(&KafkaResponse::ApiVersions(response.clone()));
        assert_eq!(bytes.len(), 12 + 7 * count);
        assert_eq!(decode_api_versions(&bytes), (response, 0, 0));
    }
}

#[test]
fn fetch_response_layout() {
    let response = FetchResponse {
        correlation_id: 7,
        throttle_time_ms: 9,
        session_id: -1,
        responses: vec![ResponseTopic {
            topic_id: 1,
            partitions: vec![ResponsePartition { partition_index: 2, error_code: 3 }],
        }],
    };
    let bytes = encode_response(&KafkaResponse::Fetch(response));
    assert_eq!(
        bytes,
        vec![
            0u8, 0, 0, 9, // throttle time
            0, 0, 0, 7, // correlation id
            0, 0, // error code
            0xff, 0xff, 0xff, 0xff, // session id
            2, // one topic
            0, 0, 0, 0, 0, 0, 0, 0, 0, 0, 0, 0, 0, 0, 0, 1, // topic id
            2, // one partition
            0, 0, 0, 2, 0, 3, 0, // partition
            0, // tag buffer of the topic
            0, // tag buffer
        ]
    );
}

#[test]
fn empty_fetch_response_layout() {
    let response =
        FetchResponse { correlation_id: 7, throttle_time_ms: 0, session_id: 77, responses: vec![] };
    let bytes = encode_response(&KafkaResponse::Fetch(response));
    assert_eq!(bytes, vec![0u8, 0, 0, 0, 0, 0, 0, 7, 0, 0, 0, 0, 0, 77, 1, 0]);
}

#[test]
fn fetch_response_round_trip() {
    let shapes: [&[usize]; 5] = [&[], &[0], &[1], &[3, 0, 2], &[MAX_COMPACT_LEN, 1]];
    for shape in shapes {
        let response = FetchResponse {
            correlation_id: shape.len() as i32 - 2,
            throttle_time_ms: 1000,
            session_id: i32::MIN,
            responses: shape
                .iter()
                .enumerate()
                .map(|(i, count)| ResponseTopic {
                    topic_id: i128::MAX - i as i128,
                    partitions: partitions(*count, i as i32),
                })
                .collect(),
        };
        let bytes = encode_response(&KafkaResponse::Fetch(response.clone()));
        assert_eq!(decode_fetch(&bytes), (response, 0));
    }
}

#[test]
fn fetch_response_with_most_topics_round_trip() {
    let response = FetchResponse {
        correlation_id: 1,
        throttle_time_ms: 2,
        session_id: 3,
        responses: (0..MAX_COMPACT_LEN)
            .map(|i| ResponseTopic { topic_id: i as i128, partitions: partitions(i % 3, i as i32) })
            .collect(),
    };
    let bytes = encode_response(&KafkaResponse::Fetch(response.clone()));
    assert_eq!(bytes[14], 255);
    assert_eq!(decode_fetch(&bytes), (response, 0));
}

#[test]
fn compact_count_is_length_plus_one() {
    for count in [0usize, 1, 2, 100, 253, MAX_COMPACT_LEN] {
        let versions = ApiVersionsResponse {
            correlation_id: 0,
            api_key_versions: vec![ApiKeyVerInfo { id: 0, min: 0, max: 0 }; count],
        };
        let bytes = encode_response(&KafkaResponse::ApiVersions(versions));
        assert_eq!(usize::from(bytes[6]), count + 1);

        let fetch = FetchResponse {
            correlation_id: 0,
            throttle_time_ms: 0,
            session_id: 0,
            responses: vec![ResponseTopic { topic_id: 0, partitions: partitions(count, 0) }],
        };
        let bytes = encode_response(&KafkaResponse::Fetch(fetch));
        assert_eq!(bytes[14], 2);
        assert_eq!(usize::from(bytes[31]), count + 1);
    }
}

#[test]
fn count_byte_one_decodes_to_empty_list() {
    let bytes = vec![0u8, 0, 0, 5, 0, 0, 1, 0, 0, 0, 0, 0];
    let (response, error_code, throttle_time_ms) = decode_api_versions(&bytes);
    assert_eq!(response, ApiVersionsResponse { correlation_id: 5, api_key_versions: vec![] });
    assert_eq!(error_code, 0);
    assert_eq!(throttle_time_ms, 0);
}

#[test]
fn largest_encodable_response_fits_the_bound() {
    let response = FetchResponse {
        correlation_id: 0,
        throttle_time_ms: 0,
        session_id: 0,
        responses: (0..MAX_COMPACT_LEN)
            .map(|i| ResponseTopic {
                topic_id: i as i128,
                partitions: partitions(MAX_COMPACT_LEN, i as i32),
            })
            .collect(),
    };
    let bytes = encode_response(&KafkaResponse::Fetch(response));
    assert_eq!(bytes.len(), kafka_codec::response::MAX_RESPONSE_LEN);
}
