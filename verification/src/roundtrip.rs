//! Decoding undoes encoding: what the writers of this crate put on the wire
//! can be read back from it, value for value.
//!
//! The decoders of responses exist in ghost code only. The broker never reads
//! a response; they say what a peer finds in the bytes it is sent.

use vstd::prelude::*;
use vstd::utf8::{encode_utf8, encode_utf8_decode_utf8, encode_utf8_valid_utf8};
use crate::readers::nullable_text_at;
use crate::response::{
    api_key_bytes, api_keys_bytes, api_versions_bytes, compact_count, error_response_bytes,
    fetch_response_bytes, lemma_api_keys_len, lemma_response_partitions_len, response_bytes,
    response_partition_bytes, response_partitions_bytes, response_topic_bytes,
    response_topics_bytes, ApiKeyVerInfo, ApiVersionsResponseView, ErrorResponse,
    FetchResponseView, KafkaResponseView, ResponsePartition, ResponseTopicView, MAX_COMPACT_LEN,
    TAG_BUFFER,
};
use crate::errors::NONE;
use crate::wire::{int_at, lemma_int_at_occurrence, lemma_occurs_at_split, lemma_pow256_values, occurs_at};
use crate::writers::{
    int128_bytes, int16_bytes, int32_bytes, lemma_int_bytes_len, nullable_text_bytes,
    MAX_TEXT_LEN,
};

verus! {

/// A 16-bit integer that stands in `data` is read from there.
pub proof fn lemma_int16_at(data: Seq<u8>, pos: int, value: i16)
    requires
        occurs_at(data, pos, int16_bytes(value)),
    ensures
        pos + 2 <= data.len(),
        int_at(data, pos, 2) == value,
{
    lemma_pow256_values();
    lemma_int_at_occurrence(data, pos, value as int, 2);
}

/// A 32-bit integer that stands in `data` is read from there.
pub proof fn lemma_int32_at(data: Seq<u8>, pos: int, value: i32)
    requires
        occurs_at(data, pos, int32_bytes(value)),
    ensures
        pos + 4 <= data.len(),
        int_at(data, pos, 4) == value,
{
    lemma_pow256_values();
    lemma_int_at_occurrence(data, pos, value as int, 4);
}

/// A 128-bit integer that stands in `data` is read from there.
pub proof fn lemma_int128_at(data: Seq<u8>, pos: int, value: i128)
    requires
        occurs_at(data, pos, int128_bytes(value)),
    ensures
        pos + 16 <= data.len(),
        int_at(data, pos, 16) == value,
{
    lemma_pow256_values();
    lemma_int_at_occurrence(data, pos, value as int, 16);
}

/// A single byte that stands in `data` is found at its position.
pub proof fn lemma_byte_at(data: Seq<u8>, pos: int, byte: u8)
    requires
        occurs_at(data, pos, seq![byte]),
    ensures
        pos + 1 <= data.len(),
        data[pos] == byte,
{
    assert(data.subrange(pos, pos + 1)[0] == data[pos]);
}

/// The number of elements that a count byte announces; none for the byte
/// zero, which announces no list.
pub open spec fn compact_len(byte: u8) -> Option<nat> {
    if byte == 0 {
        None
    } else {
        Some((byte - 1) as nat)
    }
}

/// The count byte of a list of `count` elements is `count + 1`, and is read
/// back as `count`, for every length up to [`MAX_COMPACT_LEN`]. The byte `1`
/// announces the empty list.
pub proof fn lemma_compact_count_round_trip(count: nat)
    requires
        count <= MAX_COMPACT_LEN,
    ensures
        compact_count(count) == count + 1,
        compact_len(compact_count(count)) == Some(count),
        compact_len(1) == Some(0nat),
{
}

/// In the bytes of a response, every list is announced by one byte that
/// holds the length of the list plus one: the entries of the version table
/// at offset 6, the topics of a fetch response at offset 14.
pub proof fn lemma_count_byte_of_response(response: KafkaResponseView)
    requires
        response.encodable(),
    ensures
        match response {
            KafkaResponseView::ApiVersions(inner) => response_bytes(response)[6]
                == inner.api_key_versions.len() + 1,
            KafkaResponseView::Fetch(inner) => response_bytes(response)[14]
                == inner.responses.len() + 1,
            KafkaResponseView::Error(_) => true,
        },
{
    let bytes = response_bytes(response);
    assert(bytes.subrange(0, bytes.len() as int) =~= bytes);
    match response {
        KafkaResponseView::ApiVersions(inner) => {
            let id = int32_bytes(inner.correlation_id);
            let code = int16_bytes(NONE);
            let count = seq![compact_count(inner.api_key_versions.len())];
            let keys = api_keys_bytes(inner.api_key_versions);
            let throttle = int32_bytes(0);
            lemma_int_bytes_len(NONE, inner.correlation_id, 0);
            lemma_occurs_at_split(bytes, 0, id + code + count + keys + throttle, seq![TAG_BUFFER]);
            lemma_occurs_at_split(bytes, 0, id + code + count + keys, throttle);
            lemma_occurs_at_split(bytes, 0, id + code + count, keys);
            lemma_occurs_at_split(bytes, 0, id + code, count);
            lemma_byte_at(bytes, 6, compact_count(inner.api_key_versions.len()));
        },
        KafkaResponseView::Fetch(inner) => {
            let throttle = int32_bytes(inner.throttle_time_ms);
            let id = int32_bytes(inner.correlation_id);
            let code = int16_bytes(NONE);
            let session = int32_bytes(inner.session_id);
            let count = seq![compact_count(inner.responses.len())];
            let topics = response_topics_bytes(inner.responses);
            lemma_int_bytes_len(NONE, inner.throttle_time_ms, 0);
            lemma_int_bytes_len(0, inner.correlation_id, 0);
            lemma_int_bytes_len(0, inner.session_id, 0);
            lemma_occurs_at_split(
                bytes,
                0,
                throttle + id + code + session + count + topics,
                seq![TAG_BUFFER],
            );
            lemma_occurs_at_split(bytes, 0, throttle + id + code + session + count, topics);
            lemma_occurs_at_split(bytes, 0, throttle + id + code + session, count);
            lemma_byte_at(bytes, 14, compact_count(inner.responses.len()));
        },
        KafkaResponseView::Error(_) => {},
    }
}

/// In the bytes of a topic of a fetch response, the partitions are announced
/// at offset 16 by one byte that holds their number plus one.
pub proof fn lemma_count_byte_of_topic(topic: ResponseTopicView)
    requires
        topic.encodable(),
    ensures
        response_topic_bytes(topic)[16] == topic.partitions.len() + 1,
{
    let bytes = response_topic_bytes(topic);
    let id = int128_bytes(topic.topic_id);
    let count = seq![compact_count(topic.partitions.len())];
    let partitions = response_partitions_bytes(topic.partitions);
    assert(bytes.subrange(0, bytes.len() as int) =~= bytes);
    lemma_int_bytes_len(0, 0, topic.topic_id);
    lemma_occurs_at_split(bytes, 0, id + count + partitions, seq![TAG_BUFFER]);
    lemma_occurs_at_split(bytes, 0, id + count, partitions);
    lemma_occurs_at_split(bytes, 0, id, count);
    lemma_byte_at(bytes, 16, compact_count(topic.partitions.len()));
}

/// The error response that stands at `pos` in `data`, and where it ends.
pub open spec fn error_response_at(data: Seq<u8>, pos: int) -> Option<(ErrorResponse, int)> {
    if pos + 6 > data.len() {
        None
    } else {
        Some(
            (
                ErrorResponse {
                    correlation_id: int_at(data, pos, 4) as i32,
                    error_code: int_at(data, pos + 4, 2) as i16,
                },
                pos + 6,
            ),
        )
    }
}

/// An error response is read back from where it was written.
pub proof fn lemma_error_response_round_trip(data: Seq<u8>, pos: int, response: ErrorResponse)
    requires
        occurs_at(data, pos, error_response_bytes(response)),
    ensures
        error_response_at(data, pos) == Some(
            (response, pos + error_response_bytes(response).len()),
        ),
{
    lemma_int_bytes_len(response.error_code, response.correlation_id, 0);
    lemma_occurs_at_split(
        data,
        pos,
        int32_bytes(response.correlation_id),
        int16_bytes(response.error_code),
    );
    lemma_int32_at(data, pos, response.correlation_id);
    lemma_int16_at(data, pos + 4, response.error_code);
}

/// The entry of the version table that stands at `pos` in `data`.
pub open spec fn api_key_at(data: Seq<u8>, pos: int) -> ApiKeyVerInfo {
    ApiKeyVerInfo {
        id: int_at(data, pos, 2) as i16,
        min: int_at(data, pos + 2, 2) as i16,
        max: int_at(data, pos + 4, 2) as i16,
    }
}

/// The version-negotiation response that stands at `pos` in `data`, and
/// where it ends. The error code, the throttle time and the tag bytes are
/// passed over.
pub open spec fn api_versions_response_at(data: Seq<u8>, pos: int) -> Option<
    (ApiVersionsResponseView, int),
> {
    if pos + 7 > data.len() {
        None
    } else {
        match compact_len(data[pos + 6]) {
            None => None,
            Some(count) => if pos + 7 + 7 * count + 5 > data.len() {
                None
            } else {
                Some(
                    (
                        ApiVersionsResponseView {
                            correlation_id: int_at(data, pos, 4) as i32,
                            api_key_versions: Seq::new(
                                count,
                                |i: int| api_key_at(data, pos + 7 + 7 * i),
                            ),
                        },
                        pos + 7 + 7 * count + 5,
                    ),
                )
            },
        }
    }
}

/// An entry of the version table is read back from where it was written.
proof fn lemma_api_key_at(data: Seq<u8>, pos: int, info: ApiKeyVerInfo)
    requires
        occurs_at(data, pos, api_key_bytes(info)),
    ensures
        api_key_at(data, pos) == info,
{
    let id = int16_bytes(info.id);
    let min = int16_bytes(info.min);
    let max = int16_bytes(info.max);
    lemma_int_bytes_len(info.id, 0, 0);
    lemma_int_bytes_len(info.min, 0, 0);
    lemma_int_bytes_len(info.max, 0, 0);
    lemma_occurs_at_split(data, pos, id + min + max, seq![TAG_BUFFER]);
    lemma_occurs_at_split(data, pos, id + min, max);
    lemma_occurs_at_split(data, pos, id, min);
    lemma_int16_at(data, pos, info.id);
    lemma_int16_at(data, pos + 2, info.min);
    lemma_int16_at(data, pos + 4, info.max);
}

/// The entries of the version table are read back, each from its place.
proof fn lemma_api_keys_at(data: Seq<u8>, pos: int, infos: Seq<ApiKeyVerInfo>)
    requires
        occurs_at(data, pos, api_keys_bytes(infos)),
    ensures
        forall|i: int| 0 <= i < infos.len() ==> api_key_at(data, pos + 7 * i) == #[trigger] infos[i],
    decreases infos.len(),
{
    if infos.len() > 0 {
        let first = infos.first();
        let rest = infos.drop_first();
        lemma_int_bytes_len(first.id, 0, 0);
        lemma_int_bytes_len(first.min, 0, 0);
        lemma_int_bytes_len(first.max, 0, 0);
        lemma_occurs_at_split(data, pos, api_key_bytes(first), api_keys_bytes(rest));
        lemma_api_key_at(data, pos, first);
        lemma_api_keys_at(data, pos + 7, rest);
        assert forall|i: int| 0 <= i < infos.len() implies api_key_at(data, pos + 7 * i)
            == #[trigger] infos[i] by {
            if i > 0 {
                assert(rest[i - 1] == infos[i]);
                assert(pos + 7 + 7 * (i - 1) == pos + 7 * i);
            }
        }
    }
}

/// A version-negotiation response with at most [`MAX_COMPACT_LEN`] entries
/// is read back from where it was written.
pub proof fn lemma_api_versions_round_trip(
    data: Seq<u8>,
    pos: int,
    response: ApiVersionsResponseView,
)
    requires
        response.api_key_versions.len() <= MAX_COMPACT_LEN,
        occurs_at(data, pos, api_versions_bytes(response)),
    ensures
        api_versions_response_at(data, pos) == Some(
            (response, pos + api_versions_bytes(response).len()),
        ),
{
    let infos = response.api_key_versions;
    let id = int32_bytes(response.correlation_id);
    let code = int16_bytes(NONE);
    let count = seq![compact_count(infos.len())];
    let keys = api_keys_bytes(infos);
    let throttle = int32_bytes(0);
    lemma_int_bytes_len(NONE, response.correlation_id, 0);
    lemma_int_bytes_len(0, 0, 0);
    lemma_api_keys_len(infos);
    lemma_occurs_at_split(data, pos, id + code + count + keys + throttle, seq![TAG_BUFFER]);
    lemma_occurs_at_split(data, pos, id + code + count + keys, throttle);
    lemma_occurs_at_split(data, pos, id + code + count, keys);
    lemma_occurs_at_split(data, pos, id + code, count);
    lemma_occurs_at_split(data, pos, id, code);
    lemma_int32_at(data, pos, response.correlation_id);
    lemma_byte_at(data, pos + 6, compact_count(infos.len()));
    lemma_api_keys_at(data, pos + 7, infos);
    match api_versions_response_at(data, pos) {
        Some((found, _)) => {
            assert(found.api_key_versions =~= infos);
        },
        None => {},
    }
}

/// The partition of a fetch response that stands at `pos` in `data`.
pub open spec fn response_partition_at(data: Seq<u8>, pos: int) -> ResponsePartition {
    ResponsePartition {
        partition_index: int_at(data, pos, 4) as i32,
        error_code: int_at(data, pos + 4, 2) as i16,
    }
}

/// The topic of a fetch response that stands at `pos` in `data`, and where
/// it ends. The tag bytes are passed over.
pub open spec fn response_topic_at(data: Seq<u8>, pos: int) -> Option<(ResponseTopicView, int)> {
    if pos + 17 > data.len() {
        None
    } else {
        match compact_len(data[pos + 16]) {
            None => None,
            Some(count) => if pos + 17 + 7 * count + 1 > data.len() {
                None
            } else {
                Some(
                    (
                        ResponseTopicView {
                            topic_id: int_at(data, pos, 16) as i128,
                            partitions: Seq::new(
                                count,
                                |i: int| response_partition_at(data, pos + 17 + 7 * i),
                            ),
                        },
                        pos + 17 + 7 * count + 1,
                    ),
                )
            },
        }
    }
}

/// The `count` topics of a fetch response that stand one after the other
/// from `pos` on, and where they end.
pub open spec fn response_topics_at(data: Seq<u8>, pos: int, count: nat) -> Option<
    (Seq<ResponseTopicView>, int),
>
    decreases count,
{
    if count == 0 {
        Some((Seq::empty(), pos))
    } else {
        match response_topic_at(data, pos) {
            None => None,
            Some((topic, next)) => match response_topics_at(data, next, (count - 1) as nat) {
                None => None,
                Some((rest, end)) => Some((seq![topic] + rest, end)),
            },
        }
    }
}

/// The fetch response that stands at `pos` in `data`, and where it ends.
/// The error code and the tag bytes are passed over.
pub open spec fn fetch_response_at(data: Seq<u8>, pos: int) -> Option<(FetchResponseView, int)> {
    if pos + 15 > data.len() {
        None
    } else {
        match compact_len(data[pos + 14]) {
            None => None,
            Some(count) => match response_topics_at(data, pos + 15, count) {
                None => None,
                Some((responses, end)) => if end + 1 > data.len() {
                    None
                } else {
                    Some(
                        (
                            FetchResponseView {
                                correlation_id: int_at(data, pos + 4, 4) as i32,
                                throttle_time_ms: int_at(data, pos, 4) as i32,
                                session_id: int_at(data, pos + 10, 4) as i32,
                                responses,
                            },
                            end + 1,
                        ),
                    )
                },
            },
        }
    }
}

/// A partition of a fetch response is read back from where it was written.
proof fn lemma_response_partition_at(data: Seq<u8>, pos: int, partition: ResponsePartition)
    requires
        occurs_at(data, pos, response_partition_bytes(partition)),
    ensures
        response_partition_at(data, pos) == partition,
{
    let index = int32_bytes(partition.partition_index);
    let code = int16_bytes(partition.error_code);
    lemma_int_bytes_len(partition.error_code, partition.partition_index, 0);
    lemma_occurs_at_split(data, pos, index + code, seq![TAG_BUFFER]);
    lemma_occurs_at_split(data, pos, index, code);
    lemma_int32_at(data, pos, partition.partition_index);
    lemma_int16_at(data, pos + 4, partition.error_code);
}

/// The partitions of a topic are read back, each from its place.
proof fn lemma_response_partitions_at(data: Seq<u8>, pos: int, partitions: Seq<ResponsePartition>)
    requires
        occurs_at(data, pos, response_partitions_bytes(partitions)),
    ensures
        forall|i: int|
            0 <= i < partitions.len() ==> response_partition_at(data, pos + 7 * i)
                == #[trigger] partitions[i],
    decreases partitions.len(),
{
    if partitions.len() > 0 {
        let first = partitions.first();
        let rest = partitions.drop_first();
        lemma_int_bytes_len(first.error_code, first.partition_index, 0);
        lemma_occurs_at_split(
            data,
            pos,
            response_partition_bytes(first),
            response_partitions_bytes(rest),
        );
        lemma_response_partition_at(data, pos, first);
        lemma_response_partitions_at(data, pos + 7, rest);
        assert forall|i: int| 0 <= i < partitions.len() implies response_partition_at(
            data,
            pos + 7 * i,
        ) == #[trigger] partitions[i] by {
            if i > 0 {
                assert(rest[i - 1] == partitions[i]);
                assert(pos + 7 + 7 * (i - 1) == pos + 7 * i);
            }
        }
    }
}

/// A topic with at most [`MAX_COMPACT_LEN`] partitions is read back from
/// where it was written.
pub proof fn lemma_response_topic_round_trip(data: Seq<u8>, pos: int, topic: ResponseTopicView)
    requires
        topic.encodable(),
        occurs_at(data, pos, response_topic_bytes(topic)),
    ensures
        response_topic_at(data, pos) == Some((topic, pos + response_topic_bytes(topic).len())),
{
    let id = int128_bytes(topic.topic_id);
    let count = seq![compact_count(topic.partitions.len())];
    let partitions = response_partitions_bytes(topic.partitions);
    lemma_int_bytes_len(0, 0, topic.topic_id);
    lemma_response_partitions_len(topic.partitions);
    lemma_occurs_at_split(data, pos, id + count + partitions, seq![TAG_BUFFER]);
    lemma_occurs_at_split(data, pos, id + count, partitions);
    lemma_occurs_at_split(data, pos, id, count);
    lemma_int128_at(data, pos, topic.topic_id);
    lemma_byte_at(data, pos + 16, compact_count(topic.partitions.len()));
    lemma_response_partitions_at(data, pos + 17, topic.partitions);
    match response_topic_at(data, pos) {
        Some((found, _)) => {
            assert(found.partitions =~= topic.partitions);
        },
        None => {},
    }
}

/// Topics that can be encoded are read back from where they were written.
pub proof fn lemma_response_topics_round_trip(
    data: Seq<u8>,
    pos: int,
    topics: Seq<ResponseTopicView>,
)
    requires
        forall|i: int| 0 <= i < topics.len() ==> (#[trigger] topics[i]).encodable(),
        occurs_at(data, pos, response_topics_bytes(topics)),
    ensures
        response_topics_at(data, pos, topics.len()) == Some(
            (topics, pos + response_topics_bytes(topics).len()),
        ),
    decreases topics.len(),
{
    if topics.len() == 0 {
        assert(topics =~= Seq::<ResponseTopicView>::empty());
    } else {
        let first = topics.first();
        let rest = topics.drop_first();
        assert(topics[0].encodable());
        assert forall|i: int| 0 <= i < rest.len() implies (#[trigger] rest[i]).encodable() by {
            assert(topics[i + 1].encodable());
        }
        lemma_occurs_at_split(data, pos, response_topic_bytes(first), response_topics_bytes(rest));
        lemma_response_topic_round_trip(data, pos, first);
        lemma_response_topics_round_trip(data, pos + response_topic_bytes(first).len(), rest);
        assert(seq![first] + rest =~= topics);
    }
}

/// A fetch response that can be encoded is read back from where it was
/// written.
pub proof fn lemma_fetch_response_round_trip(data: Seq<u8>, pos: int, response: FetchResponseView)
    requires
        response.responses.len() <= MAX_COMPACT_LEN,
        forall|i: int|
            0 <= i < response.responses.len() ==> (#[trigger] response.responses[i]).encodable(),
        occurs_at(data, pos, fetch_response_bytes(response)),
    ensures
        fetch_response_at(data, pos) == Some(
            (response, pos + fetch_response_bytes(response).len()),
        ),
{
    let throttle = int32_bytes(response.throttle_time_ms);
    let id = int32_bytes(response.correlation_id);
    let code = int16_bytes(NONE);
    let session = int32_bytes(response.session_id);
    let count = seq![compact_count(response.responses.len())];
    let topics = response_topics_bytes(response.responses);
    lemma_int_bytes_len(NONE, response.throttle_time_ms, 0);
    lemma_int_bytes_len(0, response.correlation_id, 0);
    lemma_int_bytes_len(0, response.session_id, 0);
    lemma_occurs_at_split(
        data,
        pos,
        throttle + id + code + session + count + topics,
        seq![TAG_BUFFER],
    );
    lemma_occurs_at_split(data, pos, throttle + id + code + session + count, topics);
    lemma_occurs_at_split(data, pos, throttle + id + code + session, count);
    lemma_occurs_at_split(data, pos, throttle + id + code, session);
    lemma_occurs_at_split(data, pos, throttle + id, code);
    lemma_occurs_at_split(data, pos, throttle, id);
    lemma_int32_at(data, pos, response.throttle_time_ms);
    lemma_int32_at(data, pos + 4, response.correlation_id);
    lemma_int32_at(data, pos + 10, response.session_id);
    lemma_byte_at(data, pos + 14, compact_count(response.responses.len()));
    lemma_response_topics_round_trip(data, pos + 15, response.responses);
}

/// What a peer reads from `data` when it expects a response of the same
/// kind as `expected`.
pub open spec fn response_at(data: Seq<u8>, pos: int, expected: KafkaResponseView) -> Option<
    (KafkaResponseView, int),
> {
    match expected {
        KafkaResponseView::ApiVersions(_) => match api_versions_response_at(data, pos) {
            Some((response, end)) => Some((KafkaResponseView::ApiVersions(response), end)),
            None => None,
        },
        KafkaResponseView::Error(_) => match error_response_at(data, pos) {
            Some((response, end)) => Some((KafkaResponseView::Error(response), end)),
            None => None,
        },
        KafkaResponseView::Fetch(_) => match fetch_response_at(data, pos) {
            Some((response, end)) => Some((KafkaResponseView::Fetch(response), end)),
            None => None,
        },
    }
}

/// Decoding the bytes of a response gives the response back, for every
/// response whose lists can be counted in one byte, and uses up all of the
/// bytes.
pub proof fn lemma_response_round_trip(response: KafkaResponseView)
    requires
        response.encodable(),
    ensures
        response_at(response_bytes(response), 0, response) == Some(
            (response, response_bytes(response).len() as int),
        ),
{
    let bytes = response_bytes(response);
    assert(bytes.subrange(0, bytes.len() as int) =~= bytes);
    match response {
        KafkaResponseView::ApiVersions(response) => {
            lemma_api_versions_round_trip(bytes, 0, response);
        },
        KafkaResponseView::Error(response) => {
            lemma_error_response_round_trip(bytes, 0, response);
        },
        KafkaResponseView::Fetch(response) => {
            lemma_fetch_response_round_trip(bytes, 0, response);
        },
    }
}

/// The layout of a nullable text: an absent text is the length `-1` and
/// nothing else; a present text of `k` bytes is the length `k` in 16 bits
/// followed by exactly those `k` bytes.
pub proof fn lemma_nullable_text_layout(text: Option<Seq<char>>)
    requires
        text matches Some(text) ==> encode_utf8(text).len() <= MAX_TEXT_LEN,
    ensures
        match text {
            None => {
                &&& nullable_text_bytes(text) == int16_bytes(-1i16)
                &&& nullable_text_bytes(text).len() == 2
            },
            Some(text) => {
                let length = encode_utf8(text).len();
                let bytes = nullable_text_bytes(Some(text));
                &&& bytes.len() == 2 + length
                &&& int_at(bytes, 0, 2) == length
                &&& bytes.subrange(2, 2 + length as int) == encode_utf8(text)
            },
        },
{
    match text {
        None => {
            lemma_int_bytes_len(-1i16, 0, 0);
        },
        Some(text) => {
            let length = encode_utf8(text).len();
            let bytes = nullable_text_bytes(Some(text));
            lemma_int_bytes_len(length as i16, 0, 0);
            assert(bytes.subrange(0, bytes.len() as int) =~= bytes);
            lemma_occurs_at_split(bytes, 0, int16_bytes(length as i16), encode_utf8(text));
            lemma_int16_at(bytes, 0, length as i16);
        },
    }
}

/// A nullable text is read back from where it was written: absent as
/// absent, present with the characters it had.
pub proof fn lemma_nullable_text_round_trip(data: Seq<u8>, pos: int, text: Option<Seq<char>>)
    requires
        text matches Some(text) ==> encode_utf8(text).len() <= MAX_TEXT_LEN,
        occurs_at(data, pos, nullable_text_bytes(text)),
    ensures
        nullable_text_at(data, pos) == Ok::<(Option<Seq<char>>, int), crate::errors::KafkaError>(
            (text, pos + nullable_text_bytes(text).len()),
        ),
{
    match text {
        None => {
            lemma_int_bytes_len(-1i16, 0, 0);
            lemma_int16_at(data, pos, -1i16);
        },
        Some(text) => {
            let length = encode_utf8(text).len();
            lemma_int_bytes_len(length as i16, 0, 0);
            lemma_occurs_at_split(data, pos, int16_bytes(length as i16), encode_utf8(text));
            lemma_int16_at(data, pos, length as i16);
            encode_utf8_valid_utf8(text);
            encode_utf8_decode_utf8(text);
        },
    }
}

} // verus!
