//! Responses and their layout on the wire.

use vstd::prelude::*;
use crate::errors::NONE;
use crate::writers::{
    int128_bytes, int16_bytes, int32_bytes, lemma_int_bytes_len, put_int128, put_int16, put_int32,
};

verus! {

/// The byte that stands at every tag-buffer position.
pub const TAG_BUFFER: u8 = 0;

/// Most elements that a list can have on the wire, where its length is
/// written as one byte that holds the length plus one.
pub const MAX_COMPACT_LEN: usize = 254;

/// The byte that announces a list of `count` elements.
pub open spec fn compact_count(count: nat) -> u8 {
    (count + 1) as u8
}

/// The versions of one API that the broker serves.
#[derive(Clone, Copy, Debug, PartialEq, Eq, Structural)]
pub struct ApiKeyVerInfo {
    pub id: i16,
    pub min: i16,
    pub max: i16,
}

/// The answer to a version-negotiation request.
#[derive(Clone, Debug, PartialEq, Eq)]
pub struct ApiVersionsResponse {
    pub correlation_id: i32,
    pub api_key_versions: Vec<ApiKeyVerInfo>,
}

/// What an [`ApiVersionsResponse`] stands for.
pub struct ApiVersionsResponseView {
    pub correlation_id: i32,
    pub api_key_versions: Seq<ApiKeyVerInfo>,
}

impl View for ApiVersionsResponse {
    type V = ApiVersionsResponseView;

    open spec fn view(&self) -> ApiVersionsResponseView {
        ApiVersionsResponseView {
            correlation_id: self.correlation_id,
            api_key_versions: self.api_key_versions@,
        }
    }
}

/// The state of one partition in the answer to a fetch request.
#[derive(Clone, Copy, Debug, PartialEq, Eq, Structural)]
pub struct ResponsePartition {
    pub partition_index: i32,
    pub error_code: i16,
}

/// One topic in the answer to a fetch request, with its partitions in order.
#[derive(Clone, Debug, PartialEq, Eq)]
pub struct ResponseTopic {
    pub topic_id: i128,
    pub partitions: Vec<ResponsePartition>,
}

/// What a [`ResponseTopic`] stands for.
pub struct ResponseTopicView {
    pub topic_id: i128,
    pub partitions: Seq<ResponsePartition>,
}

impl View for ResponseTopic {
    type V = ResponseTopicView;

    open spec fn view(&self) -> ResponseTopicView {
        ResponseTopicView { topic_id: self.topic_id, partitions: self.partitions@ }
    }
}

/// What a list of response topics stands for.
pub open spec fn response_topic_views(topics: Seq<ResponseTopic>) -> Seq<ResponseTopicView> {
    topics.map_values(|topic: ResponseTopic| topic@)
}

/// The answer to a fetch request.
#[derive(Clone, Debug, PartialEq, Eq)]
pub struct FetchResponse {
    pub correlation_id: i32,
    pub throttle_time_ms: i32,
    pub session_id: i32,
    pub responses: Vec<ResponseTopic>,
}

/// What a [`FetchResponse`] stands for.
pub struct FetchResponseView {
    pub correlation_id: i32,
    pub throttle_time_ms: i32,
    pub session_id: i32,
    pub responses: Seq<ResponseTopicView>,
}

impl View for FetchResponse {
    type V = FetchResponseView;

    open spec fn view(&self) -> FetchResponseView {
        FetchResponseView {
            correlation_id: self.correlation_id,
            throttle_time_ms: self.throttle_time_ms,
            session_id: self.session_id,
            responses: response_topic_views(self.responses@),
        }
    }
}

/// The answer to a request that could not be served.
#[derive(Clone, Copy, Debug, PartialEq, Eq, Structural)]
pub struct ErrorResponse {
    pub correlation_id: i32,
    pub error_code: i16,
}

/// Any answer the broker gives.
#[derive(Clone, Debug, PartialEq, Eq)]
pub enum KafkaResponse {
    ApiVersions(ApiVersionsResponse),
    Error(ErrorResponse),
    Fetch(FetchResponse),
}

/// What a [`KafkaResponse`] stands for.
pub enum KafkaResponseView {
    ApiVersions(ApiVersionsResponseView),
    Error(ErrorResponse),
    Fetch(FetchResponseView),
}

impl View for KafkaResponse {
    type V = KafkaResponseView;

    open spec fn view(&self) -> KafkaResponseView {
        match self {
            KafkaResponse::ApiVersions(response) => KafkaResponseView::ApiVersions(response@),
            KafkaResponse::Error(response) => KafkaResponseView::Error(*response),
            KafkaResponse::Fetch(response) => KafkaResponseView::Fetch(response@),
        }
    }
}

/// One entry of the version table on the wire: identifier, lowest and highest
/// version in 16 bits each, and a tag byte.
pub open spec fn api_key_bytes(info: ApiKeyVerInfo) -> Seq<u8> {
    int16_bytes(info.id) + int16_bytes(info.min) + int16_bytes(info.max) + seq![TAG_BUFFER]
}

/// The entries of the version table on the wire, one after the other.
pub open spec fn api_keys_bytes(infos: Seq<ApiKeyVerInfo>) -> Seq<u8>
    decreases infos.len(),
{
    if infos.len() == 0 {
        Seq::empty()
    } else {
        api_key_bytes(infos.first()) + api_keys_bytes(infos.drop_first())
    }
}

/// A version-negotiation response on the wire: correlation identifier, the
/// error code for success, the number of entries plus one in one byte, the
/// entries, a throttle time of zero and a tag byte.
pub open spec fn api_versions_bytes(response: ApiVersionsResponseView) -> Seq<u8> {
    int32_bytes(response.correlation_id) + int16_bytes(NONE) + seq![
        compact_count(response.api_key_versions.len()),
    ] + api_keys_bytes(response.api_key_versions) + int32_bytes(0) + seq![TAG_BUFFER]
}

/// One partition of a fetch response on the wire: its index in 32 bits, its
/// error code in 16 bits and a tag byte.
pub open spec fn response_partition_bytes(partition: ResponsePartition) -> Seq<u8> {
    int32_bytes(partition.partition_index) + int16_bytes(partition.error_code) + seq![TAG_BUFFER]
}

/// The partitions of one topic of a fetch response, one after the other.
pub open spec fn response_partitions_bytes(partitions: Seq<ResponsePartition>) -> Seq<u8>
    decreases partitions.len(),
{
    if partitions.len() == 0 {
        Seq::empty()
    } else {
        response_partition_bytes(partitions.first()) + response_partitions_bytes(
            partitions.drop_first(),
        )
    }
}

/// One topic of a fetch response on the wire: its identifier in 128 bits, the
/// number of partitions plus one in one byte, the partitions and a tag byte.
pub open spec fn response_topic_bytes(topic: ResponseTopicView) -> Seq<u8> {
    int128_bytes(topic.topic_id) + seq![compact_count(topic.partitions.len())]
        + response_partitions_bytes(topic.partitions) + seq![TAG_BUFFER]
}

/// The topics of a fetch response, one after the other.
pub open spec fn response_topics_bytes(topics: Seq<ResponseTopicView>) -> Seq<u8>
    decreases topics.len(),
{
    if topics.len() == 0 {
        Seq::empty()
    } else {
        response_topic_bytes(topics.first()) + response_topics_bytes(topics.drop_first())
    }
}

/// A fetch response on the wire: throttle time, correlation identifier, the
/// error code for success, session identifier, the number of topics plus one
/// in one byte, the topics and a tag byte.
pub open spec fn fetch_response_bytes(response: FetchResponseView) -> Seq<u8> {
    int32_bytes(response.throttle_time_ms) + int32_bytes(response.correlation_id) + int16_bytes(
        NONE,
    ) + int32_bytes(response.session_id) + seq![compact_count(response.responses.len())]
        + response_topics_bytes(response.responses) + seq![TAG_BUFFER]
}

/// An error response on the wire: correlation identifier and error code.
pub open spec fn error_response_bytes(response: ErrorResponse) -> Seq<u8> {
    int32_bytes(response.correlation_id) + int16_bytes(response.error_code)
}

/// A response on the wire.
pub open spec fn response_bytes(response: KafkaResponseView) -> Seq<u8> {
    match response {
        KafkaResponseView::ApiVersions(response) => api_versions_bytes(response),
        KafkaResponseView::Error(response) => error_response_bytes(response),
        KafkaResponseView::Fetch(response) => fetch_response_bytes(response),
    }
}

impl ResponseTopicView {
    /// Whether the partitions can be counted in one byte.
    pub open spec fn encodable(self) -> bool {
        self.partitions.len() <= MAX_COMPACT_LEN
    }
}

impl KafkaResponseView {
    /// The correlation identifier that the response carries.
    pub open spec fn correlation_id(self) -> i32 {
        match self {
            KafkaResponseView::ApiVersions(response) => response.correlation_id,
            KafkaResponseView::Error(response) => response.correlation_id,
            KafkaResponseView::Fetch(response) => response.correlation_id,
        }
    }

    /// Whether every list of the response can be counted in one byte.
    pub open spec fn encodable(self) -> bool {
        match self {
            KafkaResponseView::ApiVersions(response) => response.api_key_versions.len()
                <= MAX_COMPACT_LEN,
            KafkaResponseView::Error(_) => true,
            KafkaResponseView::Fetch(response) => {
                &&& response.responses.len() <= MAX_COMPACT_LEN
                &&& forall|i: int|
                    0 <= i < response.responses.len() ==> (#[trigger] response.responses[i]).encodable()
            },
        }
    }
}

/// Most bytes that a response with lists of at most [`MAX_COMPACT_LEN`]
/// elements takes on the wire.
pub const MAX_RESPONSE_LEN: usize = 456_200;

/// Every entry of the version table takes seven bytes.
pub proof fn lemma_api_keys_len(infos: Seq<ApiKeyVerInfo>)
    ensures
        api_keys_bytes(infos).len() == 7 * infos.len(),
    decreases infos.len(),
{
    if infos.len() > 0 {
        let info = infos.first();
        lemma_int_bytes_len(info.id, 0, 0);
        lemma_int_bytes_len(info.min, 0, 0);
        lemma_int_bytes_len(info.max, 0, 0);
        lemma_api_keys_len(infos.drop_first());
    }
}

/// Every partition of a fetch response takes seven bytes.
pub proof fn lemma_response_partitions_len(partitions: Seq<ResponsePartition>)
    ensures
        response_partitions_bytes(partitions).len() == 7 * partitions.len(),
    decreases partitions.len(),
{
    if partitions.len() > 0 {
        let partition = partitions.first();
        lemma_int_bytes_len(partition.error_code, partition.partition_index, 0);
        lemma_response_partitions_len(partitions.drop_first());
    }
}

/// A topic of a fetch response takes eighteen bytes and seven more for each
/// of its partitions.
pub proof fn lemma_response_topic_len(topic: ResponseTopicView)
    ensures
        response_topic_bytes(topic).len() == 18 + 7 * topic.partitions.len(),
{
    lemma_int_bytes_len(0, 0, topic.topic_id);
    lemma_response_partitions_len(topic.partitions);
}

/// Topics whose partitions can be counted in one byte take at most 1796
/// bytes each.
pub proof fn lemma_response_topics_len(topics: Seq<ResponseTopicView>)
    requires
        forall|i: int| 0 <= i < topics.len() ==> (#[trigger] topics[i]).encodable(),
    ensures
        response_topics_bytes(topics).len() <= 1796 * topics.len(),
    decreases topics.len(),
{
    if topics.len() > 0 {
        let rest = topics.drop_first();
        assert(topics[0].encodable());
        assert forall|i: int| 0 <= i < rest.len() implies (#[trigger] rest[i]).encodable() by {
            assert(topics[i + 1].encodable());
        }
        lemma_response_topic_len(topics.first());
        lemma_response_topics_len(rest);
    }
}

/// A response that can be encoded takes at most [`MAX_RESPONSE_LEN`] bytes.
pub proof fn lemma_response_len(response: KafkaResponseView)
    requires
        response.encodable(),
    ensures
        response_bytes(response).len() <= MAX_RESPONSE_LEN,
{
    match response {
        KafkaResponseView::ApiVersions(response) => {
            lemma_int_bytes_len(NONE, response.correlation_id, 0);
            lemma_int_bytes_len(0, 0, 0);
            lemma_api_keys_len(response.api_key_versions);
        },
        KafkaResponseView::Error(response) => {
            lemma_int_bytes_len(response.error_code, response.correlation_id, 0);
        },
        KafkaResponseView::Fetch(response) => {
            lemma_int_bytes_len(NONE, response.correlation_id, 0);
            lemma_int_bytes_len(0, response.throttle_time_ms, 0);
            lemma_int_bytes_len(0, response.session_id, 0);
            lemma_response_topics_len(response.responses);
        },
    }
}

/// Every response takes at least six bytes.
pub proof fn lemma_response_is_not_empty(response: KafkaResponseView)
    ensures
        response_bytes(response).len() >= 6,
{
    match response {
        KafkaResponseView::ApiVersions(response) => {
            lemma_int_bytes_len(NONE, response.correlation_id, 0);
        },
        KafkaResponseView::Error(response) => {
            lemma_int_bytes_len(response.error_code, response.correlation_id, 0);
        },
        KafkaResponseView::Fetch(response) => {
            lemma_int_bytes_len(NONE, response.throttle_time_ms, 0);
        },
    }
}

/// Appends the byte that announces a list of `count` elements.
fn put_compact_count(out: &mut Vec<u8>, count: usize)
    requires
        count <= MAX_COMPACT_LEN,
    ensures
        final(out)@ == old(out)@ + seq![compact_count(count as nat)],
{
    out.push((count + 1) as u8);
    proof {
        assert(out@ =~= old(out)@ + seq![compact_count(count as nat)]);
    }
}

/// Appends a tag byte.
fn put_tag_buffer(out: &mut Vec<u8>)
    ensures
        final(out)@ == old(out)@ + seq![TAG_BUFFER],
{
    out.push(TAG_BUFFER);
    proof {
        assert(out@ =~= old(out)@ + seq![TAG_BUFFER]);
    }
}

/// Appends the entries of the version table.
fn put_api_keys(out: &mut Vec<u8>, infos: &Vec<ApiKeyVerInfo>)
    ensures
        final(out)@ == old(out)@ + api_keys_bytes(infos@),
{
    let mut index: usize = 0;
    proof {
        assert(infos@.skip(0) =~= infos@);
    }
    while index < infos.len()
        invariant
            index <= infos@.len(),
            out@ + api_keys_bytes(infos@.skip(index as int)) == old(out)@ + api_keys_bytes(infos@),
        decreases infos@.len() - index,
    {
        let info = infos[index];
        let ghost before = out@;
        let ghost rest = infos@.skip(index as int);
        put_int16(out, info.id);
        put_int16(out, info.min);
        put_int16(out, info.max);
        put_tag_buffer(out);
        proof {
            assert(rest.first() == info);
            assert(rest.drop_first() =~= infos@.skip(index + 1));
            assert(out@ =~= before + api_key_bytes(info));
            assert(out@ + api_keys_bytes(infos@.skip(index + 1)) =~= before + api_keys_bytes(rest));
        }
        index = index + 1;
    }
    proof {
        assert(out@ + api_keys_bytes(infos@.skip(index as int)) =~= out@);
    }
}

/// Appends the partitions of one topic.
fn put_response_partitions(out: &mut Vec<u8>, partitions: &Vec<ResponsePartition>)
    ensures
        final(out)@ == old(out)@ + response_partitions_bytes(partitions@),
{
    let mut index: usize = 0;
    proof {
        assert(partitions@.skip(0) =~= partitions@);
    }
    while index < partitions.len()
        invariant
            index <= partitions@.len(),
            out@ + response_partitions_bytes(partitions@.skip(index as int)) == old(out)@
                + response_partitions_bytes(partitions@),
        decreases partitions@.len() - index,
    {
        let partition = partitions[index];
        let ghost before = out@;
        let ghost rest = partitions@.skip(index as int);
        put_int32(out, partition.partition_index);
        put_int16(out, partition.error_code);
        put_tag_buffer(out);
        proof {
            assert(rest.first() == partition);
            assert(rest.drop_first() =~= partitions@.skip(index + 1));
            assert(out@ =~= before + response_partition_bytes(partition));
            assert(out@ + response_partitions_bytes(partitions@.skip(index + 1)) =~= before
                + response_partitions_bytes(rest));
        }
        index = index + 1;
    }
    proof {
        assert(out@ + response_partitions_bytes(partitions@.skip(index as int)) =~= out@);
    }
}

/// Appends the topics of a fetch response.
fn put_response_topics(out: &mut Vec<u8>, topics: &Vec<ResponseTopic>)
    requires
        forall|i: int|
            0 <= i < topics@.len() ==> (#[trigger] response_topic_views(topics@)[i]).encodable(),
    ensures
        final(out)@ == old(out)@ + response_topics_bytes(response_topic_views(topics@)),
{
    let ghost views = response_topic_views(topics@);
    let mut index: usize = 0;
    proof {
        assert(views.skip(0) =~= views);
    }
    while index < topics.len()
        invariant
            index <= topics@.len(),
            views == response_topic_views(topics@),
            forall|i: int| 0 <= i < topics@.len() ==> (#[trigger] views[i]).encodable(),
            out@ + response_topics_bytes(views.skip(index as int)) == old(out)@
                + response_topics_bytes(views),
        decreases topics@.len() - index,
    {
        let topic = &topics[index];
        let ghost before = out@;
        let ghost rest = views.skip(index as int);
        proof {
            assert(views[index as int] == topic@);
        }
        put_int128(out, topic.topic_id);
        put_compact_count(out, topic.partitions.len());
        put_response_partitions(out, &topic.partitions);
        put_tag_buffer(out);
        proof {
            assert(rest.first() == topic@);
            assert(rest.drop_first() =~= views.skip(index + 1));
            assert(out@ =~= before + response_topic_bytes(topic@));
            assert(out@ + response_topics_bytes(views.skip(index + 1)) =~= before
                + response_topics_bytes(rest));
        }
        index = index + 1;
    }
    proof {
        assert(out@ + response_topics_bytes(views.skip(index as int)) =~= out@);
    }
}

/// Lays a response out in the bytes that go on the wire, without the frame
/// length.
///
/// No list of the response may hold more than [`MAX_COMPACT_LEN`] elements:
/// a longer one has no length on the wire.
pub fn encode_response(response: &KafkaResponse) -> (bytes: Vec<u8>)
    requires
        response@.encodable(),
    ensures
        bytes@ == response_bytes(response@),
{
    let mut out: Vec<u8> = Vec::new();
    match response {
        KafkaResponse::ApiVersions(api_versions) => {
            put_int32(&mut out, api_versions.correlation_id);
            put_int16(&mut out, NONE);
            put_compact_count(&mut out, api_versions.api_key_versions.len());
            put_api_keys(&mut out, &api_versions.api_key_versions);
            put_int32(&mut out, 0);
            put_tag_buffer(&mut out);
            proof {
                assert(out@ =~= api_versions_bytes(api_versions@));
            }
        },
        KafkaResponse::Fetch(fetch) => {
            put_int32(&mut out, fetch.throttle_time_ms);
            put_int32(&mut out, fetch.correlation_id);
            put_int16(&mut out, NONE);
            put_int32(&mut out, fetch.session_id);
            put_compact_count(&mut out, fetch.responses.len());
            put_response_topics(&mut out, &fetch.responses);
            put_tag_buffer(&mut out);
            proof {
                assert(out@ =~= fetch_response_bytes(fetch@));
            }
        },
        KafkaResponse::Error(error) => {
            put_int32(&mut out, error.correlation_id);
            put_int16(&mut out, error.error_code);
            proof {
                assert(out@ =~= error_response_bytes(*error));
            }
        },
    }
    out
}

} // verus!
