//! Requests as they arrive on the wire: the common header and the body of a
//! fetch request, each with the exact layout it is decoded from.

use vstd::prelude::*;
use crate::errors::{CorruptedField, IoErrorKind, KafkaError};
use crate::readers::{
    nullable_text_at, read_int128, read_int16, read_int32, read_int64, read_int8,
    read_nullable_string, text_view, Cursor,
};
use crate::wire::int_at;

verus! {

/// One partition that a fetch request asks for.
#[derive(Clone, Copy, Debug, PartialEq, Eq, Structural)]
pub struct RequestPartition {
    pub partition: i32,
    pub current_leader_epoch: i32,
    pub fetch_offset: i64,
    pub last_fetched_epoch: i32,
    pub log_start_offset: i64,
    pub partition_max_bytes: i32,
}

/// One topic that a fetch request asks for, with its partitions in order.
#[derive(Clone, Debug, PartialEq, Eq)]
pub struct RequestTopic {
    pub topic_id: i128,
    pub partitions: Vec<RequestPartition>,
}

/// What a [`RequestTopic`] stands for.
pub struct RequestTopicView {
    pub topic_id: i128,
    pub partitions: Seq<RequestPartition>,
}

impl View for RequestTopic {
    type V = RequestTopicView;

    open spec fn view(&self) -> RequestTopicView {
        RequestTopicView { topic_id: self.topic_id, partitions: self.partitions@ }
    }
}

/// Bytes that one partition of a fetched topic takes on the wire: six
/// integers and one tag byte.
pub const PARTITION_WIDTH: usize = 33;

/// The partition that stands at `pos` in `data`.
pub open spec fn partition_at(data: Seq<u8>, pos: int) -> RequestPartition {
    RequestPartition {
        partition: int_at(data, pos, 4) as i32,
        current_leader_epoch: int_at(data, pos + 4, 4) as i32,
        fetch_offset: int_at(data, pos + 8, 8) as i64,
        last_fetched_epoch: int_at(data, pos + 16, 4) as i32,
        log_start_offset: int_at(data, pos + 20, 8) as i64,
        partition_max_bytes: int_at(data, pos + 28, 4) as i32,
    }
}

/// The `count` partitions that stand one after the other from `pos` on, and
/// where they end; an unexpected end where `data` is too short for them.
pub open spec fn partitions_at(data: Seq<u8>, pos: int, count: nat) -> Result<
    (Seq<RequestPartition>, int),
    KafkaError,
> {
    if pos + PARTITION_WIDTH * count > data.len() {
        Err(KafkaError::Io(IoErrorKind::UnexpectedEof))
    } else {
        Ok(
            (
                Seq::new(count, |i: int| partition_at(data, pos + PARTITION_WIDTH * i)),
                pos + PARTITION_WIDTH * count,
            ),
        )
    }
}

/// Reads the six fields of one partition and skips its tag byte.
fn read_partition(cursor: &mut Cursor) -> (result: Result<RequestPartition, KafkaError>)
    ensures
        final(cursor)@.bytes == old(cursor)@.bytes,
        match result {
            Ok(partition) => {
                &&& old(cursor)@.pos + PARTITION_WIDTH <= old(cursor)@.bytes.len()
                &&& partition == partition_at(old(cursor)@.bytes, old(cursor)@.pos as int)
                &&& final(cursor)@.pos == old(cursor)@.pos + PARTITION_WIDTH
            },
            Err(error) => {
                &&& old(cursor)@.pos + PARTITION_WIDTH > old(cursor)@.bytes.len()
                &&& error == KafkaError::Io(IoErrorKind::UnexpectedEof)
            },
        },
{
    let partition = read_int32(cursor)?;
    let current_leader_epoch = read_int32(cursor)?;
    let fetch_offset = read_int64(cursor)?;
    let last_fetched_epoch = read_int32(cursor)?;
    let log_start_offset = read_int64(cursor)?;
    let partition_max_bytes = read_int32(cursor)?;
    let _ = read_int8(cursor)?;
    Ok(
        RequestPartition {
            partition,
            current_leader_epoch,
            fetch_offset,
            last_fetched_epoch,
            log_start_offset,
            partition_max_bytes,
        },
    )
}

/// Reads `count` partitions one after the other.
fn read_partitions(cursor: &mut Cursor, count: i32) -> (result: Result<
    Vec<RequestPartition>,
    KafkaError,
>)
    requires
        count >= 0,
    ensures
        final(cursor)@.bytes == old(cursor)@.bytes,
        match partitions_at(old(cursor)@.bytes, old(cursor)@.pos as int, count as nat) {
            Ok((partitions, next)) => {
                &&& result matches Ok(found)
                &&& found@ == partitions
                &&& final(cursor)@.pos == next
            },
            Err(error) => result matches Err(found) && found == error,
        },
{
    let ghost data = cursor@.bytes;
    let ghost start = cursor@.pos as int;
    proof {
        cursor.lemma_in_bounds();
    }
    let mut partitions: Vec<RequestPartition> = Vec::new();
    let mut index: i32 = 0;
    while index < count
        invariant
            0 <= index <= count,
            data == old(cursor)@.bytes,
            start == old(cursor)@.pos,
            cursor@.bytes == data,
            cursor@.pos == start + PARTITION_WIDTH * index,
            cursor@.pos <= data.len(),
            partitions@.len() == index,
            forall|i: int|
                0 <= i < index ==> #[trigger] partitions@[i] == partition_at(
                    data,
                    start + PARTITION_WIDTH * i,
                ),
        decreases count - index,
    {
        let partition = read_partition(cursor)?;
        partitions.push(partition);
        index = index + 1;
    }
    proof {
        assert(partitions@ =~= Seq::new(
            count as nat,
            |i: int| partition_at(data, start + PARTITION_WIDTH * i),
        ));
    }
    Ok(partitions)
}

/// Bytes that stand before the partitions of a topic: its identifier and the
/// number of partitions.
pub const TOPIC_HEADER_WIDTH: usize = 20;

/// The topic that stands at `pos` in `data`, and where it ends.
///
/// A topic is a 128-bit identifier, a 32-bit number of partitions and then
/// the partitions. A negative number of partitions is a corrupted message.
pub open spec fn topic_at(data: Seq<u8>, pos: int) -> Result<(RequestTopicView, int), KafkaError> {
    if pos + TOPIC_HEADER_WIDTH > data.len() {
        Err(KafkaError::Io(IoErrorKind::UnexpectedEof))
    } else {
        let count = int_at(data, pos + 16, 4);
        if count < 0 {
            Err(KafkaError::CorruptedMessage(CorruptedField::PartitionCount, count as i32))
        } else {
            match partitions_at(data, pos + TOPIC_HEADER_WIDTH, count as nat) {
                Err(error) => Err(error),
                Ok((partitions, next)) => Ok(
                    (
                        RequestTopicView { topic_id: int_at(data, pos, 16) as i128, partitions },
                        next,
                    ),
                ),
            }
        }
    }
}

/// The items `done`, followed by what `rest` found; the failure of `rest`
/// where it found none.
pub open spec fn preceded_by<T>(done: Seq<T>, rest: Result<(Seq<T>, int), KafkaError>) -> Result<
    (Seq<T>, int),
    KafkaError,
> {
    match rest {
        Ok((items, next)) => Ok((done + items, next)),
        Err(error) => Err(error),
    }
}

/// The `count` topics that stand one after the other from `pos` on, and where
/// they end; the first failure where one of them does not decode.
pub open spec fn topics_at(data: Seq<u8>, pos: int, count: nat) -> Result<
    (Seq<RequestTopicView>, int),
    KafkaError,
>
    decreases count,
{
    if count == 0 {
        Ok((Seq::empty(), pos))
    } else {
        match topic_at(data, pos) {
            Err(error) => Err(error),
            Ok((topic, next)) => preceded_by(seq![topic], topics_at(data, next, (count - 1) as nat)),
        }
    }
}

/// What a list of topics stands for.
pub open spec fn topic_views(topics: Seq<RequestTopic>) -> Seq<RequestTopicView> {
    topics.map_values(|topic: RequestTopic| topic@)
}

/// Reads one topic with its partitions.
fn read_topic(cursor: &mut Cursor) -> (result: Result<RequestTopic, KafkaError>)
    ensures
        final(cursor)@.bytes == old(cursor)@.bytes,
        match topic_at(old(cursor)@.bytes, old(cursor)@.pos as int) {
            Ok((topic, next)) => {
                &&& result matches Ok(found)
                &&& found@ == topic
                &&& final(cursor)@.pos == next
            },
            Err(error) => result matches Err(found) && found == error,
        },
{
    let topic_id = read_int128(cursor)?;
    let count = read_int32(cursor)?;
    if count < 0 {
        return Err(KafkaError::CorruptedMessage(CorruptedField::PartitionCount, count));
    }
    let partitions = read_partitions(cursor, count)?;
    Ok(RequestTopic { topic_id, partitions })
}

/// Reads `count` topics one after the other.
fn read_topics(cursor: &mut Cursor, count: i32) -> (result: Result<Vec<RequestTopic>, KafkaError>)
    requires
        count >= 0,
    ensures
        final(cursor)@.bytes == old(cursor)@.bytes,
        match topics_at(old(cursor)@.bytes, old(cursor)@.pos as int, count as nat) {
            Ok((topics, next)) => {
                &&& result matches Ok(found)
                &&& topic_views(found@) == topics
                &&& final(cursor)@.pos == next
            },
            Err(error) => result matches Err(found) && found == error,
        },
{
    let ghost data = cursor@.bytes;
    let ghost start = cursor@.pos as int;
    proof {
        cursor.lemma_in_bounds();
    }
    let mut topics: Vec<RequestTopic> = Vec::new();
    let mut index: i32 = 0;
    proof {
        let all = topics_at(data, start, count as nat);
        assert(preceded_by(topic_views(topics@), all) == all) by {
            if let Ok((items, next)) = all {
                assert(topic_views(topics@) + items =~= items);
            }
        }
    }
    while index < count
        invariant
            0 <= index <= count,
            data == old(cursor)@.bytes,
            start == old(cursor)@.pos,
            start <= data.len(),
            cursor@.bytes == data,
            topics_at(data, start, count as nat) == preceded_by(
                topic_views(topics@),
                topics_at(data, cursor@.pos as int, (count - index) as nat),
            ),
        decreases count - index,
    {
        let ghost done = topic_views(topics@);
        let ghost here = cursor@.pos as int;
        let topic = read_topic(cursor)?;
        proof {
            let after = topics_at(data, cursor@.pos as int, (count - index - 1) as nat);
            assert(topic_views(topics@.push(topic)) =~= done.push(topic@));
            if let Ok((items, next)) = after {
                assert(done.push(topic@) + items =~= done + (seq![topic@] + items));
            }
        }
        topics.push(topic);
        index = index + 1;
    }
    proof {
        assert(topic_views(topics@) + Seq::<RequestTopicView>::empty() =~= topic_views(topics@));
    }
    Ok(topics)
}

/// One topic that a fetch request takes out of the session, with the
/// partitions concerned.
#[derive(Clone, Debug, PartialEq, Eq)]
pub struct ForgottenTopic {
    pub topic_id: i128,
    pub partitions: Vec<i32>,
}

/// What a [`ForgottenTopic`] stands for.
pub struct ForgottenTopicView {
    pub topic_id: i128,
    pub partitions: Seq<i32>,
}

impl View for ForgottenTopic {
    type V = ForgottenTopicView;

    open spec fn view(&self) -> ForgottenTopicView {
        ForgottenTopicView { topic_id: self.topic_id, partitions: self.partitions@ }
    }
}

/// The `count` partition numbers that stand one after the other from `pos`
/// on, and where they end; an unexpected end where `data` is too short.
pub open spec fn partition_numbers_at(data: Seq<u8>, pos: int, count: nat) -> Result<
    (Seq<i32>, int),
    KafkaError,
> {
    if pos + 4 * count > data.len() {
        Err(KafkaError::Io(IoErrorKind::UnexpectedEof))
    } else {
        Ok((Seq::new(count, |i: int| int_at(data, pos + 4 * i, 4) as i32), pos + 4 * count))
    }
}

/// The forgotten topic that stands at `pos` in `data`, and where it ends.
///
/// It is a 128-bit identifier, a 32-bit number of partitions and then that
/// many 32-bit partition numbers. A negative number of partitions is a
/// corrupted message.
pub open spec fn forgotten_topic_at(data: Seq<u8>, pos: int) -> Result<
    (ForgottenTopicView, int),
    KafkaError,
> {
    if pos + TOPIC_HEADER_WIDTH > data.len() {
        Err(KafkaError::Io(IoErrorKind::UnexpectedEof))
    } else {
        let count = int_at(data, pos + 16, 4);
        if count < 0 {
            Err(KafkaError::CorruptedMessage(CorruptedField::PartitionCount, count as i32))
        } else {
            match partition_numbers_at(data, pos + TOPIC_HEADER_WIDTH, count as nat) {
                Err(error) => Err(error),
                Ok((partitions, next)) => Ok(
                    (
                        ForgottenTopicView { topic_id: int_at(data, pos, 16) as i128, partitions },
                        next,
                    ),
                ),
            }
        }
    }
}

/// The `count` forgotten topics that stand one after the other from `pos`
/// on, and where they end; the first failure where one does not decode.
pub open spec fn forgotten_topics_at(data: Seq<u8>, pos: int, count: nat) -> Result<
    (Seq<ForgottenTopicView>, int),
    KafkaError,
>
    decreases count,
{
    if count == 0 {
        Ok((Seq::empty(), pos))
    } else {
        match forgotten_topic_at(data, pos) {
            Err(error) => Err(error),
            Ok((topic, next)) => preceded_by(
                seq![topic],
                forgotten_topics_at(data, next, (count - 1) as nat),
            ),
        }
    }
}

/// What a list of forgotten topics stands for.
pub open spec fn forgotten_topic_views(topics: Seq<ForgottenTopic>) -> Seq<ForgottenTopicView> {
    topics.map_values(|topic: ForgottenTopic| topic@)
}

/// Reads `count` partition numbers one after the other.
fn read_partition_numbers(cursor: &mut Cursor, count: i32) -> (result: Result<Vec<i32>, KafkaError>)
    requires
        count >= 0,
    ensures
        final(cursor)@.bytes == old(cursor)@.bytes,
        match partition_numbers_at(old(cursor)@.bytes, old(cursor)@.pos as int, count as nat) {
            Ok((partitions, next)) => {
                &&& result matches Ok(found)
                &&& found@ == partitions
                &&& final(cursor)@.pos == next
            },
            Err(error) => result matches Err(found) && found == error,
        },
{
    let ghost data = cursor@.bytes;
    let ghost start = cursor@.pos as int;
    proof {
        cursor.lemma_in_bounds();
    }
    let mut partitions: Vec<i32> = Vec::new();
    let mut index: i32 = 0;
    while index < count
        invariant
            0 <= index <= count,
            data == old(cursor)@.bytes,
            start == old(cursor)@.pos,
            cursor@.bytes == data,
            cursor@.pos == start + 4 * index,
            cursor@.pos <= data.len(),
            partitions@.len() == index,
            forall|i: int|
                0 <= i < index ==> #[trigger] partitions@[i] == int_at(data, start + 4 * i, 4),
        decreases count - index,
    {
        let partition = read_int32(cursor)?;
        partitions.push(partition);
        index = index + 1;
    }
    proof {
        assert(partitions@ =~= Seq::new(
            count as nat,
            |i: int| int_at(data, start + 4 * i, 4) as i32,
        ));
    }
    Ok(partitions)
}

/// Reads one forgotten topic with its partition numbers.
fn read_forgotten_topic(cursor: &mut Cursor) -> (result: Result<ForgottenTopic, KafkaError>)
    ensures
        final(cursor)@.bytes == old(cursor)@.bytes,
        match forgotten_topic_at(old(cursor)@.bytes, old(cursor)@.pos as int) {
            Ok((topic, next)) => {
                &&& result matches Ok(found)
                &&& found@ == topic
                &&& final(cursor)@.pos == next
            },
            Err(error) => result matches Err(found) && found == error,
        },
{
    let topic_id = read_int128(cursor)?;
    let count = read_int32(cursor)?;
    if count < 0 {
        return Err(KafkaError::CorruptedMessage(CorruptedField::PartitionCount, count));
    }
    let partitions = read_partition_numbers(cursor, count)?;
    Ok(ForgottenTopic { topic_id, partitions })
}

/// Reads `count` forgotten topics one after the other.
fn read_forgotten_topics(cursor: &mut Cursor, count: i32) -> (result: Result<
    Vec<ForgottenTopic>,
    KafkaError,
>)
    requires
        count >= 0,
    ensures
        final(cursor)@.bytes == old(cursor)@.bytes,
        match forgotten_topics_at(old(cursor)@.bytes, old(cursor)@.pos as int, count as nat) {
            Ok((topics, next)) => {
                &&& result matches Ok(found)
                &&& forgotten_topic_views(found@) == topics
                &&& final(cursor)@.pos == next
            },
            Err(error) => result matches Err(found) && found == error,
        },
{
    let ghost data = cursor@.bytes;
    let ghost start = cursor@.pos as int;
    proof {
        cursor.lemma_in_bounds();
    }
    let mut topics: Vec<ForgottenTopic> = Vec::new();
    let mut index: i32 = 0;
    proof {
        let all = forgotten_topics_at(data, start, count as nat);
        assert(preceded_by(forgotten_topic_views(topics@), all) == all) by {
            if let Ok((items, next)) = all {
                assert(forgotten_topic_views(topics@) + items =~= items);
            }
        }
    }
    while index < count
        invariant
            0 <= index <= count,
            data == old(cursor)@.bytes,
            start == old(cursor)@.pos,
            start <= data.len(),
            cursor@.bytes == data,
            forgotten_topics_at(data, start, count as nat) == preceded_by(
                forgotten_topic_views(topics@),
                forgotten_topics_at(data, cursor@.pos as int, (count - index) as nat),
            ),
        decreases count - index,
    {
        let ghost done = forgotten_topic_views(topics@);
        let topic = read_forgotten_topic(cursor)?;
        proof {
            let after = forgotten_topics_at(data, cursor@.pos as int, (count - index - 1) as nat);
            assert(forgotten_topic_views(topics@.push(topic)) =~= done.push(topic@));
            if let Ok((items, next)) = after {
                assert(done.push(topic@) + items =~= done + (seq![topic@] + items));
            }
        }
        topics.push(topic);
        index = index + 1;
    }
    proof {
        assert(forgotten_topic_views(topics@) + Seq::<ForgottenTopicView>::empty()
            =~= forgotten_topic_views(topics@));
    }
    Ok(topics)
}

/// The header that every request starts with.
#[derive(Clone, Debug, PartialEq, Eq)]
pub struct KafkaRequestHeader {
    pub api_key: i16,
    pub api_ver: i16,
    pub correlation_id: i32,
    pub client_id: Option<String>,
}

/// What a [`KafkaRequestHeader`] stands for.
pub struct KafkaRequestHeaderView {
    pub api_key: i16,
    pub api_ver: i16,
    pub correlation_id: i32,
    pub client_id: Option<Seq<char>>,
}

impl View for KafkaRequestHeader {
    type V = KafkaRequestHeaderView;

    open spec fn view(&self) -> KafkaRequestHeaderView {
        KafkaRequestHeaderView {
            api_key: self.api_key,
            api_ver: self.api_ver,
            correlation_id: self.correlation_id,
            client_id: text_view(self.client_id),
        }
    }
}

/// Bytes that the integers of a request header take: API key, API version
/// and correlation identifier.
pub const HEADER_FIXED_WIDTH: usize = 8;

/// The request header that stands at `pos` in `data`, and where it ends.
///
/// A header is a 16-bit API key, a 16-bit API version, a 32-bit correlation
/// identifier and a nullable text that names the client.
pub open spec fn header_at(data: Seq<u8>, pos: int) -> Result<
    (KafkaRequestHeaderView, int),
    KafkaError,
> {
    if pos + HEADER_FIXED_WIDTH > data.len() {
        Err(KafkaError::Io(IoErrorKind::UnexpectedEof))
    } else {
        match nullable_text_at(data, pos + HEADER_FIXED_WIDTH) {
            Err(error) => Err(error),
            Ok((client_id, next)) => Ok(
                (
                    KafkaRequestHeaderView {
                        api_key: int_at(data, pos, 2) as i16,
                        api_ver: int_at(data, pos + 2, 2) as i16,
                        correlation_id: int_at(data, pos + 4, 4) as i32,
                        client_id,
                    },
                    next,
                ),
            ),
        }
    }
}

impl KafkaRequestHeader {
    /// Reads a request header and leaves the cursor at the first byte of the
    /// request body.
    pub fn read(cursor: &mut Cursor) -> (result: Result<Self, KafkaError>)
        ensures
            final(cursor)@.bytes == old(cursor)@.bytes,
                match header_at(old(cursor)@.bytes, old(cursor)@.pos as int) {
                Ok((header, next)) => {
                    &&& result matches Ok(found)
                    &&& found@ == header
                    &&& final(cursor)@.pos == next
                },
                Err(error) => result matches Err(found) && found == error,
            },
    {
        let api_key = read_int16(cursor)?;
        let api_ver = read_int16(cursor)?;
        let correlation_id = read_int32(cursor)?;
        let client_id = read_nullable_string(cursor)?;
        Ok(KafkaRequestHeader { api_key, api_ver, correlation_id, client_id })
    }

    /// Decodes the request header at the start of `buffer`.
    pub fn parse(buffer: &[u8]) -> (result: Result<Self, KafkaError>)
        ensures
            match header_at(buffer@, 0) {
                Ok((header, _)) => result matches Ok(found) && found@ == header,
                Err(error) => result matches Err(found) && found == error,
            },
    {
        let mut cursor = Cursor::new(buffer);
        KafkaRequestHeader::read(&mut cursor)
    }
}

/// The body of a fetch request, with the correlation identifier of the
/// request it came in.
#[derive(Clone, Debug, PartialEq, Eq)]
pub struct FetchRequest {
    pub correlation_id: i32,
    pub max_wait_ms: i32,
    pub min_bytes: i32,
    pub max_bytes: i32,
    pub isolation_level: i8,
    pub session_id: i32,
    pub session_epoch: i32,
    pub topics: Vec<RequestTopic>,
    pub forgotten_topics: Vec<ForgottenTopic>,
    pub rack_id: String,
}

/// What a [`FetchRequest`] stands for.
pub struct FetchRequestView {
    pub correlation_id: i32,
    pub max_wait_ms: i32,
    pub min_bytes: i32,
    pub max_bytes: i32,
    pub isolation_level: i8,
    pub session_id: i32,
    pub session_epoch: i32,
    pub topics: Seq<RequestTopicView>,
    pub forgotten_topics: Seq<ForgottenTopicView>,
    pub rack_id: Seq<char>,
}

impl View for FetchRequest {
    type V = FetchRequestView;

    open spec fn view(&self) -> FetchRequestView {
        FetchRequestView {
            correlation_id: self.correlation_id,
            max_wait_ms: self.max_wait_ms,
            min_bytes: self.min_bytes,
            max_bytes: self.max_bytes,
            isolation_level: self.isolation_level,
            session_id: self.session_id,
            session_epoch: self.session_epoch,
            topics: topic_views(self.topics@),
            forgotten_topics: forgotten_topic_views(self.forgotten_topics@),
            rack_id: self.rack_id@,
        }
    }
}

/// Bytes that stand before the topics of a fetch request: six integers and
/// the number of topics.
pub const FETCH_FIXED_WIDTH: usize = 25;

/// The forgotten topics and the rack identifier that end a fetch request:
/// what stands in `body` from `pos` on, after the last topic.
///
/// These are a tag byte, the 32-bit number of forgotten topics, those topics,
/// another tag byte and the rack identifier as a nullable text, where an
/// absent text counts as the empty one.
pub open spec fn fetch_tail_at(body: Seq<u8>, pos: int) -> Result<
    (Seq<ForgottenTopicView>, Seq<char>),
    KafkaError,
> {
    if pos + 5 > body.len() {
        Err(KafkaError::Io(IoErrorKind::UnexpectedEof))
    } else {
        let count = int_at(body, pos + 1, 4);
        if count < 0 {
            Err(KafkaError::CorruptedMessage(CorruptedField::ForgottenTopicCount, count as i32))
        } else {
            match forgotten_topics_at(body, pos + 5, count as nat) {
                Err(error) => Err(error),
                Ok((forgotten_topics, end)) => if end + 1 > body.len() {
                    Err(KafkaError::Io(IoErrorKind::UnexpectedEof))
                } else {
                    match nullable_text_at(body, end + 1) {
                        Err(error) => Err(error),
                        Ok((rack_id, _)) => Ok(
                            (
                                forgotten_topics,
                                match rack_id {
                                    Some(text) => text,
                                    None => Seq::empty(),
                                },
                            ),
                        ),
                    }
                },
            }
        }
    }
}

/// The fetch request that `body` holds, or the first failure met in
/// decoding it.
///
/// The body starts with `max_wait_ms`, `min_bytes` and `max_bytes` (32 bits
/// each), `isolation_level` (8 bits), `session_id` and `session_epoch` (32
/// bits each) and the 32-bit number of topics. The topics follow, and then
/// what [`fetch_tail_at`] describes. A negative number of topics is a
/// corrupted message. Bytes after the rack identifier are not looked at.
pub open spec fn fetch_request_of(body: Seq<u8>, correlation_id: i32) -> Result<
    FetchRequestView,
    KafkaError,
> {
    if FETCH_FIXED_WIDTH > body.len() {
        Err(KafkaError::Io(IoErrorKind::UnexpectedEof))
    } else {
        let count = int_at(body, 21, 4);
        if count < 0 {
            Err(KafkaError::CorruptedMessage(CorruptedField::TopicCount, count as i32))
        } else {
            match topics_at(body, FETCH_FIXED_WIDTH as int, count as nat) {
                Err(error) => Err(error),
                Ok((topics, end)) => match fetch_tail_at(body, end) {
                    Err(error) => Err(error),
                    Ok((forgotten_topics, rack_id)) => Ok(
                        FetchRequestView {
                            correlation_id,
                            max_wait_ms: int_at(body, 0, 4) as i32,
                            min_bytes: int_at(body, 4, 4) as i32,
                            max_bytes: int_at(body, 8, 4) as i32,
                            isolation_level: int_at(body, 12, 1) as i8,
                            session_id: int_at(body, 13, 4) as i32,
                            session_epoch: int_at(body, 17, 4) as i32,
                            topics,
                            forgotten_topics,
                            rack_id,
                        },
                    ),
                },
            }
        }
    }
}

impl FetchRequest {
    /// Decodes the body of a fetch request.
    ///
    /// `buffer` starts at the first byte after the request header;
    /// `correlation_id` is taken over from that header.
    pub fn parse(buffer: &[u8], correlation_id: i32) -> (result: Result<FetchRequest, KafkaError>)
        ensures
            match fetch_request_of(buffer@, correlation_id) {
                Ok(request) => result matches Ok(found) && found@ == request,
                Err(error) => result matches Err(found) && found == error,
            },
    {
        let mut cursor = Cursor::new(buffer);
        let max_wait_ms = read_int32(&mut cursor)?;
        let min_bytes = read_int32(&mut cursor)?;
        let max_bytes = read_int32(&mut cursor)?;
        let isolation_level = read_int8(&mut cursor)?;
        let session_id = read_int32(&mut cursor)?;
        let session_epoch = read_int32(&mut cursor)?;

        let topics_size = read_int32(&mut cursor)?;
        if topics_size < 0 {
            return Err(KafkaError::CorruptedMessage(CorruptedField::TopicCount, topics_size));
        }
        let topics = read_topics(&mut cursor, topics_size)?;

        let _ = read_int8(&mut cursor)?;
        let forgotten_size = read_int32(&mut cursor)?;
        if forgotten_size < 0 {
            return Err(
                KafkaError::CorruptedMessage(CorruptedField::ForgottenTopicCount, forgotten_size),
            );
        }
        let forgotten_topics = read_forgotten_topics(&mut cursor, forgotten_size)?;

        let _ = read_int8(&mut cursor)?;
        let rack_id = match read_nullable_string(&mut cursor)? {
            Some(text) => text,
            None => String::new(),
        };

        Ok(
            FetchRequest {
                correlation_id,
                max_wait_ms,
                min_bytes,
                max_bytes,
                isolation_level,
                session_id,
                session_epoch,
                topics,
                forgotten_topics,
                rack_id,
            },
        )
    }
}

} // verus!
