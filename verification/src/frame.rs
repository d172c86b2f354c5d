//! Frames: the length prefix that precedes every request and response, and
//! the answer to one whole request frame.

use vstd::prelude::*;
use crate::dispatch::{reply_to, respond};
use crate::errors::{IoErrorKind, KafkaError};
use crate::readers::{read_int32, Cursor};
use crate::request::{header_at, KafkaRequestHeader};
use crate::response::{encode_response, lemma_response_len, response_bytes, MAX_RESPONSE_LEN};
use crate::wire::{int_at, lemma_int_at_occurrence, lemma_occurs_at_split, lemma_pow256_values};
use crate::writers::{int32_bytes, lemma_int_bytes_len, put_int32};

verus! {

/// Bytes that the length of a frame takes on the wire.
pub const LENGTH_WIDTH: usize = 4;

/// Longest request frame that is accepted, in bytes.
pub const MAX_FRAME_SIZE: i32 = 1_000_000;

/// The number of bytes of the frame that the length prefix `prefix`
/// announces.
///
/// The prefix is a 32-bit integer. A prefix of fewer than four bytes is an
/// unexpected end; a length that is not positive, or greater than
/// [`MAX_FRAME_SIZE`], is an invalid length.
pub open spec fn frame_length_of(prefix: Seq<u8>) -> Result<nat, KafkaError> {
    if prefix.len() < LENGTH_WIDTH {
        Err(KafkaError::Io(IoErrorKind::UnexpectedEof))
    } else {
        let length = int_at(prefix, 0, 4);
        if length <= 0 || length > MAX_FRAME_SIZE {
            Err(KafkaError::InvalidMessageLength(length as i32))
        } else {
            Ok(length as nat)
        }
    }
}

/// Reads the length of the frame that follows from its prefix.
pub fn frame_length(prefix: &[u8]) -> (result: Result<usize, KafkaError>)
    ensures
        match frame_length_of(prefix@) {
            Ok(length) => result == Ok::<usize, KafkaError>(length as usize),
            Err(error) => result == Err::<usize, KafkaError>(error),
        },
        result matches Ok(length) ==> 0 < length <= MAX_FRAME_SIZE,
{
    let mut cursor = Cursor::new(prefix);
    let size = read_int32(&mut cursor)?;
    if size <= 0 || size > MAX_FRAME_SIZE {
        return Err(KafkaError::InvalidMessageLength(size));
    }
    Ok(size as usize)
}

/// A payload as it goes on the wire: its length in 32 bits, then its bytes.
pub open spec fn framed(payload: Seq<u8>) -> Seq<u8> {
    int32_bytes(payload.len() as i32) + payload
}

/// Puts the length of `payload` in front of it.
///
/// The length must fit the 32-bit prefix.
pub fn frame_payload(payload: &[u8]) -> (frame: Vec<u8>)
    requires
        payload@.len() <= i32::MAX,
    ensures
        frame@ == framed(payload@),
{
    let mut frame: Vec<u8> = Vec::new();
    put_int32(&mut frame, payload.len() as i32);
    let ghost prefix = frame@;
    let mut index: usize = 0;
    while index < payload.len()
        invariant
            index <= payload@.len(),
            frame@ == prefix + payload@.take(index as int),
        decreases payload@.len() - index,
    {
        frame.push(payload[index]);
        index = index + 1;
        proof {
            assert(frame@ =~= prefix + payload@.take(index as int));
        }
    }
    proof {
        assert(payload@.take(index as int) =~= payload@);
    }
    frame
}

/// The response frame that answers the request frame `frame`; `None` where
/// the header of the request does not decode, so that nothing can be
/// answered.
///
/// The body of the request is what follows its header in the frame.
pub open spec fn answer_to(frame: Seq<u8>) -> Option<Seq<u8>> {
    match header_at(frame, 0) {
        Err(_) => None,
        Ok((header, body_start)) => Some(
            framed(
                response_bytes(reply_to(header, frame.subrange(body_start, frame.len() as int))),
            ),
        ),
    }
}

/// Answers one request frame with a response frame, length prefix included.
///
/// Returns `None` where the header does not decode: no correlation
/// identifier can then be trusted, and the connection is to be closed without
/// an answer.
pub fn handle_frame(frame: &[u8]) -> (answer: Option<Vec<u8>>)
    ensures
        match answer_to(frame@) {
            Some(bytes) => answer matches Some(found) && found@ == bytes,
            None => answer is None,
        },
{
    let mut cursor = Cursor::new(frame);
    let header = match KafkaRequestHeader::read(&mut cursor) {
        Err(_) => { return None; },
        Ok(header) => header,
    };
    let body = cursor.remaining();
    let response = respond(&header, body);
    let payload = encode_response(&response);
    proof {
        lemma_response_len(response@);
    }
    Some(frame_payload(payload.as_slice()))
}

/// A length prefix that spells `length` announces a frame of `length` bytes
/// where `length` is positive and at most [`MAX_FRAME_SIZE`], and is refused
/// as an invalid length for every other integer.
pub proof fn lemma_frame_length_of_prefix(length: i32)
    ensures
        frame_length_of(int32_bytes(length)) == if length <= 0 || length > MAX_FRAME_SIZE {
            Err::<nat, KafkaError>(KafkaError::InvalidMessageLength(length))
        } else {
            Ok::<nat, KafkaError>(length as nat)
        },
{
    let prefix = int32_bytes(length);
    lemma_int_bytes_len(0, length, 0);
    lemma_pow256_values();
    assert(prefix.subrange(0, 4) =~= prefix);
    lemma_int_at_occurrence(prefix, 0, length as int, 4);
}

/// A framed payload announces its own length and carries the payload
/// unchanged behind the prefix.
pub proof fn lemma_framed_layout(payload: Seq<u8>)
    requires
        payload.len() <= i32::MAX,
    ensures
        framed(payload).len() == LENGTH_WIDTH + payload.len(),
        int_at(framed(payload), 0, 4) == payload.len(),
        framed(payload).subrange(LENGTH_WIDTH as int, framed(payload).len() as int) == payload,
{
    let frame = framed(payload);
    let prefix = int32_bytes(payload.len() as i32);
    lemma_int_bytes_len(0, payload.len() as i32, 0);
    lemma_pow256_values();
    assert(frame.subrange(0, frame.len() as int) =~= frame);
    lemma_occurs_at_split(frame, 0, prefix, payload);
    lemma_int_at_occurrence(frame, 0, payload.len() as int, 4);
}

/// Whatever is answered is a whole frame: the length that its prefix
/// announces is the number of bytes that follow, and it is positive.
pub proof fn lemma_answer_is_framed(frame: Seq<u8>)
    ensures
        answer_to(frame) matches Some(answer) ==> {
            &&& 0 < int_at(answer, 0, 4) <= MAX_RESPONSE_LEN
            &&& answer.len() == LENGTH_WIDTH + int_at(answer, 0, 4)
        },
{
    if let Ok((header, body_start)) = header_at(frame, 0) {
        let body = frame.subrange(body_start, frame.len() as int);
        let response = reply_to(header, body);
        crate::dispatch::lemma_reply_is_encodable(header, body);
        lemma_response_len(response);
        crate::response::lemma_response_is_not_empty(response);
        lemma_framed_layout(response_bytes(response));
    }
}

} // verus!
