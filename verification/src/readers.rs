//! A read position over a byte buffer, and the primitive readers of the wire
//! format: fixed-width big-endian integers and nullable text.

use vstd::prelude::*;
use vstd::utf8::{decode_utf8, encode_utf8, valid_utf8};
use crate::errors::{IoErrorKind, KafkaError};
use crate::wire::{
    be_unsigned, int_at, lemma_be_unsigned_bound, lemma_pow256_monotonic, lemma_pow256_values,
};

verus! {

/// A buffer of bytes together with the position of the next byte to read.
pub struct Cursor<'a> {
    data: &'a [u8],
    pos: usize,
}

/// What a [`Cursor`] stands for: the whole buffer and how far it has been read.
pub struct CursorView {
    pub bytes: Seq<u8>,
    pub pos: nat,
}

impl<'a> View for Cursor<'a> {
    type V = CursorView;

    /// The position is read as at most the length of the buffer, where the
    /// invariant of the type keeps it: so the bound holds of every cursor that
    /// a contract speaks of.
    closed spec fn view(&self) -> CursorView {
        CursorView {
            bytes: self.data@,
            pos: if self.pos <= self.data@.len() {
                self.pos as nat
            } else {
                self.data@.len()
            },
        }
    }
}

impl<'a> Cursor<'a> {
    #[verifier::type_invariant]
    spec fn in_bounds(self) -> bool {
        self.pos <= self.data@.len()
    }

    /// A cursor at the start of `data`.
    pub fn new(data: &'a [u8]) -> (cursor: Self)
        ensures
            cursor@.bytes == data@,
            cursor@.pos == 0,
    {
        Cursor { data, pos: 0 }
    }

    /// The position never passes the end of the buffer.
    pub proof fn lemma_in_bounds(&self)
        ensures
            self@.pos <= self@.bytes.len(),
    {
    }

    /// How many bytes have been read so far.
    pub fn position(&self) -> (pos: usize)
        ensures
            pos == self@.pos,
    {
        proof {
            use_type_invariant(self);
        }
        self.pos
    }

    /// The bytes that have not been read yet.
    pub fn remaining(&self) -> (rest: &'a [u8])
        ensures
            rest@ == self@.bytes.subrange(self@.pos as int, self@.bytes.len() as int),
    {
        proof {
            use_type_invariant(self);
        }
        vstd::slice::slice_subrange(self.data, self.pos, self.data.len())
    }

    /// Takes the next `count` bytes, or moves to the end of the buffer where
    /// fewer are left.
    pub fn take(&mut self, count: usize) -> (taken: Result<&'a [u8], KafkaError>)
        ensures
            final(self)@.bytes == old(self)@.bytes,
            match taken {
                Ok(slice) => {
                    &&& old(self)@.pos + count <= old(self)@.bytes.len()
                    &&& final(self)@.pos == old(self)@.pos + count
                    &&& slice@ == old(self)@.bytes.subrange(
                        old(self)@.pos as int,
                        old(self)@.pos + count,
                    )
                },
                Err(error) => {
                    &&& old(self)@.pos + count > old(self)@.bytes.len()
                    &&& final(self)@.pos == old(self)@.bytes.len()
                    &&& error == KafkaError::Io(IoErrorKind::UnexpectedEof)
                },
            },
    {
        proof {
            use_type_invariant(&*self);
        }
        if self.data.len() - self.pos < count {
            self.pos = self.data.len();
            Err(KafkaError::Io(IoErrorKind::UnexpectedEof))
        } else {
            let start = self.pos;
            self.pos = start + count;
            Ok(vstd::slice::slice_subrange(self.data, start, start + count))
        }
    }
}

/// The number that `bytes` spell, most significant byte first.
fn unsigned_of(bytes: &[u8]) -> (value: u128)
    requires
        bytes@.len() <= 16,
    ensures
        value == be_unsigned(bytes@),
{
    let mut value: u128 = 0;
    let mut index: usize = 0;
    while index < bytes.len()
        invariant
            index <= bytes@.len() <= 16,
            value == be_unsigned(bytes@.take(index as int)),
        decreases bytes@.len() - index,
    {
        proof {
            let prefix = bytes@.take(index as int);
            let longer = bytes@.take(index + 1);
            assert(longer.drop_last() =~= prefix);
            assert(longer.last() == bytes@[index as int]);
            lemma_be_unsigned_bound(prefix);
            lemma_be_unsigned_bound(longer);
            lemma_pow256_monotonic(longer.len(), 16);
            lemma_pow256_values();
        }
        value = value * 256 + bytes[index] as u128;
        index = index + 1;
    }
    proof {
        assert(bytes@.take(index as int) =~= bytes@);
    }
    value
}

/// Reads one byte as a signed integer.
///
/// Fails with an unexpected-end error, and moves to the end of the buffer,
/// where no byte is left.
pub fn read_int8(cursor: &mut Cursor) -> (result: Result<i8, KafkaError>)
    ensures
        final(cursor)@.bytes == old(cursor)@.bytes,
        match result {
            Ok(value) => {
                &&& old(cursor)@.pos + 1 <= old(cursor)@.bytes.len()
                &&& value == int_at(old(cursor)@.bytes, old(cursor)@.pos as int, 1)
                &&& final(cursor)@.pos == old(cursor)@.pos + 1
            },
            Err(error) => {
                &&& old(cursor)@.pos + 1 > old(cursor)@.bytes.len()
                &&& error == KafkaError::Io(IoErrorKind::UnexpectedEof)
                &&& final(cursor)@.pos == old(cursor)@.bytes.len()
            },
        },
{
    match cursor.take(1) {
        Err(error) => Err(error),
        Ok(bytes) => {
            let unsigned = unsigned_of(bytes);
            proof {
                lemma_be_unsigned_bound(bytes@);
                lemma_pow256_values();
            }
            if unsigned >= 0x80 {
                Ok((unsigned - 0x80) as i8 + i8::MIN)
            } else {
                Ok(unsigned as i8)
            }
        },
    }
}

/// Reads two bytes as a signed big-endian integer.
///
/// Fails with an unexpected-end error, and moves to the end of the buffer,
/// where fewer than two bytes are left.
pub fn read_int16(cursor: &mut Cursor) -> (result: Result<i16, KafkaError>)
    ensures
        final(cursor)@.bytes == old(cursor)@.bytes,
        match result {
            Ok(value) => {
                &&& old(cursor)@.pos + 2 <= old(cursor)@.bytes.len()
                &&& value == int_at(old(cursor)@.bytes, old(cursor)@.pos as int, 2)
                &&& final(cursor)@.pos == old(cursor)@.pos + 2
            },
            Err(error) => {
                &&& old(cursor)@.pos + 2 > old(cursor)@.bytes.len()
                &&& error == KafkaError::Io(IoErrorKind::UnexpectedEof)
                &&& final(cursor)@.pos == old(cursor)@.bytes.len()
            },
        },
{
    match cursor.take(2) {
        Err(error) => Err(error),
        Ok(bytes) => {
            let unsigned = unsigned_of(bytes);
            proof {
                lemma_be_unsigned_bound(bytes@);
                lemma_pow256_values();
            }
            if unsigned >= 0x8000 {
                Ok((unsigned - 0x8000) as i16 + i16::MIN)
            } else {
                Ok(unsigned as i16)
            }
        },
    }
}

/// Reads four bytes as a signed big-endian integer.
///
/// Fails with an unexpected-end error, and moves to the end of the buffer,
/// where fewer than four bytes are left.
pub fn read_int32(cursor: &mut Cursor) -> (result: Result<i32, KafkaError>)
    ensures
        final(cursor)@.bytes == old(cursor)@.bytes,
        match result {
            Ok(value) => {
                &&& old(cursor)@.pos + 4 <= old(cursor)@.bytes.len()
                &&& value == int_at(old(cursor)@.bytes, old(cursor)@.pos as int, 4)
                &&& final(cursor)@.pos == old(cursor)@.pos + 4
            },
            Err(error) => {
                &&& old(cursor)@.pos + 4 > old(cursor)@.bytes.len()
                &&& error == KafkaError::Io(IoErrorKind::UnexpectedEof)
                &&& final(cursor)@.pos == old(cursor)@.bytes.len()
            },
        },
{
    match cursor.take(4) {
        Err(error) => Err(error),
        Ok(bytes) => {
            let unsigned = unsigned_of(bytes);
            proof {
                lemma_be_unsigned_bound(bytes@);
                lemma_pow256_values();
            }
            if unsigned >= 0x8000_0000 {
                Ok((unsigned - 0x8000_0000) as i32 + i32::MIN)
            } else {
                Ok(unsigned as i32)
            }
        },
    }
}

/// Reads eight bytes as a signed big-endian integer.
///
/// Fails with an unexpected-end error, and moves to the end of the buffer,
/// where fewer than eight bytes are left.
pub fn read_int64(cursor: &mut Cursor) -> (result: Result<i64, KafkaError>)
    ensures
        final(cursor)@.bytes == old(cursor)@.bytes,
        match result {
            Ok(value) => {
                &&& old(cursor)@.pos + 8 <= old(cursor)@.bytes.len()
                &&& value == int_at(old(cursor)@.bytes, old(cursor)@.pos as int, 8)
                &&& final(cursor)@.pos == old(cursor)@.pos + 8
            },
            Err(error) => {
                &&& old(cursor)@.pos + 8 > old(cursor)@.bytes.len()
                &&& error == KafkaError::Io(IoErrorKind::UnexpectedEof)
                &&& final(cursor)@.pos == old(cursor)@.bytes.len()
            },
        },
{
    match cursor.take(8) {
        Err(error) => Err(error),
        Ok(bytes) => {
            let unsigned = unsigned_of(bytes);
            proof {
                lemma_be_unsigned_bound(bytes@);
                lemma_pow256_values();
            }
            if unsigned >= 0x8000_0000_0000_0000 {
                Ok((unsigned - 0x8000_0000_0000_0000) as i64 + i64::MIN)
            } else {
                Ok(unsigned as i64)
            }
        },
    }
}

/// Reads sixteen bytes as a signed big-endian integer.
///
/// Fails with an unexpected-end error, and moves to the end of the buffer,
/// where fewer than sixteen bytes are left.
pub fn read_int128(cursor: &mut Cursor) -> (result: Result<i128, KafkaError>)
    ensures
        final(cursor)@.bytes == old(cursor)@.bytes,
        match result {
            Ok(value) => {
                &&& old(cursor)@.pos + 16 <= old(cursor)@.bytes.len()
                &&& value == int_at(old(cursor)@.bytes, old(cursor)@.pos as int, 16)
                &&& final(cursor)@.pos == old(cursor)@.pos + 16
            },
            Err(error) => {
                &&& old(cursor)@.pos + 16 > old(cursor)@.bytes.len()
                &&& error == KafkaError::Io(IoErrorKind::UnexpectedEof)
                &&& final(cursor)@.pos == old(cursor)@.bytes.len()
            },
        },
{
    match cursor.take(16) {
        Err(error) => Err(error),
        Ok(bytes) => {
            let unsigned = unsigned_of(bytes);
            proof {
                lemma_be_unsigned_bound(bytes@);
                lemma_pow256_values();
            }
            if unsigned >= 0x8000_0000_0000_0000_0000_0000_0000_0000 {
                Ok((unsigned - 0x8000_0000_0000_0000_0000_0000_0000_0000) as i128 + i128::MIN)
            } else {
                Ok(unsigned as i128)
            }
        },
    }
}

/// The error of `String::from_utf8`, carried through and never looked into.
#[verifier::external_type_specification]
#[verifier::external_body]
pub struct ExFromUtf8Error(std::string::FromUtf8Error);

/// `String::from_utf8` of the standard library: it succeeds exactly on
/// well-formed UTF-8, and the text it returns is the one those bytes encode.
pub assume_specification[ String::from_utf8 ](bytes: Vec<u8>) -> (result: Result<
    String,
    std::string::FromUtf8Error,
>)
    ensures
        result is Ok <==> valid_utf8(bytes@),
        result matches Ok(text) ==> encode_utf8(text@) == bytes@,
;

/// The characters of an optional text.
pub open spec fn text_view(text: Option<String>) -> Option<Seq<char>> {
    match text {
        Some(text) => Some(text@),
        None => None,
    }
}

/// What stands at `pos` in `data` when read as a nullable text, and where the
/// text ends.
///
/// A nullable text is a 16-bit length followed by that many bytes of UTF-8;
/// the length `-1` stands for an absent text and is followed by nothing.
pub open spec fn nullable_text_at(data: Seq<u8>, pos: int) -> Result<
    (Option<Seq<char>>, int),
    KafkaError,
> {
    if pos + 2 > data.len() {
        Err(KafkaError::Io(IoErrorKind::UnexpectedEof))
    } else {
        let length = int_at(data, pos, 2);
        if length == -1 {
            Ok((None, pos + 2))
        } else if length < 0 {
            Err(KafkaError::InvalidMessageLength(length as i32))
        } else if pos + 2 + length > data.len() {
            Err(KafkaError::Io(IoErrorKind::UnexpectedEof))
        } else {
            let text = data.subrange(pos + 2, pos + 2 + length);
            if valid_utf8(text) {
                Ok((Some(decode_utf8(text)), pos + 2 + length))
            } else {
                Err(KafkaError::InvalidString)
            }
        }
    }
}

/// Reads a nullable text: a 16-bit length, then that many bytes of UTF-8.
///
/// The length `-1` gives `None`. Any other negative length is refused as an
/// invalid length, a text that runs past the buffer as an unexpected end, and
/// bytes that are not UTF-8 as an invalid string.
pub fn read_nullable_string(cursor: &mut Cursor) -> (result: Result<Option<String>, KafkaError>)
    ensures
        final(cursor)@.bytes == old(cursor)@.bytes,
        match nullable_text_at(old(cursor)@.bytes, old(cursor)@.pos as int) {
            Ok((text, next)) => {
                &&& result matches Ok(found)
                &&& text_view(found) == text
                &&& final(cursor)@.pos == next
            },
            Err(error) => result matches Err(found) && found == error,
        },
{
    let length = match read_int16(cursor) {
        Err(error) => { return Err(error); },
        Ok(length) => length,
    };
    if length == -1 {
        Ok(None)
    } else if length < 0 {
        Err(KafkaError::InvalidMessageLength(length as i32))
    } else {
        let bytes = match cursor.take(length as usize) {
            Err(error) => { return Err(error); },
            Ok(bytes) => bytes,
        };
        match String::from_utf8(vstd::slice::slice_to_vec(bytes)) {
            Ok(text) => {
                proof {
                    vstd::utf8::encode_utf8_decode_utf8(text@);
                }
                Ok(Some(text))
            },
            Err(_) => Err(KafkaError::InvalidString),
        }
    }
}

} // verus!
