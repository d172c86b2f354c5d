//! The primitive writers of the wire format: fixed-width big-endian integers
//! and nullable text, appended to a growing buffer.

use vstd::prelude::*;
use vstd::utf8::encode_utf8;
use crate::wire::{be_bytes, be_bytes_signed, lemma_be_bytes_len, lemma_pow256_values, twos_complement};

verus! {

/// The two bytes of a 16-bit integer on the wire.
pub open spec fn int16_bytes(value: i16) -> Seq<u8> {
    be_bytes_signed(value as int, 2)
}

/// The four bytes of a 32-bit integer on the wire.
pub open spec fn int32_bytes(value: i32) -> Seq<u8> {
    be_bytes_signed(value as int, 4)
}

/// The sixteen bytes of a 128-bit integer on the wire.
pub open spec fn int128_bytes(value: i128) -> Seq<u8> {
    be_bytes_signed(value as int, 16)
}

/// An integer takes as many bytes on the wire as its type is wide.
pub proof fn lemma_int_bytes_len(small: i16, medium: i32, large: i128)
    ensures
        int16_bytes(small).len() == 2,
        int32_bytes(medium).len() == 4,
        int128_bytes(large).len() == 16,
{
    lemma_be_bytes_len(twos_complement(small as int, 2), 2);
    lemma_be_bytes_len(twos_complement(medium as int, 4), 4);
    lemma_be_bytes_len(twos_complement(large as int, 16), 16);
}

/// Appends the `width` low-order bytes of `value`, most significant first.
fn push_be(out: &mut Vec<u8>, value: u128, width: usize)
    ensures
        final(out)@ == old(out)@ + be_bytes(value as nat, width as nat),
    decreases width,
{
    if width > 0 {
        push_be(out, value / 256, width - 1);
        out.push((value % 256) as u8);
        proof {
            let front = be_bytes((value / 256) as nat, (width - 1) as nat);
            assert(out@ =~= old(out)@ + front.push((value % 256) as u8));
        }
    } else {
        proof {
            assert(out@ =~= old(out)@ + be_bytes(value as nat, 0));
        }
    }
}

/// Appends a 16-bit integer in big-endian order.
pub fn put_int16(out: &mut Vec<u8>, value: i16)
    ensures
        final(out)@ == old(out)@ + int16_bytes(value),
{
    proof {
        lemma_pow256_values();
    }
    let unsigned: u128 = if value < 0 {
        (value - i16::MIN) as u128 + 0x8000
    } else {
        value as u128
    };
    push_be(out, unsigned, 2);
}

/// Appends a 32-bit integer in big-endian order.
pub fn put_int32(out: &mut Vec<u8>, value: i32)
    ensures
        final(out)@ == old(out)@ + int32_bytes(value),
{
    proof {
        lemma_pow256_values();
    }
    let unsigned: u128 = if value < 0 {
        (value - i32::MIN) as u128 + 0x8000_0000
    } else {
        value as u128
    };
    push_be(out, unsigned, 4);
}

/// Appends a 128-bit integer in big-endian order.
pub fn put_int128(out: &mut Vec<u8>, value: i128)
    ensures
        final(out)@ == old(out)@ + int128_bytes(value),
{
    proof {
        lemma_pow256_values();
    }
    let unsigned: u128 = if value < 0 {
        (value - i128::MIN) as u128 + 0x8000_0000_0000_0000_0000_0000_0000_0000
    } else {
        value as u128
    };
    push_be(out, unsigned, 16);
}

/// Longest text, in bytes of UTF-8, that a nullable text can carry.
pub const MAX_TEXT_LEN: usize = 32767;

/// The bytes of a nullable text on the wire: the length `-1` alone for an
/// absent text, else the number of bytes of its UTF-8 form in 16 bits,
/// followed by those bytes.
pub open spec fn nullable_text_bytes(text: Option<Seq<char>>) -> Seq<u8> {
    match text {
        None => int16_bytes(-1i16),
        Some(text) => int16_bytes(encode_utf8(text).len() as i16) + encode_utf8(text),
    }
}

/// Appends a nullable text, and says whether it did.
///
/// A text of more than [`MAX_TEXT_LEN`] bytes has no length on the wire:
/// nothing is appended for it, and the answer is `false`.
pub fn put_nullable_string(out: &mut Vec<u8>, text: Option<&str>) -> (written: bool)
    ensures
        written <==> (text matches Some(text) ==> encode_utf8(text@).len() <= MAX_TEXT_LEN),
        written ==> final(out)@ == old(out)@ + nullable_text_bytes(
            match text {
                Some(text) => Some(text@),
                None => None,
            },
        ),
        !written ==> final(out)@ == old(out)@,
{
    match text {
        None => {
            put_int16(out, -1);
            true
        },
        Some(text) => {
            let bytes = text.as_bytes();
            if bytes.len() > MAX_TEXT_LEN {
                false
            } else {
                put_int16(out, bytes.len() as i16);
                let ghost with_length = out@;
                let mut index: usize = 0;
                while index < bytes.len()
                    invariant
                        index <= bytes@.len(),
                        out@ == with_length + bytes@.take(index as int),
                    decreases bytes@.len() - index,
                {
                    out.push(bytes[index]);
                    index = index + 1;
                    proof {
                        assert(out@ =~= with_length + bytes@.take(index as int));
                    }
                }
                proof {
                    assert(bytes@.take(index as int) =~= bytes@);
                    assert(out@ =~= old(out)@ + (int16_bytes(bytes@.len() as i16) + bytes@));
                }
                true
            }
        },
    }
}

} // verus!
