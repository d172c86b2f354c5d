//! The numeric model of the wire format: big-endian integers in two's
//! complement, as sequences of bytes.

use vstd::prelude::*;

verus! {

/// `256` to the power `n`: the number of values that `n` bytes can hold.
pub open spec fn pow256(n: nat) -> nat
    decreases n,
{
    if n == 0 {
        1
    } else {
        256 * pow256((n - 1) as nat)
    }
}

/// The natural number that `bytes` spell, most significant byte first.
pub open spec fn be_unsigned(bytes: Seq<u8>) -> nat
    decreases bytes.len(),
{
    if bytes.len() == 0 {
        0
    } else {
        256 * be_unsigned(bytes.drop_last()) + bytes.last() as nat
    }
}

/// The integer that `bytes` spell in two's complement, most significant byte
/// first.
pub open spec fn be_signed(bytes: Seq<u8>) -> int {
    let unsigned = be_unsigned(bytes);
    let modulus = pow256(bytes.len());
    if 2 * unsigned >= modulus {
        unsigned - modulus
    } else {
        unsigned as int
    }
}

/// The `width` low-order bytes of `value`, most significant byte first.
pub open spec fn be_bytes(value: nat, width: nat) -> Seq<u8>
    decreases width,
{
    if width == 0 {
        Seq::empty()
    } else {
        be_bytes(value / 256, (width - 1) as nat).push((value % 256) as u8)
    }
}

/// The natural number below `pow256(width)` that stands for `value` in two's
/// complement.
pub open spec fn twos_complement(value: int, width: nat) -> nat {
    if value < 0 {
        (value + pow256(width)) as nat
    } else {
        value as nat
    }
}

/// The `width` bytes that spell `value` in two's complement, most significant
/// byte first.
pub open spec fn be_bytes_signed(value: int, width: nat) -> Seq<u8> {
    be_bytes(twos_complement(value, width), width)
}

/// Whether `value` can be written in `width` bytes of two's complement.
pub open spec fn fits_signed(value: int, width: nat) -> bool {
    -(pow256(width) as int) <= 2 * value < pow256(width)
}

/// The integer spelled by the `width` bytes of `data` that start at `pos`.
pub open spec fn int_at(data: Seq<u8>, pos: int, width: nat) -> int {
    be_signed(data.subrange(pos, pos + width))
}

/// Whether `part` stands in `data` from position `pos` on.
pub open spec fn occurs_at(data: Seq<u8>, pos: int, part: Seq<u8>) -> bool {
    &&& 0 <= pos
    &&& pos + part.len() <= data.len()
    &&& data.subrange(pos, pos + part.len()) == part
}

/// The powers of 256 at the widths the protocol uses.
pub proof fn lemma_pow256_values()
    ensures
        pow256(0) == 1,
        pow256(1) == 0x100,
        pow256(2) == 0x1_0000,
        pow256(4) == 0x1_0000_0000,
        pow256(8) == 0x1_0000_0000_0000_0000,
        pow256(16) == 0x1_0000_0000_0000_0000_0000_0000_0000_0000,
{
    reveal_with_fuel(pow256, 17);
}

/// Powers of 256 are positive and grow with the exponent.
pub proof fn lemma_pow256_monotonic(a: nat, b: nat)
    requires
        a <= b,
    ensures
        0 < pow256(a) <= pow256(b),
    decreases b,
{
    if b == 0 {
    } else if a == b {
        lemma_pow256_monotonic(0, (b - 1) as nat);
    } else {
        lemma_pow256_monotonic(a, (b - 1) as nat);
    }
}

/// A byte string of length `n` spells a number below `pow256(n)`.
pub proof fn lemma_be_unsigned_bound(bytes: Seq<u8>)
    ensures
        be_unsigned(bytes) < pow256(bytes.len()),
    decreases bytes.len(),
{
    if bytes.len() > 0 {
        lemma_be_unsigned_bound(bytes.drop_last());
    }
}

/// Writing a number takes exactly `width` bytes.
pub proof fn lemma_be_bytes_len(value: nat, width: nat)
    ensures
        be_bytes(value, width).len() == width,
    decreases width,
{
    if width > 0 {
        lemma_be_bytes_len(value / 256, (width - 1) as nat);
    }
}

/// Reading what was written gives the number back, as long as it fits.
pub proof fn lemma_be_unsigned_of_bytes(value: nat, width: nat)
    requires
        value < pow256(width),
    ensures
        be_unsigned(be_bytes(value, width)) == value,
    decreases width,
{
    if width > 0 {
        let front = be_bytes(value / 256, (width - 1) as nat);
        lemma_be_unsigned_of_bytes(value / 256, (width - 1) as nat);
        assert(be_bytes(value, width).drop_last() =~= front);
    }
}

/// Two's complement round trip: a signed number that fits in `width` bytes
/// is read back from the bytes it was written to.
pub proof fn lemma_be_signed_of_bytes(value: int, width: nat)
    requires
        fits_signed(value, width),
    ensures
        be_bytes_signed(value, width).len() == width,
        be_signed(be_bytes_signed(value, width)) == value,
{
    let unsigned = twos_complement(value, width);
    lemma_pow256_monotonic(0, width);
    lemma_be_bytes_len(unsigned, width);
    lemma_be_unsigned_of_bytes(unsigned, width);
}

/// A part that stands in `data` is read from there as it reads alone.
pub proof fn lemma_int_at_occurrence(data: Seq<u8>, pos: int, value: int, width: nat)
    requires
        fits_signed(value, width),
        occurs_at(data, pos, be_bytes_signed(value, width)),
    ensures
        pos + width <= data.len(),
        int_at(data, pos, width) == value,
{
    lemma_be_signed_of_bytes(value, width);
}

/// Where two parts stand one after the other, each stands at its own place.
pub proof fn lemma_occurs_at_split(data: Seq<u8>, pos: int, first: Seq<u8>, second: Seq<u8>)
    requires
        occurs_at(data, pos, first + second),
    ensures
        occurs_at(data, pos, first),
        occurs_at(data, pos + first.len(), second),
{
    let whole = first + second;
    assert(data.subrange(pos, pos + first.len()) =~= whole.subrange(0, first.len() as int));
    assert(whole.subrange(0, first.len() as int) =~= first);
    assert(data.subrange(pos + first.len(), pos + first.len() + second.len())
        =~= whole.subrange(first.len() as int, whole.len() as int));
    assert(whole.subrange(first.len() as int, whole.len() as int) =~= second);
}

} // verus!
