//! The SCALE compact form of a 32-bit length, as it prefixes byte strings and
//! sequences on the wire.
//!
//! The encoding and decoding themselves are done by `parity_scale_codec`; this
//! module states what they compute and proves what the proof format needs of
//! them: every value decodes from its own encoding, and whatever decodes was
//! written in exactly one way.

use vstd::prelude::*;

verus! {

/// The largest value written in one byte.
pub const SINGLE_BYTE_MAX: u32 = 0x3f;

/// The largest value written in two bytes.
pub const TWO_BYTE_MAX: u32 = 0x3fff;

/// The largest value written in four bytes.
pub const FOUR_BYTE_MAX: u32 = 0x3fff_ffff;

/// The `width` low bytes of `value`, least significant first.
pub open spec fn little_endian(value: int, width: nat) -> Seq<u8> {
    Seq::new(width, |i: int| (radix_shift(value, i) % 256) as u8)
}

/// `value` without its `bytes` low bytes, for `bytes` up to four.
pub open spec fn radix_shift(value: int, bytes: int) -> int {
    if bytes <= 0 {
        value
    } else if bytes == 1 {
        value / 0x100
    } else if bytes == 2 {
        value / 0x1_0000
    } else if bytes == 3 {
        value / 0x100_0000
    } else {
        value / 0x1_0000_0000
    }
}

/// The number that `width` bytes at the front of `input` hold, least
/// significant first, for `width` up to four.
pub open spec fn little_endian_value(input: Seq<u8>, width: nat) -> int {
    if width == 0 {
        0
    } else if width == 1 {
        input[0] as int
    } else if width == 2 {
        input[0] + 0x100 * input[1]
    } else if width == 3 {
        input[0] + 0x100 * input[1] + 0x1_0000 * input[2]
    } else {
        input[0] + 0x100 * input[1] + 0x1_0000 * input[2] + 0x100_0000 * input[3]
    }
}

/// The compact encoding of `value`.
///
/// The two low bits of the first byte give the mode. Modes 0, 1 and 2 hold
/// the value shifted left by two bits in one, two and four little-endian
/// bytes; mode 3 is a byte `3` followed by the value in four little-endian
/// bytes. The shortest mode that holds the value is the one written.
pub open spec fn compact_bytes(value: u32) -> Seq<u8> {
    if value <= SINGLE_BYTE_MAX {
        little_endian(4 * value, 1)
    } else if value <= TWO_BYTE_MAX {
        little_endian(4 * value + 1, 2)
    } else if value <= FOUR_BYTE_MAX {
        little_endian(4 * value + 2, 4)
    } else {
        seq![3u8] + little_endian(value as int, 4)
    }
}

/// The value whose compact encoding stands at the front of `input`, if one
/// does.
///
/// Nothing decodes from an input that ends before the mode's bytes do, from a
/// mode 3 prefix other than the byte `3`, or from a value written in a longer
/// mode than it needs.
pub open spec fn compact_value(input: Seq<u8>) -> Option<u32> {
    if input.len() == 0 {
        None
    } else if input[0] % 4 == 0 {
        Some((input[0] / 4) as u32)
    } else if input[0] % 4 == 1 {
        if input.len() < 2 {
            None
        } else if little_endian_value(input, 2) / 4 > SINGLE_BYTE_MAX {
            Some((little_endian_value(input, 2) / 4) as u32)
        } else {
            None
        }
    } else if input[0] % 4 == 2 {
        if input.len() < 4 {
            None
        } else if little_endian_value(input, 4) / 4 > TWO_BYTE_MAX {
            Some((little_endian_value(input, 4) / 4) as u32)
        } else {
            None
        }
    } else {
        if input[0] != 3 || input.len() < 5 {
            None
        } else if little_endian_value(input.skip(1), 4) > FOUR_BYTE_MAX {
            Some(little_endian_value(input.skip(1), 4) as u32)
        } else {
            None
        }
    }
}

/// The number of bytes that the compact encoding of `value` takes.
pub open spec fn compact_width(value: u32) -> nat {
    if value <= SINGLE_BYTE_MAX {
        1
    } else if value <= TWO_BYTE_MAX {
        2
    } else if value <= FOUR_BYTE_MAX {
        4
    } else {
        5
    }
}

/// `parity_scale_codec::Encode::encode` on a `Compact<u32>`: the bytes are
/// the compact encoding of `value`, as `compact_bytes` spells it out.
#[verifier::external_body]
fn scale_compact_encode(value: u32) -> (out: Vec<u8>)
    ensures
        out@ == compact_bytes(value),
{
    parity_scale_codec::Encode::encode(&parity_scale_codec::Compact(value))
}

/// `parity_scale_codec::Decode::decode` for `Compact<u32>` on a byte slice:
/// the value at the front of `input` where `compact_value` finds one, and
/// nothing where the codec reports an error.
#[verifier::external_body]
fn scale_compact_decode(input: &[u8]) -> (out: Option<u32>)
    ensures
        out == compact_value(input@),
{
    let mut rest = input;
    match <parity_scale_codec::Compact<u32> as parity_scale_codec::Decode>::decode(&mut rest) {
        Ok(compact) => Some(compact.0),
        Err(_) => None,
    }
}

/// Appends the compact encoding of `value` to `out`.
pub fn write_compact(out: &mut Vec<u8>, value: u32)
    ensures
        final(out)@ == old(out)@ + compact_bytes(value),
{
    let mut prefix = scale_compact_encode(value);
    out.append(&mut prefix);
}

/// Reads the compact value that starts at `start` in `input`, and says where
/// the bytes after it begin.
pub fn read_compact(input: &[u8], start: usize) -> (out: Option<(u32, usize)>)
    requires
        start <= input@.len(),
    ensures
        match out {
            Some((value, next)) => {
                &&& compact_value(input@.skip(start as int)) == Some(value)
                &&& next == start + compact_width(value)
                &&& next <= input@.len()
                &&& input@.subrange(start as int, next as int) == compact_bytes(value)
            },
            None => compact_value(input@.skip(start as int)) is None,
        },
{
    let rest = vstd::slice::slice_subrange(input, start, input.len());
    assert(rest@ == input@.skip(start as int));
    match scale_compact_decode(rest) {
        Some(value) => {
            proof {
                lemma_decoded_is_canonical(rest@, value);
                assert(rest@.take(compact_width(value) as int) == input@.subrange(
                    start as int,
                    start + compact_width(value),
                ));
            }
            let width: usize = if value <= SINGLE_BYTE_MAX {
                1
            } else if value <= TWO_BYTE_MAX {
                2
            } else if value <= FOUR_BYTE_MAX {
                4
            } else {
                5
            };
            Some((value, start + width))
        },
        None => None,
    }
}

/// The compact encoding of a value is as long as `compact_width` says.
pub proof fn lemma_compact_width(value: u32)
    ensures
        compact_bytes(value).len() == compact_width(value),
        1 <= compact_width(value) <= 5,
{
}

/// A number below 2^32 is the sum of its four bytes, each at its place.
proof fn lemma_bytes_of_value(v: int)
    requires
        0 <= v < 0x1_0000_0000,
    ensures
        v == v % 256 + 0x100 * (v / 0x100 % 256) + 0x1_0000 * (v / 0x1_0000 % 256) + 0x100_0000
            * (v / 0x100_0000 % 256),
        v / 0x100_0000 < 256,
        v < 0x1_0000 ==> v == v % 256 + 0x100 * (v / 0x100 % 256) && v / 0x100 < 256,
{
}

/// Four bytes, each at its place, are the bytes of their sum.
proof fn lemma_value_of_bytes(b0: int, b1: int, b2: int, b3: int)
    requires
        0 <= b0 < 256,
        0 <= b1 < 256,
        0 <= b2 < 256,
        0 <= b3 < 256,
    ensures
        ({
            let v = b0 + 0x100 * b1 + 0x1_0000 * b2 + 0x100_0000 * b3;
            &&& 0 <= v < 0x1_0000_0000
            &&& v % 256 == b0
            &&& v / 0x100 % 256 == b1
            &&& v / 0x1_0000 % 256 == b2
            &&& v / 0x100_0000 % 256 == b3
        }),
        ({
            let w = b0 + 0x100 * b1;
            &&& 0 <= w < 0x1_0000
            &&& w % 256 == b0
            &&& w / 0x100 % 256 == b1
        }),
{
}

/// Every value decodes from its own encoding, whatever follows it.
pub proof fn lemma_compact_round_trip(value: u32, tail: Seq<u8>)
    ensures
        compact_value(compact_bytes(value) + tail) == Some(value),
{
    let input = compact_bytes(value) + tail;
    let v = value as int;
    if value <= SINGLE_BYTE_MAX {
        assert(input[0] == compact_bytes(value)[0]);
    } else if value <= TWO_BYTE_MAX {
        lemma_bytes_of_value(4 * v + 1);
        assert(input[0] == compact_bytes(value)[0]);
        assert(input[1] == compact_bytes(value)[1]);
    } else if value <= FOUR_BYTE_MAX {
        lemma_bytes_of_value(4 * v + 2);
        assert(input[0] == compact_bytes(value)[0]);
        assert(input[1] == compact_bytes(value)[1]);
        assert(input[2] == compact_bytes(value)[2]);
        assert(input[3] == compact_bytes(value)[3]);
    } else {
        lemma_bytes_of_value(v);
        assert(input[0] == 3u8);
        let rest = input.skip(1);
        let low = little_endian(v, 4);
        assert(rest[0] == low[0]);
        assert(rest[1] == low[1]);
        assert(rest[2] == low[2]);
        assert(rest[3] == low[3]);
    }
}

/// What decodes was written in exactly one way: where `value` decodes from
/// `input`, `input` begins with the compact encoding of `value`.
pub proof fn lemma_decoded_is_canonical(input: Seq<u8>, value: u32)
    requires
        compact_value(input) == Some(value),
    ensures
        compact_width(value) <= input.len(),
        input.take(compact_width(value) as int) == compact_bytes(value),
{
    let front = input.take(compact_width(value) as int);
    let b0 = input[0] as int;
    if input[0] % 4 == 0 {
        assert(front[0] == input[0]);
    } else if input[0] % 4 == 1 {
        let b1 = input[1] as int;
        lemma_value_of_bytes(b0, b1, 0, 0);
        assert(front[0] == input[0] && front[1] == input[1]);
    } else if input[0] % 4 == 2 {
        let (b1, b2, b3) = (input[1] as int, input[2] as int, input[3] as int);
        lemma_value_of_bytes(b0, b1, b2, b3);
        assert(front[0] == input[0] && front[1] == input[1] && front[2] == input[2] && front[3]
            == input[3]);
    } else {
        let rest = input.skip(1);
        assert(rest[0] == input[1] && rest[1] == input[2] && rest[2] == input[3] && rest[3]
            == input[4]);
        lemma_value_of_bytes(rest[0] as int, rest[1] as int, rest[2] as int, rest[3] as int);
        assert(front[0] == input[0] && front[1] == input[1] && front[2] == input[2] && front[3]
            == input[3] && front[4] == input[4]);
        let low = little_endian(value as int, 4);
        assert(compact_bytes(value)[1] == low[0]);
        assert(compact_bytes(value)[2] == low[1]);
        assert(compact_bytes(value)[3] == low[2]);
        assert(compact_bytes(value)[4] == low[3]);
    }
    assert(front =~= compact_bytes(value));
}

} // verus!
