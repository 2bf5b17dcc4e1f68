//! The binary encoding of integers and lengths, as `parity_scale_codec` writes
//! and reads them.
//!
//! The calls into the codec stand at the end of this file, each behind a
//! function whose contract says what the codec's source shows of it and is
//! not proved here. Everything above them is proved.

use parity_scale_codec::Error as CodecError;
use parity_scale_codec::{Compact, Decode, Encode};
use vstd::prelude::*;

verus! {

/// The `width` low bytes of `x`, least significant first.
pub open spec fn le_bytes(x: nat, width: nat) -> Seq<u8>
    decreases width,
{
    if width == 0 {
        Seq::empty()
    } else {
        seq![(x % 256) as u8] + le_bytes(x / 256, (width - 1) as nat)
    }
}

/// The compact encoding of a length: one, two, four or five bytes, the mode
/// in the two low bits of the first one.
pub open spec fn compact_bytes(x: u32) -> Seq<u8> {
    if x < 0x40 {
        le_bytes(4 * x as nat, 1)
    } else if x < 0x4000 {
        le_bytes(4 * x as nat + 1, 2)
    } else if x < 0x4000_0000 {
        le_bytes(4 * x as nat + 2, 4)
    } else {
        seq![3u8] + le_bytes(x as nat, 4)
    }
}

/// 256 to the power `width`: the first number that `width` bytes cannot hold.
pub open spec fn pow256(width: nat) -> nat
    decreases width,
{
    if width == 0 {
        1
    } else {
        256 * pow256((width - 1) as nat)
    }
}

/// The number of bytes in the compact encoding of `x`.
pub open spec fn compact_width(x: u32) -> nat {
    if x < 0x40 {
        1
    } else if x < 0x4000 {
        2
    } else if x < 0x4000_0000 {
        4
    } else {
        5
    }
}

/// The bounds of the widths that the encoding uses.
pub proof fn lemma_pow256_values()
    ensures
        pow256(1) == 0x100,
        pow256(2) == 0x1_0000,
        pow256(4) == 0x1_0000_0000,
        pow256(8) == 0x1_0000_0000_0000_0000,
{
    reveal_with_fuel(pow256, 9);
}

/// A number in `width` bytes has `width` bytes.
pub proof fn lemma_le_bytes_len(x: nat, width: nat)
    ensures
        le_bytes(x, width).len() == width,
    decreases width,
{
    if width > 0 {
        lemma_le_bytes_len(x / 256, (width - 1) as nat);
    }
}

/// Two numbers that fit in `width` bytes and have the same bytes are equal.
pub proof fn lemma_le_bytes_injective(a: nat, b: nat, width: nat)
    requires
        a < pow256(width),
        b < pow256(width),
        le_bytes(a, width) == le_bytes(b, width),
    ensures
        a == b,
    decreases width,
{
    if width > 0 {
        let w = (width - 1) as nat;
        let sa = le_bytes(a, width);
        let sb = le_bytes(b, width);
        assert(sa[0] == (a % 256) as u8);
        assert(le_bytes(a / 256, w) =~= sa.drop_first());
        assert(le_bytes(b / 256, w) =~= sb.drop_first());
        lemma_le_bytes_injective(a / 256, b / 256, w);
    }
}

/// Two numbers that fit in `width` bytes and whose bytes both begin `s` are
/// equal.
pub proof fn lemma_le_bytes_prefix_free(a: nat, b: nat, width: nat, s: Seq<u8>)
    requires
        a < pow256(width),
        b < pow256(width),
        le_bytes(a, width).is_prefix_of(s),
        le_bytes(b, width).is_prefix_of(s),
    ensures
        a == b,
{
    lemma_le_bytes_len(a, width);
    lemma_le_bytes_len(b, width);
    lemma_le_bytes_injective(a, b, width);
}

/// The compact encoding of `x` has `compact_width(x)` bytes, and the two low
/// bits of its first byte say which of the four widths that is.
pub proof fn lemma_compact_width(x: u32)
    ensures
        compact_bytes(x).len() == compact_width(x),
        compact_bytes(x)[0] as nat % 4 == if x < 0x40 {
            0nat
        } else if x < 0x4000 {
            1nat
        } else if x < 0x4000_0000 {
            2nat
        } else {
            3nat
        },
{
    lemma_le_bytes_len(4 * x as nat, 1);
    lemma_le_bytes_len(4 * x as nat + 1, 2);
    lemma_le_bytes_len(4 * x as nat + 2, 4);
    lemma_le_bytes_len(x as nat, 4);
}

/// The compact encoding is a prefix code: if the encodings of two lengths
/// both begin `s`, the lengths are equal.
pub proof fn lemma_compact_prefix_free(x: u32, y: u32, s: Seq<u8>)
    requires
        compact_bytes(x).is_prefix_of(s),
        compact_bytes(y).is_prefix_of(s),
    ensures
        x == y,
{
    lemma_compact_width(x);
    lemma_compact_width(y);
    lemma_pow256_values();
    if x < 0x40 {
        lemma_le_bytes_prefix_free(4 * x as nat, 4 * y as nat, 1, s);
    } else if x < 0x4000 {
        lemma_le_bytes_prefix_free(4 * x as nat + 1, 4 * y as nat + 1, 2, s);
    } else if x < 0x4000_0000 {
        lemma_le_bytes_prefix_free(4 * x as nat + 2, 4 * y as nat + 2, 4, s);
    } else {
        let t = s.drop_first();
        assert(le_bytes(x as nat, 4) =~= compact_bytes(x).drop_first());
        assert(le_bytes(y as nat, 4) =~= compact_bytes(y).drop_first());
        lemma_le_bytes_prefix_free(x as nat, y as nat, 4, t);
    }
}

/// The number of bytes that the compact encoding of `x` takes.
pub fn compact_len(x: u32) -> (n: usize)
    ensures
        n == compact_bytes(x).len(),
        1 <= n <= 5,
{
    proof {
        lemma_compact_width(x);
    }
    if x < 0x40 {
        1
    } else if x < 0x4000 {
        2
    } else if x < 0x4000_0000 {
        4
    } else {
        5
    }
}

/// `parity_scale_codec::Error`: why the codec could not decode. It is handed
/// on and never looked into.
#[verifier::external_type_specification]
#[verifier::external_body]
pub struct ExCodecError(CodecError);

/// `<u32 as Encode>::encode`: the four bytes of `x`, least significant first.
#[verifier::external_body]
pub(crate) fn encode_u32(x: u32) -> (out: Vec<u8>)
    ensures
        out@ == le_bytes(x as nat, 4),
{
    x.encode()
}

/// `<u64 as Encode>::encode`: the eight bytes of `x`, least significant first.
#[verifier::external_body]
pub(crate) fn encode_u64(x: u64) -> (out: Vec<u8>)
    ensures
        out@ == le_bytes(x as nat, 8),
{
    x.encode()
}

/// `<Compact<u32> as Encode>::encode`: the compact encoding of `x`. Up to 63
/// it is `x` shifted left by two in one byte; up to 2^14 - 1 and up to
/// 2^30 - 1 it is `x` shifted left by two, with the mode 1 or 2 in the low
/// bits, in two or four bytes; above that it is the byte 3 and the four bytes
/// of `x`.
#[verifier::external_body]
pub(crate) fn encode_compact(x: u32) -> (out: Vec<u8>)
    ensures
        out@ == compact_bytes(x),
{
    Compact(x).encode()
}

/// `<u32 as Decode>::decode` on a byte slice: the number whose four bytes
/// begin the input. It fails only when the input has fewer bytes.
#[verifier::external_body]
pub(crate) fn decode_u32(input: &[u8]) -> (out: Result<u32, CodecError>)
    ensures
        out matches Ok(x) ==> le_bytes(x as nat, 4).is_prefix_of(input@),
        out is Err ==> input@.len() < 4,
{
    let mut rest = input;
    u32::decode(&mut rest)
}

/// `<u64 as Decode>::decode` on a byte slice: the number whose eight bytes
/// begin the input. It fails only when the input has fewer bytes.
#[verifier::external_body]
pub(crate) fn decode_u64(input: &[u8]) -> (out: Result<u64, CodecError>)
    ensures
        out matches Ok(x) ==> le_bytes(x as nat, 8).is_prefix_of(input@),
        out is Err ==> input@.len() < 8,
{
    let mut rest = input;
    u64::decode(&mut rest)
}

/// `<Compact<u32> as Decode>::decode` on a byte slice: succeeds exactly when
/// the input begins with the compact encoding of some `x`, and returns that
/// `x`. An encoding longer than the shortest one for its value is refused.
#[verifier::external_body]
pub(crate) fn decode_compact(input: &[u8]) -> (out: Result<u32, CodecError>)
    ensures
        out matches Ok(x) ==> compact_bytes(x).is_prefix_of(input@),
        out is Err ==> forall|x: u32| !(#[trigger] compact_bytes(x)).is_prefix_of(input@),
{
    let mut rest = input;
    Compact::<u32>::decode(&mut rest).map(|c| c.0)
}

} // verus!
