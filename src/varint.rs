//! QUIC-style variable-length integers: 1, 2, 4 or 8 bytes, the two high
//! bits of the first byte giving the width.

use crate::coding::{decoded, DecodeError};
use vstd::prelude::*;

verus! {

/// Every value a variable-length integer can carry is below this bound.
pub const VARINT_LIMIT: u64 = 0x4000_0000_0000_0000;

/// The shortest encoding of `v`, which must be below `VARINT_LIMIT`.
#[verifier::opaque]
pub open spec fn varint_bytes(v: u64) -> Seq<u8> {
    if v < 0x40 {
        seq![v as u8]
    } else if v < 0x4000 {
        seq![(0x40u64 | (v >> 8u64)) as u8, v as u8]
    } else if v < 0x4000_0000 {
        seq![(0x80u64 | (v >> 24u64)) as u8, (v >> 16u64) as u8, (v >> 8u64) as u8, v as u8]
    } else {
        seq![
            (0xc0u64 | (v >> 56u64)) as u8,
            (v >> 48u64) as u8,
            (v >> 40u64) as u8,
            (v >> 32u64) as u8,
            (v >> 24u64) as u8,
            (v >> 16u64) as u8,
            (v >> 8u64) as u8,
            v as u8,
        ]
    }
}

/// The width announced by a first byte.
pub open spec fn varint_width(b: u8) -> int {
    if b < 0x40 {
        1
    } else if b < 0x80 {
        2
    } else if b < 0xc0 {
        4
    } else {
        8
    }
}

/// The value carried by the first `varint_width(s[0])` bytes of `s`.
#[verifier::opaque]
pub open spec fn varint_value(s: Seq<u8>) -> u64 {
    let b0 = (s[0] & 0x3f) as u64;
    let w = varint_width(s[0]);
    if w == 1 {
        b0
    } else if w == 2 {
        (b0 << 8u64) | (s[1] as u64)
    } else if w == 4 {
        (b0 << 24u64) | ((s[1] as u64) << 16u64) | ((s[2] as u64) << 8u64) | (s[3] as u64)
    } else {
        (b0 << 56u64) | ((s[1] as u64) << 48u64) | ((s[2] as u64) << 40u64) | ((s[3] as u64)
            << 32u64) | ((s[4] as u64) << 24u64) | ((s[5] as u64) << 16u64) | ((s[6] as u64)
            << 8u64) | (s[7] as u64)
    }
}

/// Reads one variable-length integer from the front of `s`: the value and the
/// number of bytes it took.
pub open spec fn parse_varint(s: Seq<u8>) -> Result<(u64, int), DecodeError> {
    if s.len() == 0 || s.len() < varint_width(s[0]) {
        Err(DecodeError::Short)
    } else {
        Ok((varint_value(s), varint_width(s[0])))
    }
}

/// Decoding the encoding of `v` gives `v` back, whatever follows it.
pub proof fn lemma_varint_round_trip(v: u64, rest: Seq<u8>)
    requires
        v < VARINT_LIMIT,
    ensures
        parse_varint(varint_bytes(v) + rest) == Ok::<(u64, int), DecodeError>(
            (v, varint_bytes(v).len() as int),
        ),
        1 <= varint_bytes(v).len() <= 8,
{
    reveal(varint_bytes);
    reveal(varint_value);
    let s = varint_bytes(v) + rest;
    if v < 0x40 {
        let b0 = v as u8;
        assert(b0 < 0x40 && (b0 & 0x3f) as u64 == v) by (bit_vector)
            requires
                v < 0x40,
                b0 == v as u8,
        ;
    } else if v < 0x4000 {
        let b0 = (0x40u64 | (v >> 8u64)) as u8;
        let b1 = v as u8;
        assert(0x40 <= b0 < 0x80 && (((b0 & 0x3f) as u64) << 8u64) | (b1 as u64) == v)
            by (bit_vector)
            requires
                0x40 <= v < 0x4000,
                b0 == (0x40u64 | (v >> 8u64)) as u8,
                b1 == v as u8,
        ;
    } else if v < 0x4000_0000 {
        let b0 = (0x80u64 | (v >> 24u64)) as u8;
        let b1 = (v >> 16u64) as u8;
        let b2 = (v >> 8u64) as u8;
        let b3 = v as u8;
        assert(0x80 <= b0 < 0xc0 && (((b0 & 0x3f) as u64) << 24u64) | ((b1 as u64) << 16u64)
            | ((b2 as u64) << 8u64) | (b3 as u64) == v) by (bit_vector)
            requires
                0x4000 <= v < 0x4000_0000,
                b0 == (0x80u64 | (v >> 24u64)) as u8,
                b1 == (v >> 16u64) as u8,
                b2 == (v >> 8u64) as u8,
                b3 == v as u8,
        ;
    } else {
        let b0 = (0xc0u64 | (v >> 56u64)) as u8;
        let b1 = (v >> 48u64) as u8;
        let b2 = (v >> 40u64) as u8;
        let b3 = (v >> 32u64) as u8;
        let b4 = (v >> 24u64) as u8;
        let b5 = (v >> 16u64) as u8;
        let b6 = (v >> 8u64) as u8;
        let b7 = v as u8;
        assert(0xc0 <= b0 && (((b0 & 0x3f) as u64) << 56u64) | ((b1 as u64) << 48u64) | ((b2 as u64)
            << 40u64) | ((b3 as u64) << 32u64) | ((b4 as u64) << 24u64) | ((b5 as u64) << 16u64)
            | ((b6 as u64) << 8u64) | (b7 as u64) == v) by (bit_vector)
            requires
                0x4000_0000 <= v < 0x4000_0000_0000_0000,
                b0 == (0xc0u64 | (v >> 56u64)) as u8,
                b1 == (v >> 48u64) as u8,
                b2 == (v >> 40u64) as u8,
                b3 == (v >> 32u64) as u8,
                b4 == (v >> 24u64) as u8,
                b5 == (v >> 16u64) as u8,
                b6 == (v >> 8u64) as u8,
                b7 == v as u8,
        ;
    }
}

/// Every parsed value is below the bound, so it can be encoded again.
pub proof fn lemma_varint_bound(s: Seq<u8>)
    requires
        parse_varint(s) is Ok,
    ensures
        parse_varint(s)->Ok_0.0 < VARINT_LIMIT,
        1 <= parse_varint(s)->Ok_0.1 <= s.len(),
{
    reveal(varint_value);
    let b0 = s[0];
    let x = (b0 & 0x3f) as u64;
    assert(x < 0x40) by (bit_vector)
        requires
            x == (b0 & 0x3f) as u64,
    ;
    if varint_width(b0) == 8 {
        let b1 = s[1];
        let b2 = s[2];
        let b3 = s[3];
        let b4 = s[4];
        let b5 = s[5];
        let b6 = s[6];
        let b7 = s[7];
        assert((x << 56u64) | ((b1 as u64) << 48u64) | ((b2 as u64) << 40u64) | ((b3 as u64)
            << 32u64) | ((b4 as u64) << 24u64) | ((b5 as u64) << 16u64) | ((b6 as u64) << 8u64)
            | (b7 as u64) < 0x4000_0000_0000_0000) by (bit_vector)
            requires
                x < 0x40,
        ;
    } else if varint_width(b0) == 4 {
        let b1 = s[1];
        let b2 = s[2];
        let b3 = s[3];
        assert((x << 24u64) | ((b1 as u64) << 16u64) | ((b2 as u64) << 8u64) | (b3 as u64)
            < 0x4000_0000) by (bit_vector)
            requires
                x < 0x40,
        ;
    } else if varint_width(b0) == 2 {
        let b1 = s[1];
        assert((x << 8u64) | (b1 as u64) < 0x4000) by (bit_vector)
            requires
                x < 0x40,
        ;
    }
}

/// Appends the shortest encoding of `v`.
pub fn encode_varint(v: u64, w: &mut Vec<u8>)
    requires
        v < VARINT_LIMIT,
    ensures
        final(w)@ == old(w)@ + varint_bytes(v),
{
    if v < 0x40 {
        w.push(v as u8);
    } else if v < 0x4000 {
        w.push((0x40u64 | (v >> 8u64)) as u8);
        w.push(v as u8);
    } else if v < 0x4000_0000 {
        w.push((0x80u64 | (v >> 24u64)) as u8);
        w.push((v >> 16u64) as u8);
        w.push((v >> 8u64) as u8);
        w.push(v as u8);
    } else {
        w.push((0xc0u64 | (v >> 56u64)) as u8);
        w.push((v >> 48u64) as u8);
        w.push((v >> 40u64) as u8);
        w.push((v >> 32u64) as u8);
        w.push((v >> 24u64) as u8);
        w.push((v >> 16u64) as u8);
        w.push((v >> 8u64) as u8);
        w.push(v as u8);
    }
    reveal(varint_bytes);
    assert(final(w)@ =~= old(w)@ + varint_bytes(v));
}

/// A value below 64 takes the single byte that is the value.
pub proof fn lemma_varint_small(v: u8)
    requires
        v < 0x40,
    ensures
        varint_bytes(v as u64) == seq![v],
{
    reveal(varint_bytes);
    let x = v as u64;
    assert(x as u8 == v) by (bit_vector)
        requires
            x == v as u64,
    ;
    assert(varint_bytes(x) =~= seq![v]);
}

/// Zero takes the single byte zero.
pub proof fn lemma_varint_zero()
    ensures
        varint_bytes(0) == seq![0u8],
{
    reveal(varint_bytes);
    assert(0u64 as u8 == 0u8) by (bit_vector);
    assert(varint_bytes(0) =~= seq![0u8]);
}

/// Reads a variable-length integer at `pos`; returns it and the position
/// after it.
pub fn decode_varint(buf: &[u8], pos: usize) -> (r: Result<(u64, usize), DecodeError>)
    requires
        pos <= buf@.len(),
    ensures
        decoded(r, pos, parse_varint(buf@.skip(pos as int))),
{
    let ghost s = buf@.skip(pos as int);
    if pos >= buf.len() {
        return Err(DecodeError::Short);
    }
    let b0 = buf[pos];
    let width: usize = if b0 < 0x40 {
        1
    } else if b0 < 0x80 {
        2
    } else if b0 < 0xc0 {
        4
    } else {
        8
    };
    if buf.len() - pos < width {
        return Err(DecodeError::Short);
    }
    let x = (b0 & 0x3f) as u64;
    let v: u64 = if width == 1 {
        x
    } else if width == 2 {
        (x << 8u64) | (buf[pos + 1] as u64)
    } else if width == 4 {
        (x << 24u64) | ((buf[pos + 1] as u64) << 16u64) | ((buf[pos + 2] as u64) << 8u64) | (buf[
            pos + 3] as u64)
    } else {
        (x << 56u64) | ((buf[pos + 1] as u64) << 48u64) | ((buf[pos + 2] as u64) << 40u64) | ((buf[
            pos + 3] as u64) << 32u64) | ((buf[pos + 4] as u64) << 24u64) | ((buf[pos + 5] as u64)
            << 16u64) | ((buf[pos + 6] as u64) << 8u64) | (buf[pos + 7] as u64)
    };
    proof {
        reveal(varint_value);
    }
    Ok((v, pos + width))
}

} // verus!
