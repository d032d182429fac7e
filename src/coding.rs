//! Errors and shared helpers of the wire codec.

use crate::varint::{
    decode_varint, encode_varint, lemma_varint_bound, lemma_varint_round_trip, parse_varint,
    varint_bytes, VARINT_LIMIT,
};
use vstd::prelude::*;
use vstd::utf8::{decode_utf8, encode_utf8, valid_utf8};

verus! {

/// Why a decoder refused its input.
#[derive(Debug, Clone, Copy, PartialEq, Eq, Structural)]
pub enum DecodeError {
    /// The input ended before the value did; retry once more bytes arrive.
    Short,
    /// A string was not valid UTF-8.
    InvalidString,
    /// A field held a value outside its domain.
    InvalidValue,
    /// A key appeared twice.
    Duplicate,
    /// A count exceeded its bound.
    TooMany,
    /// Bytes were left where the input should have ended.
    ExpectedEnd,
    /// A valid but unsupported variant of the protocol.
    Unsupported,
    /// A framed body was not consumed exactly.
    WrongSize,
}

/// Relates the result of an executable decoder that started at `pos` to the
/// result of the matching spec parser: the decoded value's view equals the
/// parsed model, and the new position is `pos` plus the bytes consumed.
pub open spec fn decoded<T: View>(
    r: Result<(T, usize), DecodeError>,
    pos: usize,
    s: Result<(T::V, int), DecodeError>,
) -> bool {
    match (r, s) {
        (Ok((v, p)), Ok((m, n))) => v@ == m && p == pos + n,
        (Err(e1), Err(e2)) => e1 == e2,
        _ => false,
    }
}

/// Runs `p` on what follows the first `n` bytes, adding `n` to what it consumed.
pub open spec fn then_at<T>(n: int, r: Result<(T, int), DecodeError>) -> Result<(T, int), DecodeError> {
    match r {
        Ok((v, m)) => Ok((v, n + m)),
        Err(e) => Err(e),
    }
}

/// One raw byte.
pub open spec fn parse_u8(s: Seq<u8>) -> Result<(u8, int), DecodeError> {
    if s.len() == 0 {
        Err(DecodeError::Short)
    } else {
        Ok((s[0], 1))
    }
}

/// A boolean: one byte, 0 or 1.
pub open spec fn parse_bool(s: Seq<u8>) -> Result<(bool, int), DecodeError> {
    if s.len() == 0 {
        Err(DecodeError::Short)
    } else if s[0] == 0 {
        Ok((false, 1))
    } else if s[0] == 1 {
        Ok((true, 1))
    } else {
        Err(DecodeError::InvalidValue)
    }
}

pub open spec fn bool_bytes(b: bool) -> Seq<u8> {
    if b {
        seq![1u8]
    } else {
        seq![0u8]
    }
}

/// A big-endian 16-bit integer.
pub open spec fn parse_u16(s: Seq<u8>) -> Result<(u16, int), DecodeError> {
    if s.len() < 2 {
        Err(DecodeError::Short)
    } else {
        Ok(((s[0] as int * 256 + s[1] as int) as u16, 2))
    }
}

pub open spec fn u16_bytes(v: u16) -> Seq<u8> {
    seq![(v / 256) as u8, (v % 256) as u8]
}

/// A byte string prefixed by its length.
pub open spec fn bytes_bytes(b: Seq<u8>) -> Seq<u8> {
    varint_bytes(b.len() as u64) + b
}

#[verifier::opaque]
pub open spec fn parse_bytes(s: Seq<u8>) -> Result<(Seq<u8>, int), DecodeError> {
    match parse_varint(s) {
        Err(e) => Err(e),
        Ok((n, k)) => if s.len() - k < n {
            Err(DecodeError::Short)
        } else {
            Ok((s.subrange(k, k + n), k + n))
        },
    }
}

/// A UTF-8 string prefixed by its length in bytes.
pub open spec fn string_bytes(c: Seq<char>) -> Seq<u8> {
    bytes_bytes(encode_utf8(c))
}

#[verifier::opaque]
pub open spec fn parse_string(s: Seq<u8>) -> Result<(Seq<char>, int), DecodeError> {
    match parse_bytes(s) {
        Err(e) => Err(e),
        Ok((b, n)) => if valid_utf8(b) {
            Ok((decode_utf8(b), n))
        } else {
            Err(DecodeError::InvalidString)
        },
    }
}

/// A string short enough for its length to be encoded.
pub open spec fn string_fits(c: Seq<char>) -> bool {
    encode_utf8(c).len() < VARINT_LIMIT
}

pub proof fn lemma_bool_round_trip(b: bool, rest: Seq<u8>)
    ensures
        parse_bool(bool_bytes(b) + rest) == Ok::<(bool, int), DecodeError>((b, 1)),
        bool_bytes(b).len() == 1,
{
    assert((bool_bytes(b) + rest)[0] == bool_bytes(b)[0]);
}

pub proof fn lemma_u8_round_trip(v: u8, rest: Seq<u8>)
    ensures
        parse_u8(seq![v] + rest) == Ok::<(u8, int), DecodeError>((v, 1)),
{
    assert((seq![v] + rest)[0] == v);
}

pub proof fn lemma_u16_round_trip(v: u16, rest: Seq<u8>)
    ensures
        parse_u16(u16_bytes(v) + rest) == Ok::<(u16, int), DecodeError>((v, 2)),
        u16_bytes(v).len() == 2,
{
    let s = u16_bytes(v) + rest;
    assert(s[0] == (v / 256) as u8 && s[1] == (v % 256) as u8);
    assert((v / 256) as u8 as int == v as int / 256);
    assert((v % 256) as u8 as int == v as int % 256);
}

pub proof fn lemma_bytes_round_trip(b: Seq<u8>, rest: Seq<u8>)
    requires
        b.len() < VARINT_LIMIT,
    ensures
        parse_bytes(bytes_bytes(b) + rest) == Ok::<(Seq<u8>, int), DecodeError>(
            (b, bytes_bytes(b).len() as int),
        ),
{
    reveal(parse_bytes);
    let n = b.len() as u64;
    lemma_varint_round_trip(n, b + rest);
    assert(bytes_bytes(b) + rest =~= varint_bytes(n) + (b + rest));
    let k = varint_bytes(n).len() as int;
    assert((bytes_bytes(b) + rest).subrange(k, k + n) =~= b);
}

pub proof fn lemma_string_round_trip(c: Seq<char>, rest: Seq<u8>)
    requires
        string_fits(c),
    ensures
        parse_string(string_bytes(c) + rest) == Ok::<(Seq<char>, int), DecodeError>(
            (c, string_bytes(c).len() as int),
        ),
{
    reveal(parse_string);
    lemma_bytes_round_trip(encode_utf8(c), rest);
    vstd::utf8::encode_utf8_valid_utf8(c);
    vstd::utf8::encode_utf8_decode_utf8(c);
}

/// Appends every byte of `b`.
pub fn append_bytes(w: &mut Vec<u8>, b: &[u8])
    ensures
        final(w)@ == old(w)@ + b@,
{
    let mut i: usize = 0;
    while i < b.len()
        invariant
            i <= b@.len(),
            w@ == old(w)@ + b@.take(i as int),
        decreases b@.len() - i,
    {
        w.push(b[i]);
        i = i + 1;
        assert(w@ =~= old(w)@ + b@.take(i as int));
    }
    assert(b@.take(i as int) =~= b@);
}

/// Copies `buf[start..end]`.
pub fn copy_range(buf: &[u8], start: usize, end: usize) -> (r: Vec<u8>)
    requires
        start <= end <= buf@.len(),
    ensures
        r@ == buf@.subrange(start as int, end as int),
{
    let mut r: Vec<u8> = Vec::new();
    let mut i: usize = start;
    while i < end
        invariant
            start <= i <= end <= buf@.len(),
            r@ == buf@.subrange(start as int, i as int),
        decreases end - i,
    {
        r.push(buf[i]);
        i = i + 1;
        assert(r@ =~= buf@.subrange(start as int, i as int));
    }
    r
}

pub fn encode_u8(v: u8, w: &mut Vec<u8>)
    ensures
        final(w)@ == old(w)@ + seq![v],
{
    w.push(v);
}

pub fn decode_u8(buf: &[u8], pos: usize) -> (r: Result<(u8, usize), DecodeError>)
    requires
        pos <= buf@.len(),
    ensures
        decoded(r, pos, parse_u8(buf@.skip(pos as int))),
{
    if pos >= buf.len() {
        Err(DecodeError::Short)
    } else {
        Ok((buf[pos], pos + 1))
    }
}

pub fn encode_bool(b: bool, w: &mut Vec<u8>)
    ensures
        final(w)@ == old(w)@ + bool_bytes(b),
{
    if b {
        w.push(1);
    } else {
        w.push(0);
    }
}

pub fn decode_bool(buf: &[u8], pos: usize) -> (r: Result<(bool, usize), DecodeError>)
    requires
        pos <= buf@.len(),
    ensures
        decoded(r, pos, parse_bool(buf@.skip(pos as int))),
{
    if pos >= buf.len() {
        Err(DecodeError::Short)
    } else if buf[pos] == 0 {
        Ok((false, pos + 1))
    } else if buf[pos] == 1 {
        Ok((true, pos + 1))
    } else {
        Err(DecodeError::InvalidValue)
    }
}

pub fn encode_u16(v: u16, w: &mut Vec<u8>)
    ensures
        final(w)@ == old(w)@ + u16_bytes(v),
{
    w.push((v / 256) as u8);
    w.push((v % 256) as u8);
    assert(final(w)@ =~= old(w)@ + u16_bytes(v));
}

pub fn decode_u16(buf: &[u8], pos: usize) -> (r: Result<(u16, usize), DecodeError>)
    requires
        pos <= buf@.len(),
    ensures
        decoded(r, pos, parse_u16(buf@.skip(pos as int))),
{
    if buf.len() - pos < 2 {
        Err(DecodeError::Short)
    } else {
        Ok(((buf[pos] as u16) * 256 + buf[pos + 1] as u16, pos + 2))
    }
}

pub fn encode_bytes(b: &[u8], w: &mut Vec<u8>)
    requires
        b@.len() < VARINT_LIMIT,
    ensures
        final(w)@ == old(w)@ + bytes_bytes(b@),
{
    encode_varint(b.len() as u64, w);
    append_bytes(w, b);
    assert(final(w)@ =~= old(w)@ + bytes_bytes(b@));
}

pub fn decode_bytes(buf: &[u8], pos: usize) -> (r: Result<(Vec<u8>, usize), DecodeError>)
    requires
        pos <= buf@.len(),
    ensures
        decoded(r, pos, parse_bytes(buf@.skip(pos as int))),
        r matches Ok((_, p)) ==> pos <= p <= buf@.len(),
{
    reveal(parse_bytes);
    let ghost s = buf@.skip(pos as int);
    let (n, p) = match decode_varint(buf, pos) {
        Ok(x) => x,
        Err(e) => return Err(e),
    };
    proof {
        lemma_varint_bound(s);
    }
    if ((buf.len() - p) as u64) < n {
        return Err(DecodeError::Short);
    }
    let end = p + n as usize;
    let b = copy_range(buf, p, end);
    assert(b@ =~= s.subrange(p - pos, p - pos + n));
    Ok((b, end))
}

/// Relies on `String::from_utf8`, which accepts exactly the valid UTF-8
/// byte strings and keeps their characters.
#[verifier::external_body]
pub(crate) fn string_from_utf8(b: Vec<u8>) -> (r: Option<String>)
    ensures
        r is Some <==> valid_utf8(b@),
        r is Some ==> r->0@ == decode_utf8(b@),
{
    String::from_utf8(b).ok()
}

pub fn encode_string(c: &str, w: &mut Vec<u8>)
    requires
        string_fits(c@),
    ensures
        final(w)@ == old(w)@ + string_bytes(c@),
{
    let b = c.as_bytes();
    encode_bytes(b, w);
}

pub fn decode_string(buf: &[u8], pos: usize) -> (r: Result<(String, usize), DecodeError>)
    requires
        pos <= buf@.len(),
    ensures
        decoded(r, pos, parse_string(buf@.skip(pos as int))),
        r matches Ok((_, p)) ==> pos <= p <= buf@.len(),
{
    reveal(parse_string);
    let (b, p) = match decode_bytes(buf, pos) {
        Ok(x) => x,
        Err(e) => return Err(e),
    };
    match string_from_utf8(b) {
        Some(c) => Ok((c, p)),
        None => Err(DecodeError::InvalidString),
    }
}

} // verus!
