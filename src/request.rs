//! Request flow control.

use crate::coding::{decoded, DecodeError};
use crate::varint::{
    decode_varint, encode_varint, lemma_varint_round_trip, parse_varint, varint_bytes,
    VARINT_LIMIT,
};
use vstd::prelude::*;

verus! {

/// The largest request id the peer may use, plus one.
#[derive(Debug, Clone, Copy, PartialEq, Eq, Structural)]
pub struct MaxRequestId {
    pub request_id: u64,
}

impl View for MaxRequestId {
    type V = MaxRequestId;

    open spec fn view(&self) -> MaxRequestId {
        *self
    }
}

/// A MaxRequestId that can be encoded.
pub open spec fn max_request_id_wf(m: MaxRequestId) -> bool {
    m.request_id < VARINT_LIMIT
}

pub open spec fn max_request_id_bytes(m: MaxRequestId) -> Seq<u8> {
    varint_bytes(m.request_id)
}

#[verifier::opaque]
pub open spec fn parse_max_request_id(s: Seq<u8>) -> Result<(MaxRequestId, int), DecodeError> {
    match parse_varint(s) {
        Err(e) => Err(e),
        Ok((request_id, n1)) => {
            Ok((MaxRequestId { request_id }, n1))
        },
    }
}

/// Decoding the encoding of a MaxRequestId gives it back.
pub proof fn lemma_max_request_id_round_trip(m: MaxRequestId, rest: Seq<u8>)
    requires
        max_request_id_wf(m),
    ensures
        parse_max_request_id(max_request_id_bytes(m) + rest) == Ok::<(MaxRequestId, int), DecodeError>(
            (m, max_request_id_bytes(m).len() as int),
        ),
{
    reveal(parse_max_request_id);
    let b1 = varint_bytes(m.request_id);
    let t2 = rest;
    let t1 = b1 + t2;
    assert(max_request_id_bytes(m) + rest =~= t1);
    lemma_varint_round_trip(m.request_id, t2);
}

impl MaxRequestId {
    pub const ID: u64 = 0x15;

    pub fn encode(&self, w: &mut Vec<u8>)
        requires
            max_request_id_wf(self@),
        ensures
            final(w)@ == old(w)@ + max_request_id_bytes(self@),
    {
        encode_varint(self.request_id, w);
        assert(final(w)@ =~= old(w)@ + max_request_id_bytes(self@));
    }

    pub fn decode(buf: &[u8], pos: usize) -> (r: Result<(MaxRequestId, usize), DecodeError>)
        requires
            pos <= buf@.len(),
        ensures
            decoded(r, pos, parse_max_request_id(buf@.skip(pos as int))),
            r matches Ok((_, p)) ==> pos <= p <= buf@.len(),
    {
        proof {
            reveal(parse_max_request_id);
        }
        let (request_id, p1) = match decode_varint(buf, pos) {
            Ok(x) => x,
            Err(e) => return Err(e),
        };
        Ok((MaxRequestId { request_id }, p1))
    }
}

/// The peer ran out of request ids.
#[derive(Debug, Clone, Copy, PartialEq, Eq, Structural)]
pub struct RequestsBlocked {
    pub request_id: u64,
}

impl View for RequestsBlocked {
    type V = RequestsBlocked;

    open spec fn view(&self) -> RequestsBlocked {
        *self
    }
}

/// A RequestsBlocked that can be encoded.
pub open spec fn requests_blocked_wf(m: RequestsBlocked) -> bool {
    m.request_id < VARINT_LIMIT
}

pub open spec fn requests_blocked_bytes(m: RequestsBlocked) -> Seq<u8> {
    varint_bytes(m.request_id)
}

#[verifier::opaque]
pub open spec fn parse_requests_blocked(s: Seq<u8>) -> Result<(RequestsBlocked, int), DecodeError> {
    match parse_varint(s) {
        Err(e) => Err(e),
        Ok((request_id, n1)) => {
            Ok((RequestsBlocked { request_id }, n1))
        },
    }
}

/// Decoding the encoding of a RequestsBlocked gives it back.
pub proof fn lemma_requests_blocked_round_trip(m: RequestsBlocked, rest: Seq<u8>)
    requires
        requests_blocked_wf(m),
    ensures
        parse_requests_blocked(requests_blocked_bytes(m) + rest) == Ok::<(RequestsBlocked, int), DecodeError>(
            (m, requests_blocked_bytes(m).len() as int),
        ),
{
    reveal(parse_requests_blocked);
    let b1 = varint_bytes(m.request_id);
    let t2 = rest;
    let t1 = b1 + t2;
    assert(requests_blocked_bytes(m) + rest =~= t1);
    lemma_varint_round_trip(m.request_id, t2);
}

impl RequestsBlocked {
    pub const ID: u64 = 0x1a;

    pub fn encode(&self, w: &mut Vec<u8>)
        requires
            requests_blocked_wf(self@),
        ensures
            final(w)@ == old(w)@ + requests_blocked_bytes(self@),
    {
        encode_varint(self.request_id, w);
        assert(final(w)@ =~= old(w)@ + requests_blocked_bytes(self@));
    }

    pub fn decode(buf: &[u8], pos: usize) -> (r: Result<(RequestsBlocked, usize), DecodeError>)
        requires
            pos <= buf@.len(),
        ensures
            decoded(r, pos, parse_requests_blocked(buf@.skip(pos as int))),
            r matches Ok((_, p)) ==> pos <= p <= buf@.len(),
    {
        proof {
            reveal(parse_requests_blocked);
        }
        let (request_id, p1) = match decode_varint(buf, pos) {
            Ok(x) => x,
            Err(e) => return Err(e),
        };
        Ok((RequestsBlocked { request_id }, p1))
    }
}

} // verus!
