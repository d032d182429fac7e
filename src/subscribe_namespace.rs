//! Subscribing to announcements under a namespace.

use crate::coding::{
    decode_string, decoded, encode_string, encode_u8, lemma_string_round_trip, parse_string,
    string_bytes, string_fits, DecodeError,
};
use crate::parameters::{lemma_no_params, parse_params, Parameters};
use crate::path::{lemma_path_round_trip, parse_path, path_bytes, path_fits, Path};
use crate::varint::{
    decode_varint, encode_varint, lemma_varint_round_trip, parse_varint, varint_bytes,
    VARINT_LIMIT,
};
use vstd::prelude::*;

verus! {

/// Asks for the announcements under a namespace.
#[derive(Debug, Clone)]
pub struct SubscribeNamespace {
    pub namespace: Path,
    pub request_id: u64,
}

pub struct SubscribeNamespaceView {
    pub namespace: Seq<char>,
    pub request_id: u64,
}

impl View for SubscribeNamespace {
    type V = SubscribeNamespaceView;

    open spec fn view(&self) -> SubscribeNamespaceView {
        SubscribeNamespaceView { namespace: self.namespace@, request_id: self.request_id }
    }
}

/// A SubscribeNamespace that can be encoded.
pub open spec fn subscribe_namespace_wf(m: SubscribeNamespaceView) -> bool {
    path_fits(m.namespace) && m.request_id < VARINT_LIMIT
}

pub open spec fn subscribe_namespace_bytes(m: SubscribeNamespaceView) -> Seq<u8> {
    path_bytes(m.namespace) + varint_bytes(m.request_id) + seq![0u8]
}

#[verifier::opaque]
pub open spec fn parse_subscribe_namespace(s: Seq<u8>) -> Result<(SubscribeNamespaceView, int), DecodeError> {
    match parse_path(s) {
        Err(e) => Err(e),
        Ok((namespace, n1)) => {
            let s2 = s.skip(n1);
            match parse_varint(s2) {
                Err(e) => Err(e),
                Ok((request_id, n2)) => {
                    let s3 = s2.skip(n2);
                    match parse_params(s3) {
                        Err(e) => Err(e),
                        Ok((_, n3)) => {
                            Ok((SubscribeNamespaceView { namespace, request_id }, n1 + n2 + n3))
                        },
                    }
                },
            }
        },
    }
}

/// Decoding the encoding of a SubscribeNamespace gives it back.
pub proof fn lemma_subscribe_namespace_round_trip(m: SubscribeNamespaceView, rest: Seq<u8>)
    requires
        subscribe_namespace_wf(m),
    ensures
        parse_subscribe_namespace(subscribe_namespace_bytes(m) + rest) == Ok::<(SubscribeNamespaceView, int), DecodeError>(
            (m, subscribe_namespace_bytes(m).len() as int),
        ),
{
    reveal(parse_subscribe_namespace);
    let b1 = path_bytes(m.namespace);
    let b2 = varint_bytes(m.request_id);
    let b3 = seq![0u8];
    let t4 = rest;
    let t3 = b3 + t4;
    let t2 = b2 + t3;
    let t1 = b1 + t2;
    assert(subscribe_namespace_bytes(m) + rest =~= t1);
    lemma_path_round_trip(m.namespace, t2);
    assert(t1.skip(b1.len() as int) =~= t2);
    lemma_varint_round_trip(m.request_id, t3);
    assert(t2.skip(b2.len() as int) =~= t3);
    lemma_no_params(t4);
    assert(m == (SubscribeNamespaceView { namespace: m.namespace, request_id: m.request_id }));
}

impl SubscribeNamespace {
    pub const ID: u64 = 0x11;

    pub fn encode(&self, w: &mut Vec<u8>)
        requires
            subscribe_namespace_wf(self@),
        ensures
            final(w)@ == old(w)@ + subscribe_namespace_bytes(self@),
    {
        self.namespace.encode(w);
        encode_varint(self.request_id, w);
        encode_u8(0, w);
        assert(final(w)@ =~= old(w)@ + subscribe_namespace_bytes(self@));
    }

    pub fn decode(buf: &[u8], pos: usize) -> (r: Result<(SubscribeNamespace, usize), DecodeError>)
        requires
            pos <= buf@.len(),
        ensures
            decoded(r, pos, parse_subscribe_namespace(buf@.skip(pos as int))),
            r matches Ok((_, p)) ==> pos <= p <= buf@.len(),
    {
        proof {
            reveal(parse_subscribe_namespace);
        }
        let (namespace, p1) = match Path::decode(buf, pos) {
            Ok(x) => x,
            Err(e) => return Err(e),
        };
        assert(buf@.skip(p1 as int) =~= buf@.skip(pos as int).skip(p1 - pos));
        let (request_id, p2) = match decode_varint(buf, p1) {
            Ok(x) => x,
            Err(e) => return Err(e),
        };
        assert(buf@.skip(p2 as int) =~= buf@.skip(p1 as int).skip(p2 - p1));
        let (_, p3) = match Parameters::decode(buf, p2) {
            Ok(x) => x,
            Err(e) => return Err(e),
        };
        Ok((SubscribeNamespace { namespace, request_id }, p3))
    }
}

/// A namespace subscription was accepted.
#[derive(Debug, Clone, Copy, PartialEq, Eq, Structural)]
pub struct SubscribeNamespaceOk {
    pub request_id: u64,
}

impl View for SubscribeNamespaceOk {
    type V = SubscribeNamespaceOk;

    open spec fn view(&self) -> SubscribeNamespaceOk {
        *self
    }
}

/// A SubscribeNamespaceOk that can be encoded.
pub open spec fn subscribe_namespace_ok_wf(m: SubscribeNamespaceOk) -> bool {
    m.request_id < VARINT_LIMIT
}

pub open spec fn subscribe_namespace_ok_bytes(m: SubscribeNamespaceOk) -> Seq<u8> {
    varint_bytes(m.request_id)
}

#[verifier::opaque]
pub open spec fn parse_subscribe_namespace_ok(s: Seq<u8>) -> Result<(SubscribeNamespaceOk, int), DecodeError> {
    match parse_varint(s) {
        Err(e) => Err(e),
        Ok((request_id, n1)) => {
            Ok((SubscribeNamespaceOk { request_id }, n1))
        },
    }
}

/// Decoding the encoding of a SubscribeNamespaceOk gives it back.
pub proof fn lemma_subscribe_namespace_ok_round_trip(m: SubscribeNamespaceOk, rest: Seq<u8>)
    requires
        subscribe_namespace_ok_wf(m),
    ensures
        parse_subscribe_namespace_ok(subscribe_namespace_ok_bytes(m) + rest) == Ok::<(SubscribeNamespaceOk, int), DecodeError>(
            (m, subscribe_namespace_ok_bytes(m).len() as int),
        ),
{
    reveal(parse_subscribe_namespace_ok);
    let b1 = varint_bytes(m.request_id);
    let t2 = rest;
    let t1 = b1 + t2;
    assert(subscribe_namespace_ok_bytes(m) + rest =~= t1);
    lemma_varint_round_trip(m.request_id, t2);
}

impl SubscribeNamespaceOk {
    pub const ID: u64 = 0x12;

    pub fn encode(&self, w: &mut Vec<u8>)
        requires
            subscribe_namespace_ok_wf(self@),
        ensures
            final(w)@ == old(w)@ + subscribe_namespace_ok_bytes(self@),
    {
        encode_varint(self.request_id, w);
        assert(final(w)@ =~= old(w)@ + subscribe_namespace_ok_bytes(self@));
    }

    pub fn decode(buf: &[u8], pos: usize) -> (r: Result<(SubscribeNamespaceOk, usize), DecodeError>)
        requires
            pos <= buf@.len(),
        ensures
            decoded(r, pos, parse_subscribe_namespace_ok(buf@.skip(pos as int))),
            r matches Ok((_, p)) ==> pos <= p <= buf@.len(),
    {
        proof {
            reveal(parse_subscribe_namespace_ok);
        }
        let (request_id, p1) = match decode_varint(buf, pos) {
            Ok(x) => x,
            Err(e) => return Err(e),
        };
        Ok((SubscribeNamespaceOk { request_id }, p1))
    }
}

/// A namespace subscription was refused.
#[derive(Debug, Clone)]
pub struct SubscribeNamespaceError {
    pub request_id: u64,
    pub error_code: u64,
    pub reason_phrase: String,
}

pub struct SubscribeNamespaceErrorView {
    pub request_id: u64,
    pub error_code: u64,
    pub reason_phrase: Seq<char>,
}

impl View for SubscribeNamespaceError {
    type V = SubscribeNamespaceErrorView;

    open spec fn view(&self) -> SubscribeNamespaceErrorView {
        SubscribeNamespaceErrorView { request_id: self.request_id, error_code: self.error_code, reason_phrase: self.reason_phrase@ }
    }
}

/// A SubscribeNamespaceError that can be encoded.
pub open spec fn subscribe_namespace_error_wf(m: SubscribeNamespaceErrorView) -> bool {
    m.request_id < VARINT_LIMIT && m.error_code < VARINT_LIMIT && string_fits(m.reason_phrase)
}

pub open spec fn subscribe_namespace_error_bytes(m: SubscribeNamespaceErrorView) -> Seq<u8> {
    varint_bytes(m.request_id) + varint_bytes(m.error_code) + string_bytes(m.reason_phrase)
}

#[verifier::opaque]
pub open spec fn parse_subscribe_namespace_error(s: Seq<u8>) -> Result<(SubscribeNamespaceErrorView, int), DecodeError> {
    match parse_varint(s) {
        Err(e) => Err(e),
        Ok((request_id, n1)) => {
            let s2 = s.skip(n1);
            match parse_varint(s2) {
                Err(e) => Err(e),
                Ok((error_code, n2)) => {
                    let s3 = s2.skip(n2);
                    match parse_string(s3) {
                        Err(e) => Err(e),
                        Ok((reason_phrase, n3)) => {
                            Ok((SubscribeNamespaceErrorView { request_id, error_code, reason_phrase }, n1 + n2 + n3))
                        },
                    }
                },
            }
        },
    }
}

/// Decoding the encoding of a SubscribeNamespaceError gives it back.
pub proof fn lemma_subscribe_namespace_error_round_trip(m: SubscribeNamespaceErrorView, rest: Seq<u8>)
    requires
        subscribe_namespace_error_wf(m),
    ensures
        parse_subscribe_namespace_error(subscribe_namespace_error_bytes(m) + rest) == Ok::<(SubscribeNamespaceErrorView, int), DecodeError>(
            (m, subscribe_namespace_error_bytes(m).len() as int),
        ),
{
    reveal(parse_subscribe_namespace_error);
    let b1 = varint_bytes(m.request_id);
    let b2 = varint_bytes(m.error_code);
    let b3 = string_bytes(m.reason_phrase);
    let t4 = rest;
    let t3 = b3 + t4;
    let t2 = b2 + t3;
    let t1 = b1 + t2;
    assert(subscribe_namespace_error_bytes(m) + rest =~= t1);
    lemma_varint_round_trip(m.request_id, t2);
    assert(t1.skip(b1.len() as int) =~= t2);
    lemma_varint_round_trip(m.error_code, t3);
    assert(t2.skip(b2.len() as int) =~= t3);
    lemma_string_round_trip(m.reason_phrase, t4);
    assert(m == (SubscribeNamespaceErrorView { request_id: m.request_id, error_code: m.error_code, reason_phrase: m.reason_phrase }));
}

impl SubscribeNamespaceError {
    pub const ID: u64 = 0x13;

    pub fn encode(&self, w: &mut Vec<u8>)
        requires
            subscribe_namespace_error_wf(self@),
        ensures
            final(w)@ == old(w)@ + subscribe_namespace_error_bytes(self@),
    {
        encode_varint(self.request_id, w);
        encode_varint(self.error_code, w);
        encode_string(self.reason_phrase.as_str(), w);
        assert(final(w)@ =~= old(w)@ + subscribe_namespace_error_bytes(self@));
    }

    pub fn decode(buf: &[u8], pos: usize) -> (r: Result<(SubscribeNamespaceError, usize), DecodeError>)
        requires
            pos <= buf@.len(),
        ensures
            decoded(r, pos, parse_subscribe_namespace_error(buf@.skip(pos as int))),
            r matches Ok((_, p)) ==> pos <= p <= buf@.len(),
    {
        proof {
            reveal(parse_subscribe_namespace_error);
        }
        let (request_id, p1) = match decode_varint(buf, pos) {
            Ok(x) => x,
            Err(e) => return Err(e),
        };
        assert(buf@.skip(p1 as int) =~= buf@.skip(pos as int).skip(p1 - pos));
        let (error_code, p2) = match decode_varint(buf, p1) {
            Ok(x) => x,
            Err(e) => return Err(e),
        };
        assert(buf@.skip(p2 as int) =~= buf@.skip(p1 as int).skip(p2 - p1));
        let (reason_phrase, p3) = match decode_string(buf, p2) {
            Ok(x) => x,
            Err(e) => return Err(e),
        };
        Ok((SubscribeNamespaceError { request_id, error_code, reason_phrase }, p3))
    }
}

/// The subscriber no longer wants the announcements.
#[derive(Debug, Clone, Copy, PartialEq, Eq, Structural)]
pub struct UnsubscribeNamespace {
    pub request_id: u64,
}

impl View for UnsubscribeNamespace {
    type V = UnsubscribeNamespace;

    open spec fn view(&self) -> UnsubscribeNamespace {
        *self
    }
}

/// A UnsubscribeNamespace that can be encoded.
pub open spec fn unsubscribe_namespace_wf(m: UnsubscribeNamespace) -> bool {
    m.request_id < VARINT_LIMIT
}

pub open spec fn unsubscribe_namespace_bytes(m: UnsubscribeNamespace) -> Seq<u8> {
    varint_bytes(m.request_id)
}

#[verifier::opaque]
pub open spec fn parse_unsubscribe_namespace(s: Seq<u8>) -> Result<(UnsubscribeNamespace, int), DecodeError> {
    match parse_varint(s) {
        Err(e) => Err(e),
        Ok((request_id, n1)) => {
            Ok((UnsubscribeNamespace { request_id }, n1))
        },
    }
}

/// Decoding the encoding of a UnsubscribeNamespace gives it back.
pub proof fn lemma_unsubscribe_namespace_round_trip(m: UnsubscribeNamespace, rest: Seq<u8>)
    requires
        unsubscribe_namespace_wf(m),
    ensures
        parse_unsubscribe_namespace(unsubscribe_namespace_bytes(m) + rest) == Ok::<(UnsubscribeNamespace, int), DecodeError>(
            (m, unsubscribe_namespace_bytes(m).len() as int),
        ),
{
    reveal(parse_unsubscribe_namespace);
    let b1 = varint_bytes(m.request_id);
    let t2 = rest;
    let t1 = b1 + t2;
    assert(unsubscribe_namespace_bytes(m) + rest =~= t1);
    lemma_varint_round_trip(m.request_id, t2);
}

impl UnsubscribeNamespace {
    pub const ID: u64 = 0x14;

    pub fn encode(&self, w: &mut Vec<u8>)
        requires
            unsubscribe_namespace_wf(self@),
        ensures
            final(w)@ == old(w)@ + unsubscribe_namespace_bytes(self@),
    {
        encode_varint(self.request_id, w);
        assert(final(w)@ =~= old(w)@ + unsubscribe_namespace_bytes(self@));
    }

    pub fn decode(buf: &[u8], pos: usize) -> (r: Result<(UnsubscribeNamespace, usize), DecodeError>)
        requires
            pos <= buf@.len(),
        ensures
            decoded(r, pos, parse_unsubscribe_namespace(buf@.skip(pos as int))),
            r matches Ok((_, p)) ==> pos <= p <= buf@.len(),
    {
        proof {
            reveal(parse_unsubscribe_namespace);
        }
        let (request_id, p1) = match decode_varint(buf, pos) {
            Ok(x) => x,
            Err(e) => return Err(e),
        };
        Ok((UnsubscribeNamespace { request_id }, p1))
    }
}

} // verus!
