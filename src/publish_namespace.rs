//! Announcing broadcasts.

use crate::coding::{
    decode_string, decoded, encode_string, encode_u8, lemma_string_round_trip, parse_string,
    string_bytes, string_fits, DecodeError,
};
use crate::parameters::{params_bytes, params_wf, Parameters};
use crate::path::{lemma_path_round_trip, parse_path, path_bytes, path_fits, Path};
use crate::varint::{
    decode_varint, encode_varint, lemma_varint_round_trip, lemma_varint_zero, parse_varint,
    varint_bytes, VARINT_LIMIT,
};
use vstd::prelude::*;

verus! {

/// A namespace announcement was accepted.
#[derive(Debug, Clone, Copy, PartialEq, Eq, Structural)]
pub struct PublishNamespaceOk {
    pub request_id: u64,
}

impl View for PublishNamespaceOk {
    type V = PublishNamespaceOk;

    open spec fn view(&self) -> PublishNamespaceOk {
        *self
    }
}

/// A PublishNamespaceOk that can be encoded.
pub open spec fn publish_namespace_ok_wf(m: PublishNamespaceOk) -> bool {
    m.request_id < VARINT_LIMIT
}

pub open spec fn publish_namespace_ok_bytes(m: PublishNamespaceOk) -> Seq<u8> {
    varint_bytes(m.request_id)
}

#[verifier::opaque]
pub open spec fn parse_publish_namespace_ok(s: Seq<u8>) -> Result<(PublishNamespaceOk, int), DecodeError> {
    match parse_varint(s) {
        Err(e) => Err(e),
        Ok((request_id, n1)) => {
            Ok((PublishNamespaceOk { request_id }, n1))
        },
    }
}

/// Decoding the encoding of a PublishNamespaceOk gives it back.
pub proof fn lemma_publish_namespace_ok_round_trip(m: PublishNamespaceOk, rest: Seq<u8>)
    requires
        publish_namespace_ok_wf(m),
    ensures
        parse_publish_namespace_ok(publish_namespace_ok_bytes(m) + rest) == Ok::<(PublishNamespaceOk, int), DecodeError>(
            (m, publish_namespace_ok_bytes(m).len() as int),
        ),
{
    reveal(parse_publish_namespace_ok);
    let b1 = varint_bytes(m.request_id);
    let t2 = rest;
    let t1 = b1 + t2;
    assert(publish_namespace_ok_bytes(m) + rest =~= t1);
    lemma_varint_round_trip(m.request_id, t2);
}

impl PublishNamespaceOk {
    pub const ID: u64 = 0x07;

    pub fn encode(&self, w: &mut Vec<u8>)
        requires
            publish_namespace_ok_wf(self@),
        ensures
            final(w)@ == old(w)@ + publish_namespace_ok_bytes(self@),
    {
        encode_varint(self.request_id, w);
        assert(final(w)@ =~= old(w)@ + publish_namespace_ok_bytes(self@));
    }

    pub fn decode(buf: &[u8], pos: usize) -> (r: Result<(PublishNamespaceOk, usize), DecodeError>)
        requires
            pos <= buf@.len(),
        ensures
            decoded(r, pos, parse_publish_namespace_ok(buf@.skip(pos as int))),
            r matches Ok((_, p)) ==> pos <= p <= buf@.len(),
    {
        proof {
            reveal(parse_publish_namespace_ok);
        }
        let (request_id, p1) = match decode_varint(buf, pos) {
            Ok(x) => x,
            Err(e) => return Err(e),
        };
        Ok((PublishNamespaceOk { request_id }, p1))
    }
}

/// A namespace announcement was refused.
#[derive(Debug, Clone)]
pub struct PublishNamespaceError {
    pub request_id: u64,
    pub error_code: u64,
    pub reason_phrase: String,
}

pub struct PublishNamespaceErrorView {
    pub request_id: u64,
    pub error_code: u64,
    pub reason_phrase: Seq<char>,
}

impl View for PublishNamespaceError {
    type V = PublishNamespaceErrorView;

    open spec fn view(&self) -> PublishNamespaceErrorView {
        PublishNamespaceErrorView { request_id: self.request_id, error_code: self.error_code, reason_phrase: self.reason_phrase@ }
    }
}

/// A PublishNamespaceError that can be encoded.
pub open spec fn publish_namespace_error_wf(m: PublishNamespaceErrorView) -> bool {
    m.request_id < VARINT_LIMIT && m.error_code < VARINT_LIMIT && string_fits(m.reason_phrase)
}

pub open spec fn publish_namespace_error_bytes(m: PublishNamespaceErrorView) -> Seq<u8> {
    varint_bytes(m.request_id) + varint_bytes(m.error_code) + string_bytes(m.reason_phrase)
}

#[verifier::opaque]
pub open spec fn parse_publish_namespace_error(s: Seq<u8>) -> Result<(PublishNamespaceErrorView, int), DecodeError> {
    match parse_varint(s) {
        Err(e) => Err(e),
        Ok((request_id, n1)) => {
            let s2 = s.skip(n1);
            match parse_varint(s2) {
                Err(e) => Err(e),
                Ok((error_code, n2)) => {
                    let s3 = s2.skip(n2);
                    match parse_string(s3) {
                        Err(e) => Err(e),
                        Ok((reason_phrase, n3)) => {
                            Ok((PublishNamespaceErrorView { request_id, error_code, reason_phrase }, n1 + n2 + n3))
                        },
                    }
                },
            }
        },
    }
}

/// Decoding the encoding of a PublishNamespaceError gives it back.
pub proof fn lemma_publish_namespace_error_round_trip(m: PublishNamespaceErrorView, rest: Seq<u8>)
    requires
        publish_namespace_error_wf(m),
    ensures
        parse_publish_namespace_error(publish_namespace_error_bytes(m) + rest) == Ok::<(PublishNamespaceErrorView, int), DecodeError>(
            (m, publish_namespace_error_bytes(m).len() as int),
        ),
{
    reveal(parse_publish_namespace_error);
    let b1 = varint_bytes(m.request_id);
    let b2 = varint_bytes(m.error_code);
    let b3 = string_bytes(m.reason_phrase);
    let t4 = rest;
    let t3 = b3 + t4;
    let t2 = b2 + t3;
    let t1 = b1 + t2;
    assert(publish_namespace_error_bytes(m) + rest =~= t1);
    lemma_varint_round_trip(m.request_id, t2);
    assert(t1.skip(b1.len() as int) =~= t2);
    lemma_varint_round_trip(m.error_code, t3);
    assert(t2.skip(b2.len() as int) =~= t3);
    lemma_string_round_trip(m.reason_phrase, t4);
    assert(m == (PublishNamespaceErrorView { request_id: m.request_id, error_code: m.error_code, reason_phrase: m.reason_phrase }));
}

impl PublishNamespaceError {
    pub const ID: u64 = 0x08;

    pub fn encode(&self, w: &mut Vec<u8>)
        requires
            publish_namespace_error_wf(self@),
        ensures
            final(w)@ == old(w)@ + publish_namespace_error_bytes(self@),
    {
        encode_varint(self.request_id, w);
        encode_varint(self.error_code, w);
        encode_string(self.reason_phrase.as_str(), w);
        assert(final(w)@ =~= old(w)@ + publish_namespace_error_bytes(self@));
    }

    pub fn decode(buf: &[u8], pos: usize) -> (r: Result<(PublishNamespaceError, usize), DecodeError>)
        requires
            pos <= buf@.len(),
        ensures
            decoded(r, pos, parse_publish_namespace_error(buf@.skip(pos as int))),
            r matches Ok((_, p)) ==> pos <= p <= buf@.len(),
    {
        proof {
            reveal(parse_publish_namespace_error);
        }
        let (request_id, p1) = match decode_varint(buf, pos) {
            Ok(x) => x,
            Err(e) => return Err(e),
        };
        assert(buf@.skip(p1 as int) =~= buf@.skip(pos as int).skip(p1 - pos));
        let (error_code, p2) = match decode_varint(buf, p1) {
            Ok(x) => x,
            Err(e) => return Err(e),
        };
        assert(buf@.skip(p2 as int) =~= buf@.skip(p1 as int).skip(p2 - p1));
        let (reason_phrase, p3) = match decode_string(buf, p2) {
            Ok(x) => x,
            Err(e) => return Err(e),
        };
        Ok((PublishNamespaceError { request_id, error_code, reason_phrase }, p3))
    }
}

/// A namespace is no longer announced.
#[derive(Debug, Clone)]
pub struct PublishNamespaceDone {
    pub track_namespace: Path,
}

pub struct PublishNamespaceDoneView {
    pub track_namespace: Seq<char>,
}

impl View for PublishNamespaceDone {
    type V = PublishNamespaceDoneView;

    open spec fn view(&self) -> PublishNamespaceDoneView {
        PublishNamespaceDoneView { track_namespace: self.track_namespace@ }
    }
}

/// A PublishNamespaceDone that can be encoded.
pub open spec fn publish_namespace_done_wf(m: PublishNamespaceDoneView) -> bool {
    path_fits(m.track_namespace)
}

pub open spec fn publish_namespace_done_bytes(m: PublishNamespaceDoneView) -> Seq<u8> {
    path_bytes(m.track_namespace)
}

#[verifier::opaque]
pub open spec fn parse_publish_namespace_done(s: Seq<u8>) -> Result<(PublishNamespaceDoneView, int), DecodeError> {
    match parse_path(s) {
        Err(e) => Err(e),
        Ok((track_namespace, n1)) => {
            Ok((PublishNamespaceDoneView { track_namespace }, n1))
        },
    }
}

/// Decoding the encoding of a PublishNamespaceDone gives it back.
pub proof fn lemma_publish_namespace_done_round_trip(m: PublishNamespaceDoneView, rest: Seq<u8>)
    requires
        publish_namespace_done_wf(m),
    ensures
        parse_publish_namespace_done(publish_namespace_done_bytes(m) + rest) == Ok::<(PublishNamespaceDoneView, int), DecodeError>(
            (m, publish_namespace_done_bytes(m).len() as int),
        ),
{
    reveal(parse_publish_namespace_done);
    let b1 = path_bytes(m.track_namespace);
    let t2 = rest;
    let t1 = b1 + t2;
    assert(publish_namespace_done_bytes(m) + rest =~= t1);
    lemma_path_round_trip(m.track_namespace, t2);
    assert(m == (PublishNamespaceDoneView { track_namespace: m.track_namespace }));
}

impl PublishNamespaceDone {
    pub const ID: u64 = 0x09;

    pub fn encode(&self, w: &mut Vec<u8>)
        requires
            publish_namespace_done_wf(self@),
        ensures
            final(w)@ == old(w)@ + publish_namespace_done_bytes(self@),
    {
        self.track_namespace.encode(w);
        assert(final(w)@ =~= old(w)@ + publish_namespace_done_bytes(self@));
    }

    pub fn decode(buf: &[u8], pos: usize) -> (r: Result<(PublishNamespaceDone, usize), DecodeError>)
        requires
            pos <= buf@.len(),
        ensures
            decoded(r, pos, parse_publish_namespace_done(buf@.skip(pos as int))),
            r matches Ok((_, p)) ==> pos <= p <= buf@.len(),
    {
        proof {
            reveal(parse_publish_namespace_done);
        }
        let (track_namespace, p1) = match Path::decode(buf, pos) {
            Ok(x) => x,
            Err(e) => return Err(e),
        };
        Ok((PublishNamespaceDone { track_namespace }, p1))
    }
}

/// The subscriber no longer accepts an announced namespace.
#[derive(Debug, Clone)]
pub struct PublishNamespaceCancel {
    pub track_namespace: Path,
    pub error_code: u64,
    pub reason_phrase: String,
}

pub struct PublishNamespaceCancelView {
    pub track_namespace: Seq<char>,
    pub error_code: u64,
    pub reason_phrase: Seq<char>,
}

impl View for PublishNamespaceCancel {
    type V = PublishNamespaceCancelView;

    open spec fn view(&self) -> PublishNamespaceCancelView {
        PublishNamespaceCancelView { track_namespace: self.track_namespace@, error_code: self.error_code, reason_phrase: self.reason_phrase@ }
    }
}

/// A PublishNamespaceCancel that can be encoded.
pub open spec fn publish_namespace_cancel_wf(m: PublishNamespaceCancelView) -> bool {
    path_fits(m.track_namespace) && m.error_code < VARINT_LIMIT && string_fits(m.reason_phrase)
}

pub open spec fn publish_namespace_cancel_bytes(m: PublishNamespaceCancelView) -> Seq<u8> {
    path_bytes(m.track_namespace) + varint_bytes(m.error_code) + string_bytes(m.reason_phrase)
}

#[verifier::opaque]
pub open spec fn parse_publish_namespace_cancel(s: Seq<u8>) -> Result<(PublishNamespaceCancelView, int), DecodeError> {
    match parse_path(s) {
        Err(e) => Err(e),
        Ok((track_namespace, n1)) => {
            let s2 = s.skip(n1);
            match parse_varint(s2) {
                Err(e) => Err(e),
                Ok((error_code, n2)) => {
                    let s3 = s2.skip(n2);
                    match parse_string(s3) {
                        Err(e) => Err(e),
                        Ok((reason_phrase, n3)) => {
                            Ok((PublishNamespaceCancelView { track_namespace, error_code, reason_phrase }, n1 + n2 + n3))
                        },
                    }
                },
            }
        },
    }
}

/// Decoding the encoding of a PublishNamespaceCancel gives it back.
pub proof fn lemma_publish_namespace_cancel_round_trip(m: PublishNamespaceCancelView, rest: Seq<u8>)
    requires
        publish_namespace_cancel_wf(m),
    ensures
        parse_publish_namespace_cancel(publish_namespace_cancel_bytes(m) + rest) == Ok::<(PublishNamespaceCancelView, int), DecodeError>(
            (m, publish_namespace_cancel_bytes(m).len() as int),
        ),
{
    reveal(parse_publish_namespace_cancel);
    let b1 = path_bytes(m.track_namespace);
    let b2 = varint_bytes(m.error_code);
    let b3 = string_bytes(m.reason_phrase);
    let t4 = rest;
    let t3 = b3 + t4;
    let t2 = b2 + t3;
    let t1 = b1 + t2;
    assert(publish_namespace_cancel_bytes(m) + rest =~= t1);
    lemma_path_round_trip(m.track_namespace, t2);
    assert(t1.skip(b1.len() as int) =~= t2);
    lemma_varint_round_trip(m.error_code, t3);
    assert(t2.skip(b2.len() as int) =~= t3);
    lemma_string_round_trip(m.reason_phrase, t4);
    assert(m == (PublishNamespaceCancelView { track_namespace: m.track_namespace, error_code: m.error_code, reason_phrase: m.reason_phrase }));
}

impl PublishNamespaceCancel {
    pub const ID: u64 = 0x0c;

    pub fn encode(&self, w: &mut Vec<u8>)
        requires
            publish_namespace_cancel_wf(self@),
        ensures
            final(w)@ == old(w)@ + publish_namespace_cancel_bytes(self@),
    {
        self.track_namespace.encode(w);
        encode_varint(self.error_code, w);
        encode_string(self.reason_phrase.as_str(), w);
        assert(final(w)@ =~= old(w)@ + publish_namespace_cancel_bytes(self@));
    }

    pub fn decode(buf: &[u8], pos: usize) -> (r: Result<(PublishNamespaceCancel, usize), DecodeError>)
        requires
            pos <= buf@.len(),
        ensures
            decoded(r, pos, parse_publish_namespace_cancel(buf@.skip(pos as int))),
            r matches Ok((_, p)) ==> pos <= p <= buf@.len(),
    {
        proof {
            reveal(parse_publish_namespace_cancel);
        }
        let (track_namespace, p1) = match Path::decode(buf, pos) {
            Ok(x) => x,
            Err(e) => return Err(e),
        };
        assert(buf@.skip(p1 as int) =~= buf@.skip(pos as int).skip(p1 - pos));
        let (error_code, p2) = match decode_varint(buf, p1) {
            Ok(x) => x,
            Err(e) => return Err(e),
        };
        assert(buf@.skip(p2 as int) =~= buf@.skip(p1 as int).skip(p2 - p1));
        let (reason_phrase, p3) = match decode_string(buf, p2) {
            Ok(x) => x,
            Err(e) => return Err(e),
        };
        Ok((PublishNamespaceCancel { track_namespace, error_code, reason_phrase }, p3))
    }
}

/// Announces a broadcast under `track_namespace`.
#[derive(Debug, Clone)]
pub struct PublishNamespace {
    pub request_id: u64,
    pub track_namespace: Path,
}

pub struct PublishNamespaceView {
    pub request_id: u64,
    pub track_namespace: Seq<char>,
}

impl View for PublishNamespace {
    type V = PublishNamespaceView;

    open spec fn view(&self) -> PublishNamespaceView {
        PublishNamespaceView { request_id: self.request_id, track_namespace: self.track_namespace@ }
    }
}

pub open spec fn publish_namespace_wf(m: PublishNamespaceView) -> bool {
    m.request_id < VARINT_LIMIT && path_fits(m.track_namespace)
}

/// No parameters.
pub open spec fn publish_namespace_bytes(m: PublishNamespaceView) -> Seq<u8> {
    varint_bytes(m.request_id) + path_bytes(m.track_namespace) + seq![0u8]
}

/// Parameters are refused: their count must be zero.
#[verifier::opaque]
pub open spec fn parse_publish_namespace(s: Seq<u8>) -> Result<(PublishNamespaceView, int), DecodeError> {
    match parse_varint(s) {
        Err(e) => Err(e),
        Ok((request_id, n1)) => {
            let s2 = s.skip(n1);
            match parse_path(s2) {
                Err(e) => Err(e),
                Ok((track_namespace, n2)) => match parse_varint(s2.skip(n2)) {
                    Err(e) => Err(e),
                    Ok((count, n3)) => if count != 0 {
                        Err(DecodeError::Unsupported)
                    } else {
                        Ok((PublishNamespaceView { request_id, track_namespace }, n1 + n2 + n3))
                    },
                },
            }
        },
    }
}

pub proof fn lemma_publish_namespace_round_trip(m: PublishNamespaceView, rest: Seq<u8>)
    requires
        publish_namespace_wf(m),
    ensures
        parse_publish_namespace(publish_namespace_bytes(m) + rest) == Ok::<
            (PublishNamespaceView, int),
            DecodeError,
        >((m, publish_namespace_bytes(m).len() as int)),
{
    reveal(parse_publish_namespace);
    let b1 = varint_bytes(m.request_id);
    let b2 = path_bytes(m.track_namespace);
    let b3 = seq![0u8];
    let t3 = b3 + rest;
    let t2 = b2 + t3;
    let t1 = b1 + t2;
    assert(publish_namespace_bytes(m) + rest =~= t1);
    lemma_varint_round_trip(m.request_id, t2);
    assert(t1.skip(b1.len() as int) =~= t2);
    lemma_path_round_trip(m.track_namespace, t3);
    assert(t2.skip(b2.len() as int) =~= t3);
    lemma_varint_zero();
    lemma_varint_round_trip(0, rest);
}

/// A PublishNamespace that carries any parameters is refused as
/// unsupported.
pub proof fn lemma_publish_namespace_refuses_parameters(
    m: PublishNamespaceView,
    es: Seq<(u64, Seq<u8>)>,
    rest: Seq<u8>,
)
    requires
        publish_namespace_wf(m),
        es.len() > 0,
        params_wf(es),
    ensures
        parse_publish_namespace(varint_bytes(m.request_id) + path_bytes(m.track_namespace)
            + params_bytes(es) + rest) == Err::<(PublishNamespaceView, int), DecodeError>(
            DecodeError::Unsupported,
        ),
{
    reveal(parse_publish_namespace);
    let b1 = varint_bytes(m.request_id);
    let b2 = path_bytes(m.track_namespace);
    let b3 = params_bytes(es);
    let t3 = b3 + rest;
    let t2 = b2 + t3;
    let t1 = b1 + t2;
    assert(b1 + b2 + b3 + rest =~= t1);
    lemma_varint_round_trip(m.request_id, t2);
    assert(t1.skip(b1.len() as int) =~= t2);
    lemma_path_round_trip(m.track_namespace, t3);
    assert(t2.skip(b2.len() as int) =~= t3);
    let n = es.len() as u64;
    lemma_varint_round_trip(n, crate::parameters::entries_bytes(es) + rest);
    assert(t3 =~= varint_bytes(n) + (crate::parameters::entries_bytes(es) + rest));
}

impl PublishNamespace {
    pub const ID: u64 = 0x06;

    pub fn encode(&self, w: &mut Vec<u8>)
        requires
            publish_namespace_wf(self@),
        ensures
            final(w)@ == old(w)@ + publish_namespace_bytes(self@),
    {
        encode_varint(self.request_id, w);
        self.track_namespace.encode(w);
        encode_u8(0, w);
        assert(final(w)@ =~= old(w)@ + publish_namespace_bytes(self@));
    }

    pub fn decode(buf: &[u8], pos: usize) -> (r: Result<(PublishNamespace, usize), DecodeError>)
        requires
            pos <= buf@.len(),
        ensures
            decoded(r, pos, parse_publish_namespace(buf@.skip(pos as int))),
            r matches Ok((_, p)) ==> pos <= p <= buf@.len(),
    {
        proof {
            reveal(parse_publish_namespace);
        }
        let (request_id, p1) = match decode_varint(buf, pos) {
            Ok(x) => x,
            Err(e) => return Err(e),
        };
        assert(buf@.skip(p1 as int) =~= buf@.skip(pos as int).skip(p1 - pos));
        let (track_namespace, p2) = match Path::decode(buf, p1) {
            Ok(x) => x,
            Err(e) => return Err(e),
        };
        assert(buf@.skip(p2 as int) =~= buf@.skip(p1 as int).skip(p2 - p1));
        let (count, p3) = match decode_varint(buf, p2) {
            Ok(x) => x,
            Err(e) => return Err(e),
        };
        if count != 0 {
            return Err(DecodeError::Unsupported);
        }
        Ok((PublishNamespace { request_id, track_namespace }, p3))
    }
}

} // verus!
