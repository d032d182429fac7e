//! Fetches, which this implementation refuses but can encode and decode.

use crate::coding::{
    bool_bytes, decode_bool, decode_string, decode_u8, decoded, encode_bool, encode_string,
    encode_u8, lemma_bool_round_trip, lemma_string_round_trip, lemma_u8_round_trip, parse_bool,
    parse_string, parse_u8, string_bytes, string_fits, DecodeError,
};
use crate::group::{group_order_bytes, lemma_group_order_round_trip, parse_group_order, GroupOrder};
use crate::location::{
    lemma_location_round_trip, location_bytes, location_wf, parse_location, Location,
};
use crate::parameters::{lemma_no_params, parse_params, Parameters};
use crate::path::{lemma_path_round_trip, parse_path, path_bytes, path_fits, Path};
use crate::varint::{
    decode_varint, encode_varint, lemma_varint_round_trip, parse_varint, varint_bytes,
    VARINT_LIMIT,
};
use vstd::prelude::*;

verus! {

/// A fetch was accepted.
#[derive(Debug, Clone, Copy, PartialEq, Eq, Structural)]
pub struct FetchOk {
    pub request_id: u64,
    pub group_order: GroupOrder,
    pub end_of_track: bool,
    pub end_location: Location,
}

impl View for FetchOk {
    type V = FetchOk;

    open spec fn view(&self) -> FetchOk {
        *self
    }
}

/// A FetchOk that can be encoded.
pub open spec fn fetch_ok_wf(m: FetchOk) -> bool {
    m.request_id < VARINT_LIMIT && location_wf(m.end_location)
}

pub open spec fn fetch_ok_bytes(m: FetchOk) -> Seq<u8> {
    varint_bytes(m.request_id) + group_order_bytes(m.group_order) + bool_bytes(m.end_of_track) + location_bytes(m.end_location) + seq![0u8]
}

#[verifier::opaque]
pub open spec fn parse_fetch_ok(s: Seq<u8>) -> Result<(FetchOk, int), DecodeError> {
    match parse_varint(s) {
        Err(e) => Err(e),
        Ok((request_id, n1)) => {
            let s2 = s.skip(n1);
            match parse_group_order(s2) {
                Err(e) => Err(e),
                Ok((group_order, n2)) => {
                    let s3 = s2.skip(n2);
                    match parse_bool(s3) {
                        Err(e) => Err(e),
                        Ok((end_of_track, n3)) => {
                            let s4 = s3.skip(n3);
                            match parse_location(s4) {
                                Err(e) => Err(e),
                                Ok((end_location, n4)) => {
                                    let s5 = s4.skip(n4);
                                    match parse_params(s5) {
                                        Err(e) => Err(e),
                                        Ok((_, n5)) => {
                                            Ok((FetchOk { request_id, group_order, end_of_track, end_location }, n1 + n2 + n3 + n4 + n5))
                                        },
                                    }
                                },
                            }
                        },
                    }
                },
            }
        },
    }
}

/// Decoding the encoding of a FetchOk gives it back.
#[verifier::rlimit(50)]
pub proof fn lemma_fetch_ok_round_trip(m: FetchOk, rest: Seq<u8>)
    requires
        fetch_ok_wf(m),
    ensures
        parse_fetch_ok(fetch_ok_bytes(m) + rest) == Ok::<(FetchOk, int), DecodeError>(
            (m, fetch_ok_bytes(m).len() as int),
        ),
{
    reveal(parse_fetch_ok);
    let b1 = varint_bytes(m.request_id);
    let b2 = group_order_bytes(m.group_order);
    let b3 = bool_bytes(m.end_of_track);
    let b4 = location_bytes(m.end_location);
    let b5 = seq![0u8];
    let t6 = rest;
    let t5 = b5 + t6;
    let t4 = b4 + t5;
    let t3 = b3 + t4;
    let t2 = b2 + t3;
    let t1 = b1 + t2;
    assert(fetch_ok_bytes(m) + rest =~= t1);
    lemma_varint_round_trip(m.request_id, t2);
    assert(t1.skip(b1.len() as int) =~= t2);
    lemma_group_order_round_trip(m.group_order, t3);
    assert(t2.skip(b2.len() as int) =~= t3);
    lemma_bool_round_trip(m.end_of_track, t4);
    assert(t3.skip(b3.len() as int) =~= t4);
    lemma_location_round_trip(m.end_location, t5);
    assert(t4.skip(b4.len() as int) =~= t5);
    lemma_no_params(t6);
}

impl FetchOk {
    pub const ID: u64 = 0x18;

    pub fn encode(&self, w: &mut Vec<u8>)
        requires
            fetch_ok_wf(self@),
        ensures
            final(w)@ == old(w)@ + fetch_ok_bytes(self@),
    {
        encode_varint(self.request_id, w);
        self.group_order.encode(w);
        encode_bool(self.end_of_track, w);
        self.end_location.encode(w);
        encode_u8(0, w);
        assert(final(w)@ =~= old(w)@ + fetch_ok_bytes(self@));
    }

    pub fn decode(buf: &[u8], pos: usize) -> (r: Result<(FetchOk, usize), DecodeError>)
        requires
            pos <= buf@.len(),
        ensures
            decoded(r, pos, parse_fetch_ok(buf@.skip(pos as int))),
            r matches Ok((_, p)) ==> pos <= p <= buf@.len(),
    {
        proof {
            reveal(parse_fetch_ok);
        }
        let (request_id, p1) = match decode_varint(buf, pos) {
            Ok(x) => x,
            Err(e) => return Err(e),
        };
        assert(buf@.skip(p1 as int) =~= buf@.skip(pos as int).skip(p1 - pos));
        let (group_order, p2) = match GroupOrder::decode(buf, p1) {
            Ok(x) => x,
            Err(e) => return Err(e),
        };
        assert(buf@.skip(p2 as int) =~= buf@.skip(p1 as int).skip(p2 - p1));
        let (end_of_track, p3) = match decode_bool(buf, p2) {
            Ok(x) => x,
            Err(e) => return Err(e),
        };
        assert(buf@.skip(p3 as int) =~= buf@.skip(p2 as int).skip(p3 - p2));
        let (end_location, p4) = match Location::decode(buf, p3) {
            Ok(x) => x,
            Err(e) => return Err(e),
        };
        assert(buf@.skip(p4 as int) =~= buf@.skip(p3 as int).skip(p4 - p3));
        let (_, p5) = match Parameters::decode(buf, p4) {
            Ok(x) => x,
            Err(e) => return Err(e),
        };
        Ok((FetchOk { request_id, group_order, end_of_track, end_location }, p5))
    }
}

/// A fetch was refused.
#[derive(Debug, Clone)]
pub struct FetchError {
    pub request_id: u64,
    pub error_code: u64,
    pub reason_phrase: String,
}

pub struct FetchErrorView {
    pub request_id: u64,
    pub error_code: u64,
    pub reason_phrase: Seq<char>,
}

impl View for FetchError {
    type V = FetchErrorView;

    open spec fn view(&self) -> FetchErrorView {
        FetchErrorView { request_id: self.request_id, error_code: self.error_code, reason_phrase: self.reason_phrase@ }
    }
}

/// A FetchError that can be encoded.
pub open spec fn fetch_error_wf(m: FetchErrorView) -> bool {
    m.request_id < VARINT_LIMIT && m.error_code < VARINT_LIMIT && string_fits(m.reason_phrase)
}

pub open spec fn fetch_error_bytes(m: FetchErrorView) -> Seq<u8> {
    varint_bytes(m.request_id) + varint_bytes(m.error_code) + string_bytes(m.reason_phrase)
}

#[verifier::opaque]
pub open spec fn parse_fetch_error(s: Seq<u8>) -> Result<(FetchErrorView, int), DecodeError> {
    match parse_varint(s) {
        Err(e) => Err(e),
        Ok((request_id, n1)) => {
            let s2 = s.skip(n1);
            match parse_varint(s2) {
                Err(e) => Err(e),
                Ok((error_code, n2)) => {
                    let s3 = s2.skip(n2);
                    match parse_string(s3) {
                        Err(e) => Err(e),
                        Ok((reason_phrase, n3)) => {
                            Ok((FetchErrorView { request_id, error_code, reason_phrase }, n1 + n2 + n3))
                        },
                    }
                },
            }
        },
    }
}

/// Decoding the encoding of a FetchError gives it back.
pub proof fn lemma_fetch_error_round_trip(m: FetchErrorView, rest: Seq<u8>)
    requires
        fetch_error_wf(m),
    ensures
        parse_fetch_error(fetch_error_bytes(m) + rest) == Ok::<(FetchErrorView, int), DecodeError>(
            (m, fetch_error_bytes(m).len() as int),
        ),
{
    reveal(parse_fetch_error);
    let b1 = varint_bytes(m.request_id);
    let b2 = varint_bytes(m.error_code);
    let b3 = string_bytes(m.reason_phrase);
    let t4 = rest;
    let t3 = b3 + t4;
    let t2 = b2 + t3;
    let t1 = b1 + t2;
    assert(fetch_error_bytes(m) + rest =~= t1);
    lemma_varint_round_trip(m.request_id, t2);
    assert(t1.skip(b1.len() as int) =~= t2);
    lemma_varint_round_trip(m.error_code, t3);
    assert(t2.skip(b2.len() as int) =~= t3);
    lemma_string_round_trip(m.reason_phrase, t4);
    assert(m == (FetchErrorView { request_id: m.request_id, error_code: m.error_code, reason_phrase: m.reason_phrase }));
}

impl FetchError {
    pub const ID: u64 = 0x19;

    pub fn encode(&self, w: &mut Vec<u8>)
        requires
            fetch_error_wf(self@),
        ensures
            final(w)@ == old(w)@ + fetch_error_bytes(self@),
    {
        encode_varint(self.request_id, w);
        encode_varint(self.error_code, w);
        encode_string(self.reason_phrase.as_str(), w);
        assert(final(w)@ =~= old(w)@ + fetch_error_bytes(self@));
    }

    pub fn decode(buf: &[u8], pos: usize) -> (r: Result<(FetchError, usize), DecodeError>)
        requires
            pos <= buf@.len(),
        ensures
            decoded(r, pos, parse_fetch_error(buf@.skip(pos as int))),
            r matches Ok((_, p)) ==> pos <= p <= buf@.len(),
    {
        proof {
            reveal(parse_fetch_error);
        }
        let (request_id, p1) = match decode_varint(buf, pos) {
            Ok(x) => x,
            Err(e) => return Err(e),
        };
        assert(buf@.skip(p1 as int) =~= buf@.skip(pos as int).skip(p1 - pos));
        let (error_code, p2) = match decode_varint(buf, p1) {
            Ok(x) => x,
            Err(e) => return Err(e),
        };
        assert(buf@.skip(p2 as int) =~= buf@.skip(p1 as int).skip(p2 - p1));
        let (reason_phrase, p3) = match decode_string(buf, p2) {
            Ok(x) => x,
            Err(e) => return Err(e),
        };
        Ok((FetchError { request_id, error_code, reason_phrase }, p3))
    }
}

/// The fetcher no longer wants the objects.
#[derive(Debug, Clone, Copy, PartialEq, Eq, Structural)]
pub struct FetchCancel {
    pub request_id: u64,
}

impl View for FetchCancel {
    type V = FetchCancel;

    open spec fn view(&self) -> FetchCancel {
        *self
    }
}

/// A FetchCancel that can be encoded.
pub open spec fn fetch_cancel_wf(m: FetchCancel) -> bool {
    m.request_id < VARINT_LIMIT
}

pub open spec fn fetch_cancel_bytes(m: FetchCancel) -> Seq<u8> {
    varint_bytes(m.request_id)
}

#[verifier::opaque]
pub open spec fn parse_fetch_cancel(s: Seq<u8>) -> Result<(FetchCancel, int), DecodeError> {
    match parse_varint(s) {
        Err(e) => Err(e),
        Ok((request_id, n1)) => {
            Ok((FetchCancel { request_id }, n1))
        },
    }
}

/// Decoding the encoding of a FetchCancel gives it back.
pub proof fn lemma_fetch_cancel_round_trip(m: FetchCancel, rest: Seq<u8>)
    requires
        fetch_cancel_wf(m),
    ensures
        parse_fetch_cancel(fetch_cancel_bytes(m) + rest) == Ok::<(FetchCancel, int), DecodeError>(
            (m, fetch_cancel_bytes(m).len() as int),
        ),
{
    reveal(parse_fetch_cancel);
    let b1 = varint_bytes(m.request_id);
    let t2 = rest;
    let t1 = b1 + t2;
    assert(fetch_cancel_bytes(m) + rest =~= t1);
    lemma_varint_round_trip(m.request_id, t2);
}

impl FetchCancel {
    pub const ID: u64 = 0x17;

    pub fn encode(&self, w: &mut Vec<u8>)
        requires
            fetch_cancel_wf(self@),
        ensures
            final(w)@ == old(w)@ + fetch_cancel_bytes(self@),
    {
        encode_varint(self.request_id, w);
        assert(final(w)@ =~= old(w)@ + fetch_cancel_bytes(self@));
    }

    pub fn decode(buf: &[u8], pos: usize) -> (r: Result<(FetchCancel, usize), DecodeError>)
        requires
            pos <= buf@.len(),
        ensures
            decoded(r, pos, parse_fetch_cancel(buf@.skip(pos as int))),
            r matches Ok((_, p)) ==> pos <= p <= buf@.len(),
    {
        proof {
            reveal(parse_fetch_cancel);
        }
        let (request_id, p1) = match decode_varint(buf, pos) {
            Ok(x) => x,
            Err(e) => return Err(e),
        };
        Ok((FetchCancel { request_id }, p1))
    }
}

/// The header of a fetch stream.
#[derive(Debug, Clone, Copy, PartialEq, Eq, Structural)]
pub struct FetchHeader {
    pub request_id: u64,
}

impl View for FetchHeader {
    type V = FetchHeader;

    open spec fn view(&self) -> FetchHeader {
        *self
    }
}

/// A FetchHeader that can be encoded.
pub open spec fn fetch_header_wf(m: FetchHeader) -> bool {
    m.request_id < VARINT_LIMIT
}

pub open spec fn fetch_header_bytes(m: FetchHeader) -> Seq<u8> {
    varint_bytes(m.request_id)
}

#[verifier::opaque]
pub open spec fn parse_fetch_header(s: Seq<u8>) -> Result<(FetchHeader, int), DecodeError> {
    match parse_varint(s) {
        Err(e) => Err(e),
        Ok((request_id, n1)) => {
            Ok((FetchHeader { request_id }, n1))
        },
    }
}

/// Decoding the encoding of a FetchHeader gives it back.
pub proof fn lemma_fetch_header_round_trip(m: FetchHeader, rest: Seq<u8>)
    requires
        fetch_header_wf(m),
    ensures
        parse_fetch_header(fetch_header_bytes(m) + rest) == Ok::<(FetchHeader, int), DecodeError>(
            (m, fetch_header_bytes(m).len() as int),
        ),
{
    reveal(parse_fetch_header);
    let b1 = varint_bytes(m.request_id);
    let t2 = rest;
    let t1 = b1 + t2;
    assert(fetch_header_bytes(m) + rest =~= t1);
    lemma_varint_round_trip(m.request_id, t2);
}

impl FetchHeader {
    pub const TYPE: u64 = 0x5;

    pub fn encode(&self, w: &mut Vec<u8>)
        requires
            fetch_header_wf(self@),
        ensures
            final(w)@ == old(w)@ + fetch_header_bytes(self@),
    {
        encode_varint(self.request_id, w);
        assert(final(w)@ =~= old(w)@ + fetch_header_bytes(self@));
    }

    pub fn decode(buf: &[u8], pos: usize) -> (r: Result<(FetchHeader, usize), DecodeError>)
        requires
            pos <= buf@.len(),
        ensures
            decoded(r, pos, parse_fetch_header(buf@.skip(pos as int))),
            r matches Ok((_, p)) ==> pos <= p <= buf@.len(),
    {
        proof {
            reveal(parse_fetch_header);
        }
        let (request_id, p1) = match decode_varint(buf, pos) {
            Ok(x) => x,
            Err(e) => return Err(e),
        };
        Ok((FetchHeader { request_id }, p1))
    }
}

/// What a fetch asks for.
#[derive(Debug, Clone)]
pub enum FetchType {
    Standalone { namespace: Path, track: String, start: Location, end: Location },
    RelativeJoining { subscriber_request_id: u64, group_offset: u64 },
    AbsoluteJoining { subscriber_request_id: u64, group_id: u64 },
}

pub enum FetchTypeView {
    Standalone { namespace: Seq<char>, track: Seq<char>, start: Location, end: Location },
    RelativeJoining { subscriber_request_id: u64, group_offset: u64 },
    AbsoluteJoining { subscriber_request_id: u64, group_id: u64 },
}

impl View for FetchType {
    type V = FetchTypeView;

    open spec fn view(&self) -> FetchTypeView {
        match self {
            FetchType::Standalone { namespace, track, start, end } => FetchTypeView::Standalone {
                namespace: namespace@,
                track: track@,
                start: *start,
                end: *end,
            },
            FetchType::RelativeJoining { subscriber_request_id, group_offset } =>
                FetchTypeView::RelativeJoining {
                subscriber_request_id: *subscriber_request_id,
                group_offset: *group_offset,
            },
            FetchType::AbsoluteJoining { subscriber_request_id, group_id } =>
                FetchTypeView::AbsoluteJoining {
                subscriber_request_id: *subscriber_request_id,
                group_id: *group_id,
            },
        }
    }
}

pub open spec fn fetch_type_wf(t: FetchTypeView) -> bool {
    match t {
        FetchTypeView::Standalone { namespace, track, start, end } => path_fits(namespace)
            && string_fits(track) && location_wf(start) && location_wf(end),
        FetchTypeView::RelativeJoining { subscriber_request_id, group_offset } =>
            subscriber_request_id < VARINT_LIMIT && group_offset < VARINT_LIMIT,
        FetchTypeView::AbsoluteJoining { subscriber_request_id, group_id } => subscriber_request_id
            < VARINT_LIMIT && group_id < VARINT_LIMIT,
    }
}

/// A tag of 1, 2 or 3, then the fields of the kind.
pub open spec fn fetch_type_bytes(t: FetchTypeView) -> Seq<u8> {
    match t {
        FetchTypeView::Standalone { namespace, track, start, end } => seq![1u8] + path_bytes(
            namespace,
        ) + string_bytes(track) + location_bytes(start) + location_bytes(end),
        FetchTypeView::RelativeJoining { subscriber_request_id, group_offset } => seq![2u8]
            + varint_bytes(subscriber_request_id) + varint_bytes(group_offset),
        FetchTypeView::AbsoluteJoining { subscriber_request_id, group_id } => seq![3u8]
            + varint_bytes(subscriber_request_id) + varint_bytes(group_id),
    }
}

/// Two variable-length integers.
pub open spec fn parse_pair(s: Seq<u8>) -> Result<((u64, u64), int), DecodeError> {
    match parse_varint(s) {
        Err(e) => Err(e),
        Ok((a, n1)) => match parse_varint(s.skip(n1)) {
            Err(e) => Err(e),
            Ok((b, n2)) => Ok(((a, b), n1 + n2)),
        },
    }
}

#[verifier::opaque]
pub open spec fn parse_fetch_type(s: Seq<u8>) -> Result<(FetchTypeView, int), DecodeError> {
    match parse_varint(s) {
        Err(e) => Err(e),
        Ok((tag, n1)) => {
            let s2 = s.skip(n1);
            if tag == 1 {
                match parse_path(s2) {
                    Err(e) => Err(e),
                    Ok((namespace, n2)) => {
                        let s3 = s2.skip(n2);
                        match parse_string(s3) {
                            Err(e) => Err(e),
                            Ok((track, n3)) => {
                                let s4 = s3.skip(n3);
                                match parse_location(s4) {
                                    Err(e) => Err(e),
                                    Ok((start, n4)) => match parse_location(s4.skip(n4)) {
                                        Err(e) => Err(e),
                                        Ok((end, n5)) => Ok(
                                            (
                                                FetchTypeView::Standalone {
                                                    namespace,
                                                    track,
                                                    start,
                                                    end,
                                                },
                                                n1 + n2 + n3 + n4 + n5,
                                            ),
                                        ),
                                    },
                                }
                            },
                        }
                    },
                }
            } else if tag == 2 {
                match parse_pair(s2) {
                    Err(e) => Err(e),
                    Ok(((a, b), n2)) => Ok(
                        (
                            FetchTypeView::RelativeJoining {
                                subscriber_request_id: a,
                                group_offset: b,
                            },
                            n1 + n2,
                        ),
                    ),
                }
            } else if tag == 3 {
                match parse_pair(s2) {
                    Err(e) => Err(e),
                    Ok(((a, b), n2)) => Ok(
                        (FetchTypeView::AbsoluteJoining { subscriber_request_id: a, group_id: b }, n1 + n2),
                    ),
                }
            } else {
                Err(DecodeError::InvalidValue)
            }
        },
    }
}

pub proof fn lemma_pair_round_trip(a: u64, b: u64, rest: Seq<u8>)
    requires
        a < VARINT_LIMIT,
        b < VARINT_LIMIT,
    ensures
        parse_pair(varint_bytes(a) + varint_bytes(b) + rest) == Ok::<((u64, u64), int), DecodeError>(
            ((a, b), (varint_bytes(a) + varint_bytes(b)).len() as int),
        ),
{
    let t2 = varint_bytes(b) + rest;
    assert(varint_bytes(a) + varint_bytes(b) + rest =~= varint_bytes(a) + t2);
    lemma_varint_round_trip(a, t2);
    assert((varint_bytes(a) + t2).skip(varint_bytes(a).len() as int) =~= t2);
    lemma_varint_round_trip(b, rest);
}

pub proof fn lemma_tag_round_trip(tag: u8, rest: Seq<u8>)
    requires
        1 <= tag <= 3,
    ensures
        parse_varint(seq![tag] + rest) == Ok::<(u64, int), DecodeError>((tag as u64, 1)),
{
    lemma_varint_round_trip(tag as u64, rest);
    crate::varint::lemma_varint_small(tag);
}

#[verifier::rlimit(60)]
pub proof fn lemma_fetch_type_round_trip(t: FetchTypeView, rest: Seq<u8>)
    requires
        fetch_type_wf(t),
    ensures
        parse_fetch_type(fetch_type_bytes(t) + rest) == Ok::<(FetchTypeView, int), DecodeError>(
            (t, fetch_type_bytes(t).len() as int),
        ),
{
    reveal(parse_fetch_type);
    match t {
        FetchTypeView::Standalone { namespace, track, start, end } => {
            let b2 = path_bytes(namespace);
            let b3 = string_bytes(track);
            let b4 = location_bytes(start);
            let b5 = location_bytes(end);
            let t5 = b5 + rest;
            let t4 = b4 + t5;
            let t3 = b3 + t4;
            let t2 = b2 + t3;
            let t1 = seq![1u8] + t2;
            assert(fetch_type_bytes(t) + rest =~= t1);
            lemma_tag_round_trip(1, t2);
            assert(t1.skip(1) =~= t2);
            lemma_path_round_trip(namespace, t3);
            assert(t2.skip(b2.len() as int) =~= t3);
            lemma_string_round_trip(track, t4);
            assert(t3.skip(b3.len() as int) =~= t4);
            lemma_location_round_trip(start, t5);
            assert(t4.skip(b4.len() as int) =~= t5);
            lemma_location_round_trip(end, rest);
        },
        FetchTypeView::RelativeJoining { subscriber_request_id, group_offset } => {
            let t2 = varint_bytes(subscriber_request_id) + varint_bytes(group_offset) + rest;
            assert(fetch_type_bytes(t) + rest =~= seq![2u8] + t2);
            lemma_tag_round_trip(2, t2);
            assert((seq![2u8] + t2).skip(1) =~= t2);
            lemma_pair_round_trip(subscriber_request_id, group_offset, rest);
        },
        FetchTypeView::AbsoluteJoining { subscriber_request_id, group_id } => {
            let t2 = varint_bytes(subscriber_request_id) + varint_bytes(group_id) + rest;
            assert(fetch_type_bytes(t) + rest =~= seq![3u8] + t2);
            lemma_tag_round_trip(3, t2);
            assert((seq![3u8] + t2).skip(1) =~= t2);
            lemma_pair_round_trip(subscriber_request_id, group_id, rest);
        },
    }
}

impl FetchType {
    pub fn encode(&self, w: &mut Vec<u8>)
        requires
            fetch_type_wf(self@),
        ensures
            final(w)@ == old(w)@ + fetch_type_bytes(self@),
    {
        match self {
            FetchType::Standalone { namespace, track, start, end } => {
                encode_u8(1, w);
                namespace.encode(w);
                encode_string(track.as_str(), w);
                start.encode(w);
                end.encode(w);
            },
            FetchType::RelativeJoining { subscriber_request_id, group_offset } => {
                encode_u8(2, w);
                encode_varint(*subscriber_request_id, w);
                encode_varint(*group_offset, w);
            },
            FetchType::AbsoluteJoining { subscriber_request_id, group_id } => {
                encode_u8(3, w);
                encode_varint(*subscriber_request_id, w);
                encode_varint(*group_id, w);
            },
        }
        assert(final(w)@ =~= old(w)@ + fetch_type_bytes(self@));
    }

    #[verifier::rlimit(60)]
    pub fn decode(buf: &[u8], pos: usize) -> (r: Result<(FetchType, usize), DecodeError>)
        requires
            pos <= buf@.len(),
        ensures
            decoded(r, pos, parse_fetch_type(buf@.skip(pos as int))),
            r matches Ok((_, p)) ==> pos <= p <= buf@.len(),
    {
        proof {
            reveal(parse_fetch_type);
        }
        let (tag, p1) = match decode_varint(buf, pos) {
            Ok(x) => x,
            Err(e) => return Err(e),
        };
        assert(buf@.skip(p1 as int) =~= buf@.skip(pos as int).skip(p1 - pos));
        if tag == 1 {
            let (namespace, p2) = match Path::decode(buf, p1) {
                Ok(x) => x,
                Err(e) => return Err(e),
            };
            assert(buf@.skip(p2 as int) =~= buf@.skip(p1 as int).skip(p2 - p1));
            let (track, p3) = match decode_string(buf, p2) {
                Ok(x) => x,
                Err(e) => return Err(e),
            };
            assert(buf@.skip(p3 as int) =~= buf@.skip(p2 as int).skip(p3 - p2));
            let (start, p4) = match Location::decode(buf, p3) {
                Ok(x) => x,
                Err(e) => return Err(e),
            };
            assert(buf@.skip(p4 as int) =~= buf@.skip(p3 as int).skip(p4 - p3));
            let (end, p5) = match Location::decode(buf, p4) {
                Ok(x) => x,
                Err(e) => return Err(e),
            };
            Ok((FetchType::Standalone { namespace, track, start, end }, p5))
        } else if tag == 2 || tag == 3 {
            let (a, p2) = match decode_varint(buf, p1) {
                Ok(x) => x,
                Err(e) => return Err(e),
            };
            assert(buf@.skip(p2 as int) =~= buf@.skip(p1 as int).skip(p2 - p1));
            let (b, p3) = match decode_varint(buf, p2) {
                Ok(x) => x,
                Err(e) => return Err(e),
            };
            if tag == 2 {
                Ok((FetchType::RelativeJoining { subscriber_request_id: a, group_offset: b }, p3))
            } else {
                Ok((FetchType::AbsoluteJoining { subscriber_request_id: a, group_id: b }, p3))
            }
        } else {
            Err(DecodeError::InvalidValue)
        }
    }
}

/// Asks for a range of past objects.
#[derive(Debug, Clone)]
pub struct Fetch {
    pub request_id: u64,
    pub subscriber_priority: u8,
    pub group_order: GroupOrder,
    pub fetch_type: FetchType,
}

pub struct FetchView {
    pub request_id: u64,
    pub subscriber_priority: u8,
    pub group_order: GroupOrder,
    pub fetch_type: FetchTypeView,
}

impl View for Fetch {
    type V = FetchView;

    open spec fn view(&self) -> FetchView {
        FetchView {
            request_id: self.request_id,
            subscriber_priority: self.subscriber_priority,
            group_order: self.group_order,
            fetch_type: self.fetch_type@,
        }
    }
}

pub open spec fn fetch_wf(m: FetchView) -> bool {
    m.request_id < VARINT_LIMIT && fetch_type_wf(m.fetch_type)
}

/// No parameters.
pub open spec fn fetch_bytes(m: FetchView) -> Seq<u8> {
    varint_bytes(m.request_id) + seq![m.subscriber_priority] + group_order_bytes(m.group_order)
        + fetch_type_bytes(m.fetch_type) + seq![0u8]
}

/// The parameters are read and dropped.
#[verifier::opaque]
pub open spec fn parse_fetch(s: Seq<u8>) -> Result<(FetchView, int), DecodeError> {
    match parse_varint(s) {
        Err(e) => Err(e),
        Ok((request_id, n1)) => {
            let s2 = s.skip(n1);
            match parse_u8(s2) {
                Err(e) => Err(e),
                Ok((subscriber_priority, n2)) => {
                    let s3 = s2.skip(n2);
                    match parse_group_order(s3) {
                        Err(e) => Err(e),
                        Ok((group_order, n3)) => {
                            let s4 = s3.skip(n3);
                            match parse_fetch_type(s4) {
                                Err(e) => Err(e),
                                Ok((fetch_type, n4)) => match parse_params(s4.skip(n4)) {
                                    Err(e) => Err(e),
                                    Ok((_, n5)) => Ok(
                                        (
                                            FetchView {
                                                request_id,
                                                subscriber_priority,
                                                group_order,
                                                fetch_type,
                                            },
                                            n1 + n2 + n3 + n4 + n5,
                                        ),
                                    ),
                                },
                            }
                        },
                    }
                },
            }
        },
    }
}

pub proof fn lemma_fetch_round_trip(m: FetchView, rest: Seq<u8>)
    requires
        fetch_wf(m),
    ensures
        parse_fetch(fetch_bytes(m) + rest) == Ok::<(FetchView, int), DecodeError>(
            (m, fetch_bytes(m).len() as int),
        ),
{
    reveal(parse_fetch);
    let b1 = varint_bytes(m.request_id);
    let b2 = seq![m.subscriber_priority];
    let b3 = group_order_bytes(m.group_order);
    let b4 = fetch_type_bytes(m.fetch_type);
    let b5 = seq![0u8];
    let t5 = b5 + rest;
    let t4 = b4 + t5;
    let t3 = b3 + t4;
    let t2 = b2 + t3;
    let t1 = b1 + t2;
    assert(fetch_bytes(m) + rest =~= t1);
    lemma_varint_round_trip(m.request_id, t2);
    assert(t1.skip(b1.len() as int) =~= t2);
    lemma_u8_round_trip(m.subscriber_priority, t3);
    assert(t2.skip(b2.len() as int) =~= t3);
    lemma_group_order_round_trip(m.group_order, t4);
    assert(t3.skip(b3.len() as int) =~= t4);
    lemma_fetch_type_round_trip(m.fetch_type, t5);
    assert(t4.skip(b4.len() as int) =~= t5);
    lemma_no_params(rest);
}

impl Fetch {
    pub const ID: u64 = 0x16;

    pub fn encode(&self, w: &mut Vec<u8>)
        requires
            fetch_wf(self@),
        ensures
            final(w)@ == old(w)@ + fetch_bytes(self@),
    {
        encode_varint(self.request_id, w);
        encode_u8(self.subscriber_priority, w);
        self.group_order.encode(w);
        self.fetch_type.encode(w);
        encode_u8(0, w);
        assert(final(w)@ =~= old(w)@ + fetch_bytes(self@));
    }

    pub fn decode(buf: &[u8], pos: usize) -> (r: Result<(Fetch, usize), DecodeError>)
        requires
            pos <= buf@.len(),
        ensures
            decoded(r, pos, parse_fetch(buf@.skip(pos as int))),
            r matches Ok((_, p)) ==> pos <= p <= buf@.len(),
    {
        proof {
            reveal(parse_fetch);
        }
        let (request_id, p1) = match decode_varint(buf, pos) {
            Ok(x) => x,
            Err(e) => return Err(e),
        };
        assert(buf@.skip(p1 as int) =~= buf@.skip(pos as int).skip(p1 - pos));
        let (subscriber_priority, p2) = match decode_u8(buf, p1) {
            Ok(x) => x,
            Err(e) => return Err(e),
        };
        assert(buf@.skip(p2 as int) =~= buf@.skip(p1 as int).skip(p2 - p1));
        let (group_order, p3) = match GroupOrder::decode(buf, p2) {
            Ok(x) => x,
            Err(e) => return Err(e),
        };
        assert(buf@.skip(p3 as int) =~= buf@.skip(p2 as int).skip(p3 - p2));
        let (fetch_type, p4) = match FetchType::decode(buf, p3) {
            Ok(x) => x,
            Err(e) => return Err(e),
        };
        assert(buf@.skip(p4 as int) =~= buf@.skip(p3 as int).skip(p4 - p3));
        let (_, p5) = match Parameters::decode(buf, p4) {
            Ok(x) => x,
            Err(e) => return Err(e),
        };
        Ok((Fetch { request_id, subscriber_priority, group_order, fetch_type }, p5))
    }
}

/// An object of a fetch stream; fetch streams are refused, so it carries
/// nothing.
#[derive(Debug, Clone, Copy, PartialEq, Eq, Structural)]
pub struct FetchObject {}

} // verus!
