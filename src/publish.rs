//! Publisher-initiated subscriptions and the end of a subscription.

use crate::coding::{
    bool_bytes, decode_bool, decode_string, decoded, encode_bool, encode_string, encode_u8,
    lemma_bool_round_trip, lemma_string_round_trip, parse_bool, parse_string, string_bytes,
    string_fits, DecodeError,
};
use crate::group::{group_order_bytes, lemma_group_order_round_trip, parse_group_order, GroupOrder};
use crate::location::{
    lemma_location_round_trip, location_bytes, location_wf, parse_location, Location,
};
use crate::parameters::{lemma_no_params, parse_params, Parameters};
use crate::path::{lemma_path_round_trip, parse_path, path_bytes, path_fits, Path};
use crate::varint::{
    decode_varint, encode_varint, lemma_varint_round_trip, lemma_varint_zero, parse_varint,
    varint_bytes, VARINT_LIMIT,
};
use vstd::prelude::*;

verus! {

/// A subscription is over; formerly called SubscribeDone. The stream count is written as zero and not read.
#[derive(Debug, Clone)]
pub struct PublishDone {
    pub request_id: u64,
    pub status_code: u64,
    pub reason_phrase: String,
}

pub struct PublishDoneView {
    pub request_id: u64,
    pub status_code: u64,
    pub reason_phrase: Seq<char>,
}

impl View for PublishDone {
    type V = PublishDoneView;

    open spec fn view(&self) -> PublishDoneView {
        PublishDoneView { request_id: self.request_id, status_code: self.status_code, reason_phrase: self.reason_phrase@ }
    }
}

/// A PublishDone that can be encoded.
pub open spec fn publish_done_wf(m: PublishDoneView) -> bool {
    m.request_id < VARINT_LIMIT && m.status_code < VARINT_LIMIT && string_fits(m.reason_phrase)
}

pub open spec fn publish_done_bytes(m: PublishDoneView) -> Seq<u8> {
    varint_bytes(m.request_id) + varint_bytes(m.status_code) + string_bytes(m.reason_phrase) + varint_bytes(0)
}

#[verifier::opaque]
pub open spec fn parse_publish_done(s: Seq<u8>) -> Result<(PublishDoneView, int), DecodeError> {
    match parse_varint(s) {
        Err(e) => Err(e),
        Ok((request_id, n1)) => {
            let s2 = s.skip(n1);
            match parse_varint(s2) {
                Err(e) => Err(e),
                Ok((status_code, n2)) => {
                    let s3 = s2.skip(n2);
                    match parse_string(s3) {
                        Err(e) => Err(e),
                        Ok((reason_phrase, n3)) => {
                            let s4 = s3.skip(n3);
                            match parse_varint(s4) {
                                Err(e) => Err(e),
                                Ok((_, n4)) => {
                                    Ok((PublishDoneView { request_id, status_code, reason_phrase }, n1 + n2 + n3 + n4))
                                },
                            }
                        },
                    }
                },
            }
        },
    }
}

/// Decoding the encoding of a PublishDone gives it back.
#[verifier::rlimit(50)]
pub proof fn lemma_publish_done_round_trip(m: PublishDoneView, rest: Seq<u8>)
    requires
        publish_done_wf(m),
    ensures
        parse_publish_done(publish_done_bytes(m) + rest) == Ok::<(PublishDoneView, int), DecodeError>(
            (m, publish_done_bytes(m).len() as int),
        ),
{
    reveal(parse_publish_done);
    let b1 = varint_bytes(m.request_id);
    let b2 = varint_bytes(m.status_code);
    let b3 = string_bytes(m.reason_phrase);
    let b4 = varint_bytes(0);
    let t5 = rest;
    let t4 = b4 + t5;
    let t3 = b3 + t4;
    let t2 = b2 + t3;
    let t1 = b1 + t2;
    assert(publish_done_bytes(m) + rest =~= t1);
    lemma_varint_round_trip(m.request_id, t2);
    assert(t1.skip(b1.len() as int) =~= t2);
    lemma_varint_round_trip(m.status_code, t3);
    assert(t2.skip(b2.len() as int) =~= t3);
    lemma_string_round_trip(m.reason_phrase, t4);
    assert(t3.skip(b3.len() as int) =~= t4);
    lemma_varint_zero();
    lemma_varint_round_trip(0, t5);
    assert(m == (PublishDoneView { request_id: m.request_id, status_code: m.status_code, reason_phrase: m.reason_phrase }));
}

impl PublishDone {
    pub const ID: u64 = 0x0b;

    pub fn encode(&self, w: &mut Vec<u8>)
        requires
            publish_done_wf(self@),
        ensures
            final(w)@ == old(w)@ + publish_done_bytes(self@),
    {
        encode_varint(self.request_id, w);
        encode_varint(self.status_code, w);
        encode_string(self.reason_phrase.as_str(), w);
        encode_varint(0, w);
        assert(final(w)@ =~= old(w)@ + publish_done_bytes(self@));
    }

    pub fn decode(buf: &[u8], pos: usize) -> (r: Result<(PublishDone, usize), DecodeError>)
        requires
            pos <= buf@.len(),
        ensures
            decoded(r, pos, parse_publish_done(buf@.skip(pos as int))),
            r matches Ok((_, p)) ==> pos <= p <= buf@.len(),
    {
        proof {
            reveal(parse_publish_done);
        }
        let (request_id, p1) = match decode_varint(buf, pos) {
            Ok(x) => x,
            Err(e) => return Err(e),
        };
        assert(buf@.skip(p1 as int) =~= buf@.skip(pos as int).skip(p1 - pos));
        let (status_code, p2) = match decode_varint(buf, p1) {
            Ok(x) => x,
            Err(e) => return Err(e),
        };
        assert(buf@.skip(p2 as int) =~= buf@.skip(p1 as int).skip(p2 - p1));
        let (reason_phrase, p3) = match decode_string(buf, p2) {
            Ok(x) => x,
            Err(e) => return Err(e),
        };
        assert(buf@.skip(p3 as int) =~= buf@.skip(p2 as int).skip(p3 - p2));
        let (_, p4) = match decode_varint(buf, p3) {
            Ok(x) => x,
            Err(e) => return Err(e),
        };
        Ok((PublishDone { request_id, status_code, reason_phrase }, p4))
    }
}

/// A publisher-initiated subscription was refused.
#[derive(Debug, Clone)]
pub struct PublishError {
    pub request_id: u64,
    pub error_code: u64,
    pub reason_phrase: String,
}

pub struct PublishErrorView {
    pub request_id: u64,
    pub error_code: u64,
    pub reason_phrase: Seq<char>,
}

impl View for PublishError {
    type V = PublishErrorView;

    open spec fn view(&self) -> PublishErrorView {
        PublishErrorView { request_id: self.request_id, error_code: self.error_code, reason_phrase: self.reason_phrase@ }
    }
}

/// A PublishError that can be encoded.
pub open spec fn publish_error_wf(m: PublishErrorView) -> bool {
    m.request_id < VARINT_LIMIT && m.error_code < VARINT_LIMIT && string_fits(m.reason_phrase)
}

pub open spec fn publish_error_bytes(m: PublishErrorView) -> Seq<u8> {
    varint_bytes(m.request_id) + varint_bytes(m.error_code) + string_bytes(m.reason_phrase)
}

#[verifier::opaque]
pub open spec fn parse_publish_error(s: Seq<u8>) -> Result<(PublishErrorView, int), DecodeError> {
    match parse_varint(s) {
        Err(e) => Err(e),
        Ok((request_id, n1)) => {
            let s2 = s.skip(n1);
            match parse_varint(s2) {
                Err(e) => Err(e),
                Ok((error_code, n2)) => {
                    let s3 = s2.skip(n2);
                    match parse_string(s3) {
                        Err(e) => Err(e),
                        Ok((reason_phrase, n3)) => {
                            Ok((PublishErrorView { request_id, error_code, reason_phrase }, n1 + n2 + n3))
                        },
                    }
                },
            }
        },
    }
}

/// Decoding the encoding of a PublishError gives it back.
pub proof fn lemma_publish_error_round_trip(m: PublishErrorView, rest: Seq<u8>)
    requires
        publish_error_wf(m),
    ensures
        parse_publish_error(publish_error_bytes(m) + rest) == Ok::<(PublishErrorView, int), DecodeError>(
            (m, publish_error_bytes(m).len() as int),
        ),
{
    reveal(parse_publish_error);
    let b1 = varint_bytes(m.request_id);
    let b2 = varint_bytes(m.error_code);
    let b3 = string_bytes(m.reason_phrase);
    let t4 = rest;
    let t3 = b3 + t4;
    let t2 = b2 + t3;
    let t1 = b1 + t2;
    assert(publish_error_bytes(m) + rest =~= t1);
    lemma_varint_round_trip(m.request_id, t2);
    assert(t1.skip(b1.len() as int) =~= t2);
    lemma_varint_round_trip(m.error_code, t3);
    assert(t2.skip(b2.len() as int) =~= t3);
    lemma_string_round_trip(m.reason_phrase, t4);
    assert(m == (PublishErrorView { request_id: m.request_id, error_code: m.error_code, reason_phrase: m.reason_phrase }));
}

impl PublishError {
    pub const ID: u64 = 0x1f;

    pub fn encode(&self, w: &mut Vec<u8>)
        requires
            publish_error_wf(self@),
        ensures
            final(w)@ == old(w)@ + publish_error_bytes(self@),
    {
        encode_varint(self.request_id, w);
        encode_varint(self.error_code, w);
        encode_string(self.reason_phrase.as_str(), w);
        assert(final(w)@ =~= old(w)@ + publish_error_bytes(self@));
    }

    pub fn decode(buf: &[u8], pos: usize) -> (r: Result<(PublishError, usize), DecodeError>)
        requires
            pos <= buf@.len(),
        ensures
            decoded(r, pos, parse_publish_error(buf@.skip(pos as int))),
            r matches Ok((_, p)) ==> pos <= p <= buf@.len(),
    {
        proof {
            reveal(parse_publish_error);
        }
        let (request_id, p1) = match decode_varint(buf, pos) {
            Ok(x) => x,
            Err(e) => return Err(e),
        };
        assert(buf@.skip(p1 as int) =~= buf@.skip(pos as int).skip(p1 - pos));
        let (error_code, p2) = match decode_varint(buf, p1) {
            Ok(x) => x,
            Err(e) => return Err(e),
        };
        assert(buf@.skip(p2 as int) =~= buf@.skip(p1 as int).skip(p2 - p1));
        let (reason_phrase, p3) = match decode_string(buf, p2) {
            Ok(x) => x,
            Err(e) => return Err(e),
        };
        Ok((PublishError { request_id, error_code, reason_phrase }, p3))
    }
}

/// Starts a subscription from the publisher's side.
#[derive(Debug, Clone)]
pub struct Publish {
    pub request_id: u64,
    pub track_namespace: Path,
    pub track_name: String,
    pub track_alias: u64,
    pub group_order: GroupOrder,
    pub largest_location: Option<Location>,
    pub forward: bool,
}

pub struct PublishView {
    pub request_id: u64,
    pub track_namespace: Seq<char>,
    pub track_name: Seq<char>,
    pub track_alias: u64,
    pub group_order: GroupOrder,
    pub largest_location: Option<Location>,
    pub forward: bool,
}

impl View for Publish {
    type V = PublishView;

    open spec fn view(&self) -> PublishView {
        PublishView {
            request_id: self.request_id,
            track_namespace: self.track_namespace@,
            track_name: self.track_name@,
            track_alias: self.track_alias,
            group_order: self.group_order,
            largest_location: self.largest_location,
            forward: self.forward,
        }
    }
}

pub open spec fn publish_wf(m: PublishView) -> bool {
    &&& m.request_id < VARINT_LIMIT
    &&& path_fits(m.track_namespace)
    &&& string_fits(m.track_name)
    &&& m.track_alias < VARINT_LIMIT
    &&& (m.largest_location matches Some(l) ==> location_wf(l))
}

pub open spec fn largest_bytes(l: Option<Location>) -> Seq<u8> {
    match l {
        Some(l) => bool_bytes(true) + location_bytes(l),
        None => bool_bytes(false),
    }
}

/// No parameters.
pub open spec fn publish_bytes(m: PublishView) -> Seq<u8> {
    varint_bytes(m.request_id) + path_bytes(m.track_namespace) + string_bytes(m.track_name)
        + varint_bytes(m.track_alias) + group_order_bytes(m.group_order) + largest_bytes(
        m.largest_location,
    ) + bool_bytes(m.forward) + seq![0u8]
}

/// A flag, then the largest location when the flag is set.
#[verifier::opaque]
pub open spec fn parse_largest(s: Seq<u8>) -> Result<(Option<Location>, int), DecodeError> {
    match parse_bool(s) {
        Err(e) => Err(e),
        Ok((exists, n1)) => if exists {
            match parse_location(s.skip(n1)) {
                Err(e) => Err(e),
                Ok((l, n2)) => Ok((Some(l), n1 + n2)),
            }
        } else {
            Ok((None, n1))
        },
    }
}

/// The parameters are read and dropped.
#[verifier::opaque]
pub open spec fn parse_publish(s: Seq<u8>) -> Result<(PublishView, int), DecodeError> {
    match parse_varint(s) {
        Err(e) => Err(e),
        Ok((request_id, n1)) => {
            let s2 = s.skip(n1);
            match parse_path(s2) {
                Err(e) => Err(e),
                Ok((track_namespace, n2)) => {
                    let s3 = s2.skip(n2);
                    match parse_string(s3) {
                        Err(e) => Err(e),
                        Ok((track_name, n3)) => {
                            let s4 = s3.skip(n3);
                            match parse_varint(s4) {
                                Err(e) => Err(e),
                                Ok((track_alias, n4)) => {
                                    let s5 = s4.skip(n4);
                                    match parse_group_order(s5) {
                                        Err(e) => Err(e),
                                        Ok((group_order, n5)) => {
                                            let s6 = s5.skip(n5);
                                            match parse_largest(s6) {
                                                Err(e) => Err(e),
                                                Ok((largest_location, n6)) => {
                                                    let s7 = s6.skip(n6);
                                                    match parse_bool(s7) {
                                                        Err(e) => Err(e),
                                                        Ok((forward, n7)) => match parse_params(
                                                            s7.skip(n7),
                                                        ) {
                                                            Err(e) => Err(e),
                                                            Ok((_, n8)) => Ok(
                                                                (
                                                                    PublishView {
                                                                        request_id,
                                                                        track_namespace,
                                                                        track_name,
                                                                        track_alias,
                                                                        group_order,
                                                                        largest_location,
                                                                        forward,
                                                                    },
                                                                    n1 + n2 + n3 + n4 + n5 + n6 + n7
                                                                        + n8,
                                                                ),
                                                            ),
                                                        },
                                                    }
                                                },
                                            }
                                        },
                                    }
                                },
                            }
                        },
                    }
                },
            }
        },
    }
}

pub proof fn lemma_largest_round_trip(l: Option<Location>, rest: Seq<u8>)
    requires
        l matches Some(x) ==> location_wf(x),
    ensures
        parse_largest(largest_bytes(l) + rest) == Ok::<(Option<Location>, int), DecodeError>(
            (l, largest_bytes(l).len() as int),
        ),
{
    reveal(parse_largest);
    match l {
        Some(x) => {
            lemma_bool_round_trip(true, location_bytes(x) + rest);
            assert(largest_bytes(l) + rest =~= bool_bytes(true) + (location_bytes(x) + rest));
            assert((largest_bytes(l) + rest).skip(1) =~= location_bytes(x) + rest);
            lemma_location_round_trip(x, rest);
        },
        None => {
            lemma_bool_round_trip(false, rest);
        },
    }
}

#[verifier::rlimit(60)]
pub proof fn lemma_publish_round_trip(m: PublishView, rest: Seq<u8>)
    requires
        publish_wf(m),
    ensures
        parse_publish(publish_bytes(m) + rest) == Ok::<(PublishView, int), DecodeError>(
            (m, publish_bytes(m).len() as int),
        ),
{
    reveal(parse_publish);
    let b1 = varint_bytes(m.request_id);
    let b2 = path_bytes(m.track_namespace);
    let b3 = string_bytes(m.track_name);
    let b4 = varint_bytes(m.track_alias);
    let b5 = group_order_bytes(m.group_order);
    let b6 = largest_bytes(m.largest_location);
    let b7 = bool_bytes(m.forward);
    let b8 = seq![0u8];
    let t8 = b8 + rest;
    let t7 = b7 + t8;
    let t6 = b6 + t7;
    let t5 = b5 + t6;
    let t4 = b4 + t5;
    let t3 = b3 + t4;
    let t2 = b2 + t3;
    let t1 = b1 + t2;
    assert(publish_bytes(m) + rest =~= t1);
    lemma_varint_round_trip(m.request_id, t2);
    assert(t1.skip(b1.len() as int) =~= t2);
    lemma_path_round_trip(m.track_namespace, t3);
    assert(t2.skip(b2.len() as int) =~= t3);
    lemma_string_round_trip(m.track_name, t4);
    assert(t3.skip(b3.len() as int) =~= t4);
    lemma_varint_round_trip(m.track_alias, t5);
    assert(t4.skip(b4.len() as int) =~= t5);
    lemma_group_order_round_trip(m.group_order, t6);
    assert(t5.skip(b5.len() as int) =~= t6);
    lemma_largest_round_trip(m.largest_location, t7);
    assert(t6.skip(b6.len() as int) =~= t7);
    lemma_bool_round_trip(m.forward, t8);
    assert(t7.skip(b7.len() as int) =~= t8);
    lemma_no_params(rest);
}

impl Publish {
    pub const ID: u64 = 0x1d;

    pub fn encode(&self, w: &mut Vec<u8>)
        requires
            publish_wf(self@),
        ensures
            final(w)@ == old(w)@ + publish_bytes(self@),
    {
        encode_varint(self.request_id, w);
        self.track_namespace.encode(w);
        encode_string(self.track_name.as_str(), w);
        encode_varint(self.track_alias, w);
        self.group_order.encode(w);
        match &self.largest_location {
            Some(l) => {
                encode_bool(true, w);
                l.encode(w);
            },
            None => encode_bool(false, w),
        }
        encode_bool(self.forward, w);
        encode_u8(0, w);
        assert(final(w)@ =~= old(w)@ + publish_bytes(self@));
    }

    #[verifier::rlimit(60)]
    pub fn decode(buf: &[u8], pos: usize) -> (r: Result<(Publish, usize), DecodeError>)
        requires
            pos <= buf@.len(),
        ensures
            decoded(r, pos, parse_publish(buf@.skip(pos as int))),
            r matches Ok((_, p)) ==> pos <= p <= buf@.len(),
    {
        proof {
            reveal(parse_publish);
            reveal(parse_largest);
        }
        let (request_id, p1) = match decode_varint(buf, pos) {
            Ok(x) => x,
            Err(e) => return Err(e),
        };
        assert(buf@.skip(p1 as int) =~= buf@.skip(pos as int).skip(p1 - pos));
        let (track_namespace, p2) = match Path::decode(buf, p1) {
            Ok(x) => x,
            Err(e) => return Err(e),
        };
        assert(buf@.skip(p2 as int) =~= buf@.skip(p1 as int).skip(p2 - p1));
        let (track_name, p3) = match decode_string(buf, p2) {
            Ok(x) => x,
            Err(e) => return Err(e),
        };
        assert(buf@.skip(p3 as int) =~= buf@.skip(p2 as int).skip(p3 - p2));
        let (track_alias, p4) = match decode_varint(buf, p3) {
            Ok(x) => x,
            Err(e) => return Err(e),
        };
        assert(buf@.skip(p4 as int) =~= buf@.skip(p3 as int).skip(p4 - p3));
        let (group_order, p5) = match GroupOrder::decode(buf, p4) {
            Ok(x) => x,
            Err(e) => return Err(e),
        };
        assert(buf@.skip(p5 as int) =~= buf@.skip(p4 as int).skip(p5 - p4));
        let (exists, q) = match decode_bool(buf, p5) {
            Ok(x) => x,
            Err(e) => return Err(e),
        };
        assert(buf@.skip(q as int) =~= buf@.skip(p5 as int).skip(q - p5));
        let mut p6 = q;
        let mut largest_location: Option<Location> = None;
        if exists {
            let (l, q2) = match Location::decode(buf, q) {
                Ok(x) => x,
                Err(e) => return Err(e),
            };
            largest_location = Some(l);
            p6 = q2;
        }
        assert(buf@.skip(p6 as int) =~= buf@.skip(p5 as int).skip(p6 - p5));
        let (forward, p7) = match decode_bool(buf, p6) {
            Ok(x) => x,
            Err(e) => return Err(e),
        };
        assert(buf@.skip(p7 as int) =~= buf@.skip(p6 as int).skip(p7 - p6));
        let (_, p8) = match Parameters::decode(buf, p7) {
            Ok(x) => x,
            Err(e) => return Err(e),
        };
        Ok(
            (
                Publish {
                    request_id,
                    track_namespace,
                    track_name,
                    track_alias,
                    group_order,
                    largest_location,
                    forward,
                },
                p8,
            ),
        )
    }
}

/// Accepts a publisher-initiated subscription; this implementation refuses
/// those and never encodes or decodes this message.
#[derive(Debug, Clone, Copy, PartialEq, Eq, Structural)]
pub struct PublishOk {
    pub request_id: u64,
    pub forward: bool,
    pub subscriber_priority: u8,
    pub group_order: GroupOrder,
    pub filter_type: u8,
    pub start_location: Option<Location>,
}

impl PublishOk {
    pub const ID: u64 = 0x1e;
}

} // verus!
