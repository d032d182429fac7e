//! Subscription messages.

use crate::coding::{
    bool_bytes, decode_bool, decode_string, decode_u8, decoded, encode_bool, encode_string,
    encode_u8, lemma_bool_round_trip, lemma_string_round_trip, lemma_u8_round_trip, parse_bool,
    parse_string, parse_u8, string_bytes, string_fits, DecodeError,
};
use crate::group::{group_order_bytes, lemma_group_order_round_trip, parse_group_order, GroupOrder};
use crate::location::{
    lemma_location_round_trip, location_bytes, location_wf, parse_location, Location,
};
use crate::parameters::{
    lemma_no_params, lemma_params_round_trip, params_bytes, params_wf, parse_params, Parameters,
};
use crate::path::{lemma_path_round_trip, parse_path, path_bytes, path_fits, Path};
use crate::varint::{
    decode_varint, encode_varint, lemma_varint_round_trip, parse_varint, varint_bytes,
    VARINT_LIMIT,
};
use vstd::prelude::*;

verus! {

/// A subscription was refused.
#[derive(Debug, Clone)]
pub struct SubscribeError {
    pub request_id: u64,
    pub error_code: u64,
    pub reason_phrase: String,
}

pub struct SubscribeErrorView {
    pub request_id: u64,
    pub error_code: u64,
    pub reason_phrase: Seq<char>,
}

impl View for SubscribeError {
    type V = SubscribeErrorView;

    open spec fn view(&self) -> SubscribeErrorView {
        SubscribeErrorView { request_id: self.request_id, error_code: self.error_code, reason_phrase: self.reason_phrase@ }
    }
}

/// A SubscribeError that can be encoded.
pub open spec fn subscribe_error_wf(m: SubscribeErrorView) -> bool {
    m.request_id < VARINT_LIMIT && m.error_code < VARINT_LIMIT && string_fits(m.reason_phrase)
}

pub open spec fn subscribe_error_bytes(m: SubscribeErrorView) -> Seq<u8> {
    varint_bytes(m.request_id) + varint_bytes(m.error_code) + string_bytes(m.reason_phrase)
}

#[verifier::opaque]
pub open spec fn parse_subscribe_error(s: Seq<u8>) -> Result<(SubscribeErrorView, int), DecodeError> {
    match parse_varint(s) {
        Err(e) => Err(e),
        Ok((request_id, n1)) => {
            let s2 = s.skip(n1);
            match parse_varint(s2) {
                Err(e) => Err(e),
                Ok((error_code, n2)) => {
                    let s3 = s2.skip(n2);
                    match parse_string(s3) {
                        Err(e) => Err(e),
                        Ok((reason_phrase, n3)) => {
                            Ok((SubscribeErrorView { request_id, error_code, reason_phrase }, n1 + n2 + n3))
                        },
                    }
                },
            }
        },
    }
}

/// Decoding the encoding of a SubscribeError gives it back.
pub proof fn lemma_subscribe_error_round_trip(m: SubscribeErrorView, rest: Seq<u8>)
    requires
        subscribe_error_wf(m),
    ensures
        parse_subscribe_error(subscribe_error_bytes(m) + rest) == Ok::<(SubscribeErrorView, int), DecodeError>(
            (m, subscribe_error_bytes(m).len() as int),
        ),
{
    reveal(parse_subscribe_error);
    let b1 = varint_bytes(m.request_id);
    let b2 = varint_bytes(m.error_code);
    let b3 = string_bytes(m.reason_phrase);
    let t4 = rest;
    let t3 = b3 + t4;
    let t2 = b2 + t3;
    let t1 = b1 + t2;
    assert(subscribe_error_bytes(m) + rest =~= t1);
    lemma_varint_round_trip(m.request_id, t2);
    assert(t1.skip(b1.len() as int) =~= t2);
    lemma_varint_round_trip(m.error_code, t3);
    assert(t2.skip(b2.len() as int) =~= t3);
    lemma_string_round_trip(m.reason_phrase, t4);
    assert(m == (SubscribeErrorView { request_id: m.request_id, error_code: m.error_code, reason_phrase: m.reason_phrase }));
}

impl SubscribeError {
    pub const ID: u64 = 0x05;

    pub fn encode(&self, w: &mut Vec<u8>)
        requires
            subscribe_error_wf(self@),
        ensures
            final(w)@ == old(w)@ + subscribe_error_bytes(self@),
    {
        encode_varint(self.request_id, w);
        encode_varint(self.error_code, w);
        encode_string(self.reason_phrase.as_str(), w);
        assert(final(w)@ =~= old(w)@ + subscribe_error_bytes(self@));
    }

    pub fn decode(buf: &[u8], pos: usize) -> (r: Result<(SubscribeError, usize), DecodeError>)
        requires
            pos <= buf@.len(),
        ensures
            decoded(r, pos, parse_subscribe_error(buf@.skip(pos as int))),
            r matches Ok((_, p)) ==> pos <= p <= buf@.len(),
    {
        proof {
            reveal(parse_subscribe_error);
        }
        let (request_id, p1) = match decode_varint(buf, pos) {
            Ok(x) => x,
            Err(e) => return Err(e),
        };
        assert(buf@.skip(p1 as int) =~= buf@.skip(pos as int).skip(p1 - pos));
        let (error_code, p2) = match decode_varint(buf, p1) {
            Ok(x) => x,
            Err(e) => return Err(e),
        };
        assert(buf@.skip(p2 as int) =~= buf@.skip(p1 as int).skip(p2 - p1));
        let (reason_phrase, p3) = match decode_string(buf, p2) {
            Ok(x) => x,
            Err(e) => return Err(e),
        };
        Ok((SubscribeError { request_id, error_code, reason_phrase }, p3))
    }
}

/// The subscriber no longer wants the track.
#[derive(Debug, Clone, Copy, PartialEq, Eq, Structural)]
pub struct Unsubscribe {
    pub request_id: u64,
}

impl View for Unsubscribe {
    type V = Unsubscribe;

    open spec fn view(&self) -> Unsubscribe {
        *self
    }
}

/// A Unsubscribe that can be encoded.
pub open spec fn unsubscribe_wf(m: Unsubscribe) -> bool {
    m.request_id < VARINT_LIMIT
}

pub open spec fn unsubscribe_bytes(m: Unsubscribe) -> Seq<u8> {
    varint_bytes(m.request_id)
}

#[verifier::opaque]
pub open spec fn parse_unsubscribe(s: Seq<u8>) -> Result<(Unsubscribe, int), DecodeError> {
    match parse_varint(s) {
        Err(e) => Err(e),
        Ok((request_id, n1)) => {
            Ok((Unsubscribe { request_id }, n1))
        },
    }
}

/// Decoding the encoding of a Unsubscribe gives it back.
pub proof fn lemma_unsubscribe_round_trip(m: Unsubscribe, rest: Seq<u8>)
    requires
        unsubscribe_wf(m),
    ensures
        parse_unsubscribe(unsubscribe_bytes(m) + rest) == Ok::<(Unsubscribe, int), DecodeError>(
            (m, unsubscribe_bytes(m).len() as int),
        ),
{
    reveal(parse_unsubscribe);
    let b1 = varint_bytes(m.request_id);
    let t2 = rest;
    let t1 = b1 + t2;
    assert(unsubscribe_bytes(m) + rest =~= t1);
    lemma_varint_round_trip(m.request_id, t2);
}

impl Unsubscribe {
    pub const ID: u64 = 0x0a;

    pub fn encode(&self, w: &mut Vec<u8>)
        requires
            unsubscribe_wf(self@),
        ensures
            final(w)@ == old(w)@ + unsubscribe_bytes(self@),
    {
        encode_varint(self.request_id, w);
        assert(final(w)@ =~= old(w)@ + unsubscribe_bytes(self@));
    }

    pub fn decode(buf: &[u8], pos: usize) -> (r: Result<(Unsubscribe, usize), DecodeError>)
        requires
            pos <= buf@.len(),
        ensures
            decoded(r, pos, parse_unsubscribe(buf@.skip(pos as int))),
            r matches Ok((_, p)) ==> pos <= p <= buf@.len(),
    {
        proof {
            reveal(parse_unsubscribe);
        }
        let (request_id, p1) = match decode_varint(buf, pos) {
            Ok(x) => x,
            Err(e) => return Err(e),
        };
        Ok((Unsubscribe { request_id }, p1))
    }
}

/// Changes a running subscription.
#[derive(Debug, Clone, Copy, PartialEq, Eq, Structural)]
pub struct SubscribeUpdate {
    pub request_id: u64,
    pub subscription_request_id: u64,
    pub start_location: Location,
    pub end_group: u64,
    pub subscriber_priority: u8,
    pub forward: bool,
}

impl View for SubscribeUpdate {
    type V = SubscribeUpdate;

    open spec fn view(&self) -> SubscribeUpdate {
        *self
    }
}

/// A SubscribeUpdate that can be encoded.
pub open spec fn subscribe_update_wf(m: SubscribeUpdate) -> bool {
    m.request_id < VARINT_LIMIT && m.subscription_request_id < VARINT_LIMIT && location_wf(m.start_location) && m.end_group < VARINT_LIMIT
}

pub open spec fn subscribe_update_bytes(m: SubscribeUpdate) -> Seq<u8> {
    varint_bytes(m.request_id) + varint_bytes(m.subscription_request_id) + location_bytes(m.start_location) + varint_bytes(m.end_group) + seq![m.subscriber_priority] + bool_bytes(m.forward) + seq![0u8]
}

#[verifier::opaque]
pub open spec fn parse_subscribe_update(s: Seq<u8>) -> Result<(SubscribeUpdate, int), DecodeError> {
    match parse_varint(s) {
        Err(e) => Err(e),
        Ok((request_id, n1)) => {
            let s2 = s.skip(n1);
            match parse_varint(s2) {
                Err(e) => Err(e),
                Ok((subscription_request_id, n2)) => {
                    let s3 = s2.skip(n2);
                    match parse_location(s3) {
                        Err(e) => Err(e),
                        Ok((start_location, n3)) => {
                            let s4 = s3.skip(n3);
                            match parse_varint(s4) {
                                Err(e) => Err(e),
                                Ok((end_group, n4)) => {
                                    let s5 = s4.skip(n4);
                                    match parse_u8(s5) {
                                        Err(e) => Err(e),
                                        Ok((subscriber_priority, n5)) => {
                                            let s6 = s5.skip(n5);
                                            match parse_bool(s6) {
                                                Err(e) => Err(e),
                                                Ok((forward, n6)) => {
                                                    let s7 = s6.skip(n6);
                                                    match parse_params(s7) {
                                                        Err(e) => Err(e),
                                                        Ok((_, n7)) => {
                                                            Ok((SubscribeUpdate { request_id, subscription_request_id, start_location, end_group, subscriber_priority, forward }, n1 + n2 + n3 + n4 + n5 + n6 + n7))
                                                        },
                                                    }
                                                },
                                            }
                                        },
                                    }
                                },
                            }
                        },
                    }
                },
            }
        },
    }
}

/// Decoding the encoding of a SubscribeUpdate gives it back.
#[verifier::rlimit(50)]
pub proof fn lemma_subscribe_update_round_trip(m: SubscribeUpdate, rest: Seq<u8>)
    requires
        subscribe_update_wf(m),
    ensures
        parse_subscribe_update(subscribe_update_bytes(m) + rest) == Ok::<(SubscribeUpdate, int), DecodeError>(
            (m, subscribe_update_bytes(m).len() as int),
        ),
{
    reveal(parse_subscribe_update);
    let b1 = varint_bytes(m.request_id);
    let b2 = varint_bytes(m.subscription_request_id);
    let b3 = location_bytes(m.start_location);
    let b4 = varint_bytes(m.end_group);
    let b5 = seq![m.subscriber_priority];
    let b6 = bool_bytes(m.forward);
    let b7 = seq![0u8];
    let t8 = rest;
    let t7 = b7 + t8;
    let t6 = b6 + t7;
    let t5 = b5 + t6;
    let t4 = b4 + t5;
    let t3 = b3 + t4;
    let t2 = b2 + t3;
    let t1 = b1 + t2;
    assert(subscribe_update_bytes(m) + rest =~= t1);
    lemma_varint_round_trip(m.request_id, t2);
    assert(t1.skip(b1.len() as int) =~= t2);
    lemma_varint_round_trip(m.subscription_request_id, t3);
    assert(t2.skip(b2.len() as int) =~= t3);
    lemma_location_round_trip(m.start_location, t4);
    assert(t3.skip(b3.len() as int) =~= t4);
    lemma_varint_round_trip(m.end_group, t5);
    assert(t4.skip(b4.len() as int) =~= t5);
    lemma_u8_round_trip(m.subscriber_priority, t6);
    assert(t5.skip(b5.len() as int) =~= t6);
    lemma_bool_round_trip(m.forward, t7);
    assert(t6.skip(b6.len() as int) =~= t7);
    lemma_no_params(t8);
}

impl SubscribeUpdate {
    pub const ID: u64 = 0x02;

    pub fn encode(&self, w: &mut Vec<u8>)
        requires
            subscribe_update_wf(self@),
        ensures
            final(w)@ == old(w)@ + subscribe_update_bytes(self@),
    {
        encode_varint(self.request_id, w);
        encode_varint(self.subscription_request_id, w);
        self.start_location.encode(w);
        encode_varint(self.end_group, w);
        encode_u8(self.subscriber_priority, w);
        encode_bool(self.forward, w);
        encode_u8(0, w);
        assert(final(w)@ =~= old(w)@ + subscribe_update_bytes(self@));
    }

    pub fn decode(buf: &[u8], pos: usize) -> (r: Result<(SubscribeUpdate, usize), DecodeError>)
        requires
            pos <= buf@.len(),
        ensures
            decoded(r, pos, parse_subscribe_update(buf@.skip(pos as int))),
            r matches Ok((_, p)) ==> pos <= p <= buf@.len(),
    {
        proof {
            reveal(parse_subscribe_update);
        }
        let (request_id, p1) = match decode_varint(buf, pos) {
            Ok(x) => x,
            Err(e) => return Err(e),
        };
        assert(buf@.skip(p1 as int) =~= buf@.skip(pos as int).skip(p1 - pos));
        let (subscription_request_id, p2) = match decode_varint(buf, p1) {
            Ok(x) => x,
            Err(e) => return Err(e),
        };
        assert(buf@.skip(p2 as int) =~= buf@.skip(p1 as int).skip(p2 - p1));
        let (start_location, p3) = match Location::decode(buf, p2) {
            Ok(x) => x,
            Err(e) => return Err(e),
        };
        assert(buf@.skip(p3 as int) =~= buf@.skip(p2 as int).skip(p3 - p2));
        let (end_group, p4) = match decode_varint(buf, p3) {
            Ok(x) => x,
            Err(e) => return Err(e),
        };
        assert(buf@.skip(p4 as int) =~= buf@.skip(p3 as int).skip(p4 - p3));
        let (subscriber_priority, p5) = match decode_u8(buf, p4) {
            Ok(x) => x,
            Err(e) => return Err(e),
        };
        assert(buf@.skip(p5 as int) =~= buf@.skip(p4 as int).skip(p5 - p4));
        let (forward, p6) = match decode_bool(buf, p5) {
            Ok(x) => x,
            Err(e) => return Err(e),
        };
        assert(buf@.skip(p6 as int) =~= buf@.skip(p5 as int).skip(p6 - p5));
        let (_, p7) = match Parameters::decode(buf, p6) {
            Ok(x) => x,
            Err(e) => return Err(e),
        };
        Ok((SubscribeUpdate { request_id, subscription_request_id, start_location, end_group, subscriber_priority, forward }, p7))
    }
}

/// How a subscription picks its first object.
#[derive(Debug, Clone, Copy, PartialEq, Eq, Structural)]
pub enum FilterType {
    NextGroup,
    LargestObject,
    AbsoluteStart,
    AbsoluteRange,
}

impl View for FilterType {
    type V = FilterType;

    open spec fn view(&self) -> FilterType {
        *self
    }
}

pub open spec fn filter_code(f: FilterType) -> u64 {
    match f {
        FilterType::NextGroup => 1,
        FilterType::LargestObject => 2,
        FilterType::AbsoluteStart => 3,
        FilterType::AbsoluteRange => 4,
    }
}

pub open spec fn filter_of(v: u64) -> Option<FilterType> {
    if v == 1 {
        Some(FilterType::NextGroup)
    } else if v == 2 {
        Some(FilterType::LargestObject)
    } else if v == 3 {
        Some(FilterType::AbsoluteStart)
    } else if v == 4 {
        Some(FilterType::AbsoluteRange)
    } else {
        None
    }
}

/// A filter type and the start location and end group that the absolute
/// filters carry, which are read and dropped.
#[verifier::opaque]
pub open spec fn parse_filter(s: Seq<u8>) -> Result<(FilterType, int), DecodeError> {
    match parse_varint(s) {
        Err(e) => Err(e),
        Ok((v, n1)) => match filter_of(v) {
            None => Err(DecodeError::InvalidValue),
            Some(f) => match f {
                FilterType::AbsoluteStart => match parse_location(s.skip(n1)) {
                    Err(e) => Err(e),
                    Ok((_, n2)) => Ok((f, n1 + n2)),
                },
                FilterType::AbsoluteRange => match parse_location(s.skip(n1)) {
                    Err(e) => Err(e),
                    Ok((_, n2)) => match parse_varint(s.skip(n1).skip(n2)) {
                        Err(e) => Err(e),
                        Ok((_, n3)) => Ok((f, n1 + n2 + n3)),
                    },
                },
                _ => Ok((f, n1)),
            },
        },
    }
}

impl FilterType {
    pub fn code(&self) -> (r: u64)
        ensures
            r == filter_code(*self),
    {
        match self {
            FilterType::NextGroup => 1,
            FilterType::LargestObject => 2,
            FilterType::AbsoluteStart => 3,
            FilterType::AbsoluteRange => 4,
        }
    }

    /// Reads a filter type at `pos`, with the fields of an absolute filter.
    pub fn decode(buf: &[u8], pos: usize) -> (r: Result<(FilterType, usize), DecodeError>)
        requires
            pos <= buf@.len(),
        ensures
            decoded(r, pos, parse_filter(buf@.skip(pos as int))),
            r matches Ok((_, p)) ==> pos <= p <= buf@.len(),
    {
        proof {
            reveal(parse_filter);
        }
        let (v, p1) = match decode_varint(buf, pos) {
            Ok(x) => x,
            Err(e) => return Err(e),
        };
        assert(buf@.skip(p1 as int) =~= buf@.skip(pos as int).skip(p1 - pos));
        let f = if v == 1 {
            FilterType::NextGroup
        } else if v == 2 {
            FilterType::LargestObject
        } else if v == 3 {
            FilterType::AbsoluteStart
        } else if v == 4 {
            FilterType::AbsoluteRange
        } else {
            return Err(DecodeError::InvalidValue);
        };
        match f {
            FilterType::AbsoluteStart => {
                let (_, p2) = match Location::decode(buf, p1) {
                    Ok(x) => x,
                    Err(e) => return Err(e),
                };
                Ok((f, p2))
            },
            FilterType::AbsoluteRange => {
                let (_, p2) = match Location::decode(buf, p1) {
                    Ok(x) => x,
                    Err(e) => return Err(e),
                };
                assert(buf@.skip(p2 as int) =~= buf@.skip(p1 as int).skip(p2 - p1));
                let (_, p3) = match decode_varint(buf, p2) {
                    Ok(x) => x,
                    Err(e) => return Err(e),
                };
                Ok((f, p3))
            },
            _ => Ok((f, p1)),
        }
    }
}

/// Asks for the objects of a track from now on.
#[derive(Debug, Clone)]
pub struct Subscribe {
    pub request_id: u64,
    pub track_namespace: Path,
    pub track_name: String,
    pub subscriber_priority: u8,
    /// Always sent as descending.
    pub group_order: GroupOrder,
    /// Only the relative filters can be sent.
    pub filter_type: FilterType,
}

pub struct SubscribeView {
    pub request_id: u64,
    pub track_namespace: Seq<char>,
    pub track_name: Seq<char>,
    pub subscriber_priority: u8,
    pub group_order: GroupOrder,
    pub filter_type: FilterType,
}

impl View for Subscribe {
    type V = SubscribeView;

    open spec fn view(&self) -> SubscribeView {
        SubscribeView {
            request_id: self.request_id,
            track_namespace: self.track_namespace@,
            track_name: self.track_name@,
            subscriber_priority: self.subscriber_priority,
            group_order: self.group_order,
            filter_type: self.filter_type,
        }
    }
}

/// A Subscribe that can be encoded: a relative filter, since absolute
/// subscriptions are not supported.
pub open spec fn subscribe_wf(m: SubscribeView) -> bool {
    &&& m.request_id < VARINT_LIMIT
    &&& path_fits(m.track_namespace)
    &&& string_fits(m.track_name)
    &&& (m.filter_type == FilterType::NextGroup || m.filter_type == FilterType::LargestObject)
}

/// The group order goes out as descending and forwarding as on, whatever
/// the fields say; no parameters.
pub open spec fn subscribe_bytes(m: SubscribeView) -> Seq<u8> {
    varint_bytes(m.request_id) + path_bytes(m.track_namespace) + string_bytes(m.track_name) + seq![
        m.subscriber_priority,
    ] + group_order_bytes(GroupOrder::Descending) + bool_bytes(true) + varint_bytes(
        filter_code(m.filter_type),
    ) + seq![0u8]
}

/// Forwarding must be on; the parameters are read and dropped.
#[verifier::opaque]
pub open spec fn parse_subscribe(s: Seq<u8>) -> Result<(SubscribeView, int), DecodeError> {
    match parse_varint(s) {
        Err(e) => Err(e),
        Ok((request_id, n1)) => {
            let s2 = s.skip(n1);
            match parse_path(s2) {
                Err(e) => Err(e),
                Ok((track_namespace, n2)) => {
                    let s3 = s2.skip(n2);
                    match parse_string(s3) {
                        Err(e) => Err(e),
                        Ok((track_name, n3)) => {
                            let s4 = s3.skip(n3);
                            match parse_u8(s4) {
                                Err(e) => Err(e),
                                Ok((subscriber_priority, n4)) => {
                                    let s5 = s4.skip(n4);
                                    match parse_group_order(s5) {
                                        Err(e) => Err(e),
                                        Ok((group_order, n5)) => {
                                            let s6 = s5.skip(n5);
                                            match parse_bool(s6) {
                                                Err(e) => Err(e),
                                                Ok((forward, n6)) => if !forward {
                                                    Err(DecodeError::Unsupported)
                                                } else {
                                                    let s7 = s6.skip(n6);
                                                    match parse_filter(s7) {
                                                        Err(e) => Err(e),
                                                        Ok((filter_type, n7)) => match parse_params(
                                                            s7.skip(n7),
                                                        ) {
                                                            Err(e) => Err(e),
                                                            Ok((_, n8)) => Ok(
                                                                (
                                                                    SubscribeView {
                                                                        request_id,
                                                                        track_namespace,
                                                                        track_name,
                                                                        subscriber_priority,
                                                                        group_order,
                                                                        filter_type,
                                                                    },
                                                                    n1 + n2 + n3 + n4 + n5 + n6 + n7
                                                                        + n8,
                                                                ),
                                                            ),
                                                        },
                                                    }
                                                },
                                            }
                                        },
                                    }
                                },
                            }
                        },
                    }
                },
            }
        },
    }
}

/// Decoding an encoded Subscribe gives it back, when it asks for the
/// descending order that is always sent.
#[verifier::rlimit(60)]
pub proof fn lemma_subscribe_round_trip(m: SubscribeView, rest: Seq<u8>)
    requires
        subscribe_wf(m),
        m.group_order == GroupOrder::Descending,
    ensures
        parse_subscribe(subscribe_bytes(m) + rest) == Ok::<(SubscribeView, int), DecodeError>(
            (m, subscribe_bytes(m).len() as int),
        ),
{
    reveal(parse_subscribe);
    reveal(parse_filter);
    let b1 = varint_bytes(m.request_id);
    let b2 = path_bytes(m.track_namespace);
    let b3 = string_bytes(m.track_name);
    let b4 = seq![m.subscriber_priority];
    let b5 = group_order_bytes(GroupOrder::Descending);
    let b6 = bool_bytes(true);
    let b7 = varint_bytes(filter_code(m.filter_type));
    let b8 = seq![0u8];
    let t8 = b8 + rest;
    let t7 = b7 + t8;
    let t6 = b6 + t7;
    let t5 = b5 + t6;
    let t4 = b4 + t5;
    let t3 = b3 + t4;
    let t2 = b2 + t3;
    let t1 = b1 + t2;
    assert(subscribe_bytes(m) + rest =~= t1);
    lemma_varint_round_trip(m.request_id, t2);
    assert(t1.skip(b1.len() as int) =~= t2);
    lemma_path_round_trip(m.track_namespace, t3);
    assert(t2.skip(b2.len() as int) =~= t3);
    lemma_string_round_trip(m.track_name, t4);
    assert(t3.skip(b3.len() as int) =~= t4);
    lemma_u8_round_trip(m.subscriber_priority, t5);
    assert(t4.skip(b4.len() as int) =~= t5);
    lemma_group_order_round_trip(GroupOrder::Descending, t6);
    assert(t5.skip(b5.len() as int) =~= t6);
    lemma_bool_round_trip(true, t7);
    assert(t6.skip(b6.len() as int) =~= t7);
    lemma_varint_round_trip(filter_code(m.filter_type), t8);
    assert(t7.skip(b7.len() as int) =~= t8);
    lemma_no_params(rest);
}

/// The fields of a Subscribe before its parameters.
pub open spec fn subscribe_head_bytes(m: SubscribeView) -> Seq<u8> {
    varint_bytes(m.request_id) + path_bytes(m.track_namespace) + string_bytes(m.track_name) + seq![
        m.subscriber_priority,
    ] + group_order_bytes(GroupOrder::Descending) + bool_bytes(true) + varint_bytes(
        filter_code(m.filter_type),
    )
}

/// A Subscribe decodes whatever valid parameters it carries, and drops them.
#[verifier::rlimit(60)]
pub proof fn lemma_subscribe_ignores_parameters(
    m: SubscribeView,
    es: Seq<(u64, Seq<u8>)>,
    rest: Seq<u8>,
)
    requires
        subscribe_wf(m),
        m.group_order == GroupOrder::Descending,
        params_wf(es),
    ensures
        parse_subscribe(subscribe_head_bytes(m) + params_bytes(es) + rest) == Ok::<
            (SubscribeView, int),
            DecodeError,
        >((m, (subscribe_head_bytes(m) + params_bytes(es)).len() as int)),
{
    reveal(parse_subscribe);
    reveal(parse_filter);
    let b1 = varint_bytes(m.request_id);
    let b2 = path_bytes(m.track_namespace);
    let b3 = string_bytes(m.track_name);
    let b4 = seq![m.subscriber_priority];
    let b5 = group_order_bytes(GroupOrder::Descending);
    let b6 = bool_bytes(true);
    let b7 = varint_bytes(filter_code(m.filter_type));
    let b8 = params_bytes(es);
    let t8 = b8 + rest;
    let t7 = b7 + t8;
    let t6 = b6 + t7;
    let t5 = b5 + t6;
    let t4 = b4 + t5;
    let t3 = b3 + t4;
    let t2 = b2 + t3;
    let t1 = b1 + t2;
    assert(subscribe_head_bytes(m) + params_bytes(es) + rest =~= t1);
    lemma_varint_round_trip(m.request_id, t2);
    assert(t1.skip(b1.len() as int) =~= t2);
    lemma_path_round_trip(m.track_namespace, t3);
    assert(t2.skip(b2.len() as int) =~= t3);
    lemma_string_round_trip(m.track_name, t4);
    assert(t3.skip(b3.len() as int) =~= t4);
    lemma_u8_round_trip(m.subscriber_priority, t5);
    assert(t4.skip(b4.len() as int) =~= t5);
    lemma_group_order_round_trip(GroupOrder::Descending, t6);
    assert(t5.skip(b5.len() as int) =~= t6);
    lemma_bool_round_trip(true, t7);
    assert(t6.skip(b6.len() as int) =~= t7);
    lemma_varint_round_trip(filter_code(m.filter_type), t8);
    assert(t7.skip(b7.len() as int) =~= t8);
    lemma_params_round_trip(es, rest);
}

impl Subscribe {
    pub const ID: u64 = 0x03;

    pub fn encode(&self, w: &mut Vec<u8>)
        requires
            subscribe_wf(self@),
        ensures
            final(w)@ == old(w)@ + subscribe_bytes(self@),
    {
        encode_varint(self.request_id, w);
        self.track_namespace.encode(w);
        encode_string(self.track_name.as_str(), w);
        encode_u8(self.subscriber_priority, w);
        GroupOrder::Descending.encode(w);
        encode_bool(true, w);
        encode_varint(self.filter_type.code(), w);
        encode_u8(0, w);
        assert(final(w)@ =~= old(w)@ + subscribe_bytes(self@));
    }

    pub fn decode(buf: &[u8], pos: usize) -> (r: Result<(Subscribe, usize), DecodeError>)
        requires
            pos <= buf@.len(),
        ensures
            decoded(r, pos, parse_subscribe(buf@.skip(pos as int))),
            r matches Ok((_, p)) ==> pos <= p <= buf@.len(),
    {
        proof {
            reveal(parse_subscribe);
        }
        let (request_id, p1) = match decode_varint(buf, pos) {
            Ok(x) => x,
            Err(e) => return Err(e),
        };
        assert(buf@.skip(p1 as int) =~= buf@.skip(pos as int).skip(p1 - pos));
        let (track_namespace, p2) = match Path::decode(buf, p1) {
            Ok(x) => x,
            Err(e) => return Err(e),
        };
        assert(buf@.skip(p2 as int) =~= buf@.skip(p1 as int).skip(p2 - p1));
        let (track_name, p3) = match decode_string(buf, p2) {
            Ok(x) => x,
            Err(e) => return Err(e),
        };
        assert(buf@.skip(p3 as int) =~= buf@.skip(p2 as int).skip(p3 - p2));
        let (subscriber_priority, p4) = match decode_u8(buf, p3) {
            Ok(x) => x,
            Err(e) => return Err(e),
        };
        assert(buf@.skip(p4 as int) =~= buf@.skip(p3 as int).skip(p4 - p3));
        let (group_order, p5) = match GroupOrder::decode(buf, p4) {
            Ok(x) => x,
            Err(e) => return Err(e),
        };
        assert(buf@.skip(p5 as int) =~= buf@.skip(p4 as int).skip(p5 - p4));
        let (forward, p6) = match decode_bool(buf, p5) {
            Ok(x) => x,
            Err(e) => return Err(e),
        };
        if !forward {
            return Err(DecodeError::Unsupported);
        }
        assert(buf@.skip(p6 as int) =~= buf@.skip(p5 as int).skip(p6 - p5));
        let (filter_type, p7) = match FilterType::decode(buf, p6) {
            Ok(x) => x,
            Err(e) => return Err(e),
        };
        assert(buf@.skip(p7 as int) =~= buf@.skip(p6 as int).skip(p7 - p6));
        let (_, p8) = match Parameters::decode(buf, p7) {
            Ok(x) => x,
            Err(e) => return Err(e),
        };
        Ok(
            (
                Subscribe {
                    request_id,
                    track_namespace,
                    track_name,
                    subscriber_priority,
                    group_order,
                    filter_type,
                },
                p8,
            ),
        )
    }
}

/// A subscription was accepted; objects will come under `track_alias`.
#[derive(Debug, Clone, Copy, PartialEq, Eq, Structural)]
pub struct SubscribeOk {
    pub request_id: u64,
    pub track_alias: u64,
}

impl View for SubscribeOk {
    type V = SubscribeOk;

    open spec fn view(&self) -> SubscribeOk {
        *self
    }
}

pub open spec fn subscribe_ok_wf(m: SubscribeOk) -> bool {
    m.request_id < VARINT_LIMIT && m.track_alias < VARINT_LIMIT
}

/// Expiry zero, descending order, no largest location, no parameters.
pub open spec fn subscribe_ok_bytes(m: SubscribeOk) -> Seq<u8> {
    varint_bytes(m.request_id) + varint_bytes(m.track_alias) + varint_bytes(0) + seq![2u8]
        + bool_bytes(false) + seq![0u8]
}

/// A non-zero expiry is not supported; the group order, the largest
/// location and the parameters are read and dropped.
#[verifier::opaque]
pub open spec fn parse_subscribe_ok(s: Seq<u8>) -> Result<(SubscribeOk, int), DecodeError> {
    match parse_varint(s) {
        Err(e) => Err(e),
        Ok((request_id, n1)) => {
            let s2 = s.skip(n1);
            match parse_varint(s2) {
                Err(e) => Err(e),
                Ok((track_alias, n2)) => {
                    let s3 = s2.skip(n2);
                    match parse_varint(s3) {
                        Err(e) => Err(e),
                        Ok((expires, n3)) => if expires != 0 {
                            Err(DecodeError::Unsupported)
                        } else {
                            let s4 = s3.skip(n3);
                            match parse_u8(s4) {
                                Err(e) => Err(e),
                                Ok((_, n4)) => {
                                    let s5 = s4.skip(n4);
                                    match parse_bool(s5) {
                                        Err(e) => Err(e),
                                        Ok((exists, n5)) => {
                                            let s6 = s5.skip(n5);
                                            let largest: Result<int, DecodeError> = if exists {
                                                match parse_location(s6) {
                                                    Err(e) => Err(e),
                                                    Ok((_, n)) => Ok(n),
                                                }
                                            } else {
                                                Ok(0)
                                            };
                                            match largest {
                                                Err(e) => Err(e),
                                                Ok(n6) => match parse_params(s6.skip(n6)) {
                                                    Err(e) => Err(e),
                                                    Ok((_, n7)) => Ok(
                                                        (
                                                            SubscribeOk { request_id, track_alias },
                                                            n1 + n2 + n3 + n4 + n5 + n6 + n7,
                                                        ),
                                                    ),
                                                },
                                            }
                                        },
                                    }
                                },
                            }
                        },
                    }
                },
            }
        },
    }
}

#[verifier::rlimit(60)]
pub proof fn lemma_subscribe_ok_round_trip(m: SubscribeOk, rest: Seq<u8>)
    requires
        subscribe_ok_wf(m),
    ensures
        parse_subscribe_ok(subscribe_ok_bytes(m) + rest) == Ok::<(SubscribeOk, int), DecodeError>(
            (m, subscribe_ok_bytes(m).len() as int),
        ),
{
    reveal(parse_subscribe_ok);
    let b1 = varint_bytes(m.request_id);
    let b2 = varint_bytes(m.track_alias);
    let b3 = varint_bytes(0);
    let b4 = seq![2u8];
    let b5 = bool_bytes(false);
    let b6 = seq![0u8];
    let t6 = b6 + rest;
    let t5 = b5 + t6;
    let t4 = b4 + t5;
    let t3 = b3 + t4;
    let t2 = b2 + t3;
    let t1 = b1 + t2;
    assert(subscribe_ok_bytes(m) + rest =~= t1);
    lemma_varint_round_trip(m.request_id, t2);
    assert(t1.skip(b1.len() as int) =~= t2);
    lemma_varint_round_trip(m.track_alias, t3);
    assert(t2.skip(b2.len() as int) =~= t3);
    lemma_varint_round_trip(0, t4);
    assert(t3.skip(b3.len() as int) =~= t4);
    lemma_u8_round_trip(2u8, t5);
    assert(t4.skip(b4.len() as int) =~= t5);
    lemma_bool_round_trip(false, t6);
    assert(t5.skip(b5.len() as int) =~= t6);
    assert(t6.skip(0) =~= t6);
    lemma_no_params(rest);
}

impl SubscribeOk {
    pub const ID: u64 = 0x04;

    pub fn encode(&self, w: &mut Vec<u8>)
        requires
            subscribe_ok_wf(*self),
        ensures
            final(w)@ == old(w)@ + subscribe_ok_bytes(*self),
    {
        encode_varint(self.request_id, w);
        encode_varint(self.track_alias, w);
        encode_varint(0, w);
        encode_u8(2, w);
        encode_bool(false, w);
        encode_u8(0, w);
        assert(final(w)@ =~= old(w)@ + subscribe_ok_bytes(*self));
    }

    pub fn decode(buf: &[u8], pos: usize) -> (r: Result<(SubscribeOk, usize), DecodeError>)
        requires
            pos <= buf@.len(),
        ensures
            decoded(r, pos, parse_subscribe_ok(buf@.skip(pos as int))),
            r matches Ok((_, p)) ==> pos <= p <= buf@.len(),
    {
        proof {
            reveal(parse_subscribe_ok);
        }
        let (request_id, p1) = match decode_varint(buf, pos) {
            Ok(x) => x,
            Err(e) => return Err(e),
        };
        assert(buf@.skip(p1 as int) =~= buf@.skip(pos as int).skip(p1 - pos));
        let (track_alias, p2) = match decode_varint(buf, p1) {
            Ok(x) => x,
            Err(e) => return Err(e),
        };
        assert(buf@.skip(p2 as int) =~= buf@.skip(p1 as int).skip(p2 - p1));
        let (expires, p3) = match decode_varint(buf, p2) {
            Ok(x) => x,
            Err(e) => return Err(e),
        };
        if expires != 0 {
            return Err(DecodeError::Unsupported);
        }
        assert(buf@.skip(p3 as int) =~= buf@.skip(p2 as int).skip(p3 - p2));
        let (_, p4) = match decode_u8(buf, p3) {
            Ok(x) => x,
            Err(e) => return Err(e),
        };
        assert(buf@.skip(p4 as int) =~= buf@.skip(p3 as int).skip(p4 - p3));
        let (exists, p5) = match decode_bool(buf, p4) {
            Ok(x) => x,
            Err(e) => return Err(e),
        };
        assert(buf@.skip(p5 as int) =~= buf@.skip(p4 as int).skip(p5 - p4));
        let mut p6 = p5;
        if exists {
            let (_, q) = match Location::decode(buf, p5) {
                Ok(x) => x,
                Err(e) => return Err(e),
            };
            p6 = q;
        }
        assert(buf@.skip(p6 as int) =~= buf@.skip(p5 as int).skip(p6 - p5));
        let (_, p7) = match Parameters::decode(buf, p6) {
            Ok(x) => x,
            Err(e) => return Err(e),
        };
        Ok((SubscribeOk { request_id, track_alias }, p7))
    }
}

} // verus!
