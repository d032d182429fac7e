//! Track status.

use crate::coding::{
    bool_bytes, decode_bool, decode_string, decode_u8, decoded, encode_bool, encode_string,
    encode_u8, lemma_bool_round_trip, lemma_string_round_trip, lemma_u8_round_trip, parse_bool,
    parse_string, parse_u8, string_bytes, string_fits, DecodeError,
};
use crate::group::{lemma_group_order_round_trip, parse_group_order, GroupOrder};
use crate::parameters::{lemma_no_params, parse_params, Parameters};
use crate::path::{lemma_path_round_trip, parse_path, path_bytes, path_fits, Path};
use crate::varint::{
    decode_varint, encode_varint, lemma_varint_round_trip, parse_varint, varint_bytes,
    VARINT_LIMIT,
};
use vstd::prelude::*;

verus! {

/// Asks for the status of a track.
#[derive(Debug, Clone)]
pub struct TrackStatus {
    pub request_id: u64,
    pub track_namespace: Path,
    pub track_name: String,
}

pub struct TrackStatusView {
    pub request_id: u64,
    pub track_namespace: Seq<char>,
    pub track_name: Seq<char>,
}

impl View for TrackStatus {
    type V = TrackStatusView;

    open spec fn view(&self) -> TrackStatusView {
        TrackStatusView {
            request_id: self.request_id,
            track_namespace: self.track_namespace@,
            track_name: self.track_name@,
        }
    }
}

pub open spec fn track_status_wf(m: TrackStatusView) -> bool {
    m.request_id < VARINT_LIMIT && path_fits(m.track_namespace) && string_fits(m.track_name)
}

/// Then a subscriber priority of zero, descending order, no forwarding,
/// the largest-object filter and no parameters.
pub open spec fn track_status_bytes(m: TrackStatusView) -> Seq<u8> {
    varint_bytes(m.request_id) + path_bytes(m.track_namespace) + string_bytes(m.track_name) + seq![
        0u8,
        2u8,
    ] + bool_bytes(false) + seq![2u8, 0u8]
}

/// The fields after the name are read and dropped; the group order must
/// still be valid.
#[verifier::opaque]
pub open spec fn parse_track_status(s: Seq<u8>) -> Result<(TrackStatusView, int), DecodeError> {
    match parse_varint(s) {
        Err(e) => Err(e),
        Ok((request_id, n1)) => {
            let s2 = s.skip(n1);
            match parse_path(s2) {
                Err(e) => Err(e),
                Ok((track_namespace, n2)) => {
                    let s3 = s2.skip(n2);
                    match parse_string(s3) {
                        Err(e) => Err(e),
                        Ok((track_name, n3)) => {
                            let s4 = s3.skip(n3);
                            match parse_u8(s4) {
                                Err(e) => Err(e),
                                Ok((_, n4)) => {
                                    let s5 = s4.skip(n4);
                                    match parse_group_order(s5) {
                                        Err(e) => Err(e),
                                        Ok((_, n5)) => {
                                            let s6 = s5.skip(n5);
                                            match parse_bool(s6) {
                                                Err(e) => Err(e),
                                                Ok((_, n6)) => {
                                                    let s7 = s6.skip(n6);
                                                    match parse_varint(s7) {
                                                        Err(e) => Err(e),
                                                        Ok((_, n7)) => match parse_params(
                                                            s7.skip(n7),
                                                        ) {
                                                            Err(e) => Err(e),
                                                            Ok((_, n8)) => Ok(
                                                                (
                                                                    TrackStatusView {
                                                                        request_id,
                                                                        track_namespace,
                                                                        track_name,
                                                                    },
                                                                    n1 + n2 + n3 + n4 + n5 + n6 + n7
                                                                        + n8,
                                                                ),
                                                            ),
                                                        },
                                                    }
                                                },
                                            }
                                        },
                                    }
                                },
                            }
                        },
                    }
                },
            }
        },
    }
}

#[verifier::rlimit(60)]
pub proof fn lemma_track_status_round_trip(m: TrackStatusView, rest: Seq<u8>)
    requires
        track_status_wf(m),
    ensures
        parse_track_status(track_status_bytes(m) + rest) == Ok::<(TrackStatusView, int), DecodeError>(
            (m, track_status_bytes(m).len() as int),
        ),
{
    reveal(parse_track_status);
    let b1 = varint_bytes(m.request_id);
    let b2 = path_bytes(m.track_namespace);
    let b3 = string_bytes(m.track_name);
    let t8 = seq![0u8] + rest;
    let t7 = seq![2u8] + t8;
    let t6 = bool_bytes(false) + t7;
    let t5 = seq![2u8] + t6;
    let t4 = seq![0u8] + t5;
    let t3 = b3 + t4;
    let t2 = b2 + t3;
    let t1 = b1 + t2;
    assert(track_status_bytes(m) + rest =~= t1);
    lemma_varint_round_trip(m.request_id, t2);
    assert(t1.skip(b1.len() as int) =~= t2);
    lemma_path_round_trip(m.track_namespace, t3);
    assert(t2.skip(b2.len() as int) =~= t3);
    lemma_string_round_trip(m.track_name, t4);
    assert(t3.skip(b3.len() as int) =~= t4);
    lemma_u8_round_trip(0u8, t5);
    assert(t4.skip(1) =~= t5);
    lemma_group_order_round_trip(GroupOrder::Descending, t6);
    assert(t5.skip(1) =~= t6);
    lemma_bool_round_trip(false, t7);
    assert(t6.skip(1) =~= t7);
    crate::varint::lemma_varint_small(2u8);
    lemma_varint_round_trip(2, t8);
    assert(t7.skip(1) =~= t8);
    lemma_no_params(rest);
}

impl TrackStatus {
    pub const ID: u64 = 0x0d;

    pub fn encode(&self, w: &mut Vec<u8>)
        requires
            track_status_wf(self@),
        ensures
            final(w)@ == old(w)@ + track_status_bytes(self@),
    {
        encode_varint(self.request_id, w);
        self.track_namespace.encode(w);
        encode_string(self.track_name.as_str(), w);
        encode_u8(0, w);
        GroupOrder::Descending.encode(w);
        encode_bool(false, w);
        encode_u8(2, w);
        encode_u8(0, w);
        assert(final(w)@ =~= old(w)@ + track_status_bytes(self@));
    }

    pub fn decode(buf: &[u8], pos: usize) -> (r: Result<(TrackStatus, usize), DecodeError>)
        requires
            pos <= buf@.len(),
        ensures
            decoded(r, pos, parse_track_status(buf@.skip(pos as int))),
            r matches Ok((_, p)) ==> pos <= p <= buf@.len(),
    {
        proof {
            reveal(parse_track_status);
        }
        let (request_id, p1) = match decode_varint(buf, pos) {
            Ok(x) => x,
            Err(e) => return Err(e),
        };
        assert(buf@.skip(p1 as int) =~= buf@.skip(pos as int).skip(p1 - pos));
        let (track_namespace, p2) = match Path::decode(buf, p1) {
            Ok(x) => x,
            Err(e) => return Err(e),
        };
        assert(buf@.skip(p2 as int) =~= buf@.skip(p1 as int).skip(p2 - p1));
        let (track_name, p3) = match decode_string(buf, p2) {
            Ok(x) => x,
            Err(e) => return Err(e),
        };
        assert(buf@.skip(p3 as int) =~= buf@.skip(p2 as int).skip(p3 - p2));
        let (_, p4) = match decode_u8(buf, p3) {
            Ok(x) => x,
            Err(e) => return Err(e),
        };
        assert(buf@.skip(p4 as int) =~= buf@.skip(p3 as int).skip(p4 - p3));
        let (_, p5) = match GroupOrder::decode(buf, p4) {
            Ok(x) => x,
            Err(e) => return Err(e),
        };
        assert(buf@.skip(p5 as int) =~= buf@.skip(p4 as int).skip(p5 - p4));
        let (_, p6) = match decode_bool(buf, p5) {
            Ok(x) => x,
            Err(e) => return Err(e),
        };
        assert(buf@.skip(p6 as int) =~= buf@.skip(p5 as int).skip(p6 - p5));
        let (_, p7) = match decode_varint(buf, p6) {
            Ok(x) => x,
            Err(e) => return Err(e),
        };
        assert(buf@.skip(p7 as int) =~= buf@.skip(p6 as int).skip(p7 - p6));
        let (_, p8) = match Parameters::decode(buf, p7) {
            Ok(x) => x,
            Err(e) => return Err(e),
        };
        Ok((TrackStatus { request_id, track_namespace, track_name }, p8))
    }
}

/// The status of a track, as a variable-length integer.
#[derive(Debug, Clone, Copy, PartialEq, Eq, Structural)]
pub enum TrackStatusCode {
    InProgress,
    NotFound,
    NotAuthorized,
    Ended,
}

pub open spec fn track_status_code(c: TrackStatusCode) -> u64 {
    match c {
        TrackStatusCode::InProgress => 0,
        TrackStatusCode::NotFound => 1,
        TrackStatusCode::NotAuthorized => 2,
        TrackStatusCode::Ended => 3,
    }
}

impl TrackStatusCode {
    pub fn code(&self) -> (r: u64)
        ensures
            r == track_status_code(*self),
    {
        match self {
            TrackStatusCode::InProgress => 0,
            TrackStatusCode::NotFound => 1,
            TrackStatusCode::NotAuthorized => 2,
            TrackStatusCode::Ended => 3,
        }
    }

    /// The status with this code; other codes are invalid.
    pub fn from_code(v: u64) -> (r: Result<TrackStatusCode, DecodeError>)
        ensures
            r matches Ok(c) ==> track_status_code(c) == v,
            r is Err <==> v > 3,
            r is Err ==> r == Err::<TrackStatusCode, DecodeError>(DecodeError::InvalidValue),
    {
        if v == 0 {
            Ok(TrackStatusCode::InProgress)
        } else if v == 1 {
            Ok(TrackStatusCode::NotFound)
        } else if v == 2 {
            Ok(TrackStatusCode::NotAuthorized)
        } else if v == 3 {
            Ok(TrackStatusCode::Ended)
        } else {
            Err(DecodeError::InvalidValue)
        }
    }
}

} // verus!
