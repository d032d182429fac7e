//! The control stream: framing, request ids, and decoding a framed body
//! into the message its type id names.

use crate::coding::{
    append_bytes, decode_u16, decoded, encode_u16, parse_u16, u16_bytes, DecodeError,
};
use crate::fetch::{Fetch, FetchCancel, FetchError, FetchOk};
use crate::publish::{Publish, PublishDone, PublishError, PublishOk};
use crate::publish_namespace::{
    PublishNamespace, PublishNamespaceCancel, PublishNamespaceDone, PublishNamespaceError,
    PublishNamespaceOk,
};
use crate::request::{MaxRequestId, RequestsBlocked};
use crate::subscribe::{Subscribe, SubscribeError, SubscribeOk, SubscribeUpdate, Unsubscribe};
use crate::subscribe_namespace::{
    SubscribeNamespace, SubscribeNamespaceError, SubscribeNamespaceOk, UnsubscribeNamespace,
};
use crate::track::TrackStatus;
use crate::varint::{decode_varint, encode_varint, parse_varint, varint_bytes, VARINT_LIMIT};
use vstd::prelude::*;

verus! {

/// The type id of a GOAWAY message, which is not supported.
pub const GO_AWAY: u64 = 0x10;

/// Why the control stream, and so the session, failed.
#[derive(Debug, Clone, Copy, PartialEq, Eq, Structural)]
pub enum ControlError {
    /// A body could not be decoded.
    Decode(DecodeError),
    /// A body was not consumed exactly.
    WrongSize,
    /// A message this implementation does not support.
    Unsupported,
    /// A type id that names no message.
    UnexpectedMessage,
    /// A body too long for its 16-bit length.
    TooLarge,
    /// The peer announced a namespace twice.
    Duplicate,
}

/// Allocates request ids: a client uses the even ones from 0, a server the
/// odd ones from 1, so the two never collide.
pub struct RequestIds {
    next: u64,
    client: bool,
}

impl RequestIds {
    /// The id the next allocation returns.
    pub closed spec fn spec_next(&self) -> u64 {
        self.next
    }

    pub closed spec fn spec_client(&self) -> bool {
        self.client
    }

    /// Ids keep the parity of their side.
    pub open spec fn wf(&self) -> bool {
        self.spec_next() % 2 == if self.spec_client() {
            0u64
        } else {
            1u64
        }
    }

    pub fn new(client: bool) -> (r: RequestIds)
        ensures
            r.spec_next() == (if client {
                0u64
            } else {
                1u64
            }),
            r.spec_client() == client,
            r.wf(),
    {
        RequestIds { next: if client { 0 } else { 1 }, client }
    }

    /// Returns the next id and moves on by two, wrapping at 2^64.
    pub fn next(&mut self) -> (r: u64)
        requires
            old(self).wf(),
        ensures
            r == old(self).spec_next(),
            final(self).spec_client() == old(self).spec_client(),
            final(self).spec_next() == (old(self).spec_next() as int + 2) % 0x1_0000_0000_0000_0000,
            final(self).wf(),
            r % 2 == (if old(self).spec_client() {
                0int
            } else {
                1int
            }),
    {
        let r = self.next;
        if self.next >= u64::MAX - 1 {
            self.next = self.next - (u64::MAX - 1);
        } else {
            self.next = self.next + 2;
        }
        r
    }
}

/// A control frame: the type id, the body's length in 16 bits, the body.
pub open spec fn frame_bytes(id: u64, body: Seq<u8>) -> Seq<u8> {
    varint_bytes(id) + u16_bytes(body.len() as u16) + body
}

/// Frames a message body; a body longer than 65535 bytes is refused.
pub fn frame(id: u64, body: &Vec<u8>) -> (r: Result<Vec<u8>, ControlError>)
    requires
        id < VARINT_LIMIT,
    ensures
        body@.len() <= 0xffff ==> (r matches Ok(f) && f@ == frame_bytes(id, body@)),
        body@.len() > 0xffff ==> r == Err::<Vec<u8>, ControlError>(ControlError::TooLarge),
{
    if body.len() > 0xffff {
        return Err(ControlError::TooLarge);
    }
    let mut w: Vec<u8> = Vec::new();
    encode_varint(id, &mut w);
    encode_u16(body.len() as u16, &mut w);
    append_bytes(&mut w, body.as_slice());
    assert(w@ =~= frame_bytes(id, body@));
    Ok(w)
}

/// The head of a control frame at the front of `s`: the type id and the
/// body's length; the body must be there in full.
pub open spec fn parse_frame_head(s: Seq<u8>) -> Result<((u64, u16), int), DecodeError> {
    match parse_varint(s) {
        Err(e) => Err(e),
        Ok((id, n1)) => match parse_u16(s.skip(n1)) {
            Err(e) => Err(e),
            Ok((size, n2)) => if s.len() - n1 - n2 < size {
                Err(DecodeError::Short)
            } else {
                Ok(((id, size), n1 + n2))
            },
        },
    }
}

/// Reads the head of a control frame at `pos`: the type id, where the body
/// starts and where it ends. `Short` means more bytes are needed.
pub fn read_frame(buf: &[u8], pos: usize) -> (r: Result<(u64, usize, usize), DecodeError>)
    requires
        pos <= buf@.len(),
    ensures
        match (r, parse_frame_head(buf@.skip(pos as int))) {
            (Ok((id, start, end)), Ok(((id2, size), n))) => id == id2 && start == pos + n && end
                == start + size && end <= buf@.len(),
            (Err(e1), Err(e2)) => e1 == e2,
            _ => false,
        },
{
    let ghost s = buf@.skip(pos as int);
    let (id, p1) = match decode_varint(buf, pos) {
        Ok(x) => x,
        Err(e) => return Err(e),
    };
    assert(buf@.skip(p1 as int) =~= s.skip(p1 - pos));
    let (size, p2) = match decode_u16(buf, p1) {
        Ok(x) => x,
        Err(e) => return Err(e),
    };
    if buf.len() - p2 < size as usize {
        return Err(DecodeError::Short);
    }
    Ok((id, p2, p2 + size as usize))
}

/// A decoded control message.
#[derive(Debug, Clone)]
pub enum ControlMessage {

    Subscribe(Subscribe),
    SubscribeOk(SubscribeOk),
    SubscribeError(SubscribeError),
    Unsubscribe(Unsubscribe),
    PublishNamespace(PublishNamespace),
    PublishNamespaceOk(PublishNamespaceOk),
    PublishNamespaceError(PublishNamespaceError),
    PublishNamespaceDone(PublishNamespaceDone),
    PublishNamespaceCancel(PublishNamespaceCancel),
    PublishDone(PublishDone),
    TrackStatus(TrackStatus),
    SubscribeNamespace(SubscribeNamespace),
    SubscribeNamespaceOk(SubscribeNamespaceOk),
    SubscribeNamespaceError(SubscribeNamespaceError),
    UnsubscribeNamespace(UnsubscribeNamespace),
    MaxRequestId(MaxRequestId),
    RequestsBlocked(RequestsBlocked),
}

/// The body of `id` decoded by `parse`, which must consume it exactly.
pub open spec fn body_result<V>(r: Result<(V, int), DecodeError>, len: int) -> Result<V, ControlError> {
    match r {
        Err(e) => Err(ControlError::Decode(e)),
        Ok((m, n)) => if n != len {
            Err(ControlError::WrongSize)
        } else {
            Ok(m)
        },
    }
}

/// Whether `id` names a message that this implementation refuses.
pub open spec fn unsupported_id(id: u64) -> bool {

    id == SubscribeUpdate::ID || id == Fetch::ID || id == FetchCancel::ID || id == FetchOk::ID || id == FetchError::ID || id == Publish::ID || id == PublishOk::ID || id == PublishError::ID || id == GO_AWAY
}

/// Whether `id` names a message this implementation decodes.
pub open spec fn known_id(id: u64) -> bool {

    id == Subscribe::ID || id == SubscribeOk::ID || id == SubscribeError::ID || id == Unsubscribe::ID || id == PublishNamespace::ID || id == PublishNamespaceOk::ID || id == PublishNamespaceError::ID || id == PublishNamespaceDone::ID || id == PublishNamespaceCancel::ID || id == PublishDone::ID || id == TrackStatus::ID || id == SubscribeNamespace::ID || id == SubscribeNamespaceOk::ID || id == SubscribeNamespaceError::ID || id == UnsubscribeNamespace::ID || id == MaxRequestId::ID || id == RequestsBlocked::ID
}

/// Decodes the body of a control frame with type id `id`. A message that
/// is not supported, and an id that names no message, are refused; a body
/// that is not consumed exactly is the wrong size.
#[verifier::rlimit(80)]
pub fn decode_control(id: u64, body: &[u8]) -> (r: Result<ControlMessage, ControlError>)
    ensures
        unsupported_id(id) ==> r == Err::<ControlMessage, ControlError>(ControlError::Unsupported),
        !unsupported_id(id) && !known_id(id) ==> r == Err::<ControlMessage, ControlError>(
            ControlError::UnexpectedMessage,
        ),

        id == Subscribe::ID ==> match body_result(crate::subscribe::parse_subscribe(body@), body@.len() as int) {
            Ok(m) => r matches Ok(ControlMessage::Subscribe(x)) && x@ == m,
            Err(e) => r == Err::<ControlMessage, ControlError>(e),
        },
        id == SubscribeOk::ID ==> match body_result(crate::subscribe::parse_subscribe_ok(body@), body@.len() as int) {
            Ok(m) => r matches Ok(ControlMessage::SubscribeOk(x)) && x@ == m,
            Err(e) => r == Err::<ControlMessage, ControlError>(e),
        },
        id == SubscribeError::ID ==> match body_result(crate::subscribe::parse_subscribe_error(body@), body@.len() as int) {
            Ok(m) => r matches Ok(ControlMessage::SubscribeError(x)) && x@ == m,
            Err(e) => r == Err::<ControlMessage, ControlError>(e),
        },
        id == Unsubscribe::ID ==> match body_result(crate::subscribe::parse_unsubscribe(body@), body@.len() as int) {
            Ok(m) => r matches Ok(ControlMessage::Unsubscribe(x)) && x@ == m,
            Err(e) => r == Err::<ControlMessage, ControlError>(e),
        },
        id == PublishNamespace::ID ==> match body_result(crate::publish_namespace::parse_publish_namespace(body@), body@.len() as int) {
            Ok(m) => r matches Ok(ControlMessage::PublishNamespace(x)) && x@ == m,
            Err(e) => r == Err::<ControlMessage, ControlError>(e),
        },
        id == PublishNamespaceOk::ID ==> match body_result(crate::publish_namespace::parse_publish_namespace_ok(body@), body@.len() as int) {
            Ok(m) => r matches Ok(ControlMessage::PublishNamespaceOk(x)) && x@ == m,
            Err(e) => r == Err::<ControlMessage, ControlError>(e),
        },
        id == PublishNamespaceError::ID ==> match body_result(crate::publish_namespace::parse_publish_namespace_error(body@), body@.len() as int) {
            Ok(m) => r matches Ok(ControlMessage::PublishNamespaceError(x)) && x@ == m,
            Err(e) => r == Err::<ControlMessage, ControlError>(e),
        },
        id == PublishNamespaceDone::ID ==> match body_result(crate::publish_namespace::parse_publish_namespace_done(body@), body@.len() as int) {
            Ok(m) => r matches Ok(ControlMessage::PublishNamespaceDone(x)) && x@ == m,
            Err(e) => r == Err::<ControlMessage, ControlError>(e),
        },
        id == PublishNamespaceCancel::ID ==> match body_result(crate::publish_namespace::parse_publish_namespace_cancel(body@), body@.len() as int) {
            Ok(m) => r matches Ok(ControlMessage::PublishNamespaceCancel(x)) && x@ == m,
            Err(e) => r == Err::<ControlMessage, ControlError>(e),
        },
        id == PublishDone::ID ==> match body_result(crate::publish::parse_publish_done(body@), body@.len() as int) {
            Ok(m) => r matches Ok(ControlMessage::PublishDone(x)) && x@ == m,
            Err(e) => r == Err::<ControlMessage, ControlError>(e),
        },
        id == TrackStatus::ID ==> match body_result(crate::track::parse_track_status(body@), body@.len() as int) {
            Ok(m) => r matches Ok(ControlMessage::TrackStatus(x)) && x@ == m,
            Err(e) => r == Err::<ControlMessage, ControlError>(e),
        },
        id == SubscribeNamespace::ID ==> match body_result(crate::subscribe_namespace::parse_subscribe_namespace(body@), body@.len() as int) {
            Ok(m) => r matches Ok(ControlMessage::SubscribeNamespace(x)) && x@ == m,
            Err(e) => r == Err::<ControlMessage, ControlError>(e),
        },
        id == SubscribeNamespaceOk::ID ==> match body_result(crate::subscribe_namespace::parse_subscribe_namespace_ok(body@), body@.len() as int) {
            Ok(m) => r matches Ok(ControlMessage::SubscribeNamespaceOk(x)) && x@ == m,
            Err(e) => r == Err::<ControlMessage, ControlError>(e),
        },
        id == SubscribeNamespaceError::ID ==> match body_result(crate::subscribe_namespace::parse_subscribe_namespace_error(body@), body@.len() as int) {
            Ok(m) => r matches Ok(ControlMessage::SubscribeNamespaceError(x)) && x@ == m,
            Err(e) => r == Err::<ControlMessage, ControlError>(e),
        },
        id == UnsubscribeNamespace::ID ==> match body_result(crate::subscribe_namespace::parse_unsubscribe_namespace(body@), body@.len() as int) {
            Ok(m) => r matches Ok(ControlMessage::UnsubscribeNamespace(x)) && x@ == m,
            Err(e) => r == Err::<ControlMessage, ControlError>(e),
        },
        id == MaxRequestId::ID ==> match body_result(crate::request::parse_max_request_id(body@), body@.len() as int) {
            Ok(m) => r matches Ok(ControlMessage::MaxRequestId(x)) && x@ == m,
            Err(e) => r == Err::<ControlMessage, ControlError>(e),
        },
        id == RequestsBlocked::ID ==> match body_result(crate::request::parse_requests_blocked(body@), body@.len() as int) {
            Ok(m) => r matches Ok(ControlMessage::RequestsBlocked(x)) && x@ == m,
            Err(e) => r == Err::<ControlMessage, ControlError>(e),
        },
{
    assert(body@.skip(0) =~= body@);
    if id == SubscribeUpdate::ID {
        return Err(ControlError::Unsupported);
    }
    if id == Fetch::ID {
        return Err(ControlError::Unsupported);
    }
    if id == FetchCancel::ID {
        return Err(ControlError::Unsupported);
    }
    if id == FetchOk::ID {
        return Err(ControlError::Unsupported);
    }
    if id == FetchError::ID {
        return Err(ControlError::Unsupported);
    }
    if id == Publish::ID {
        return Err(ControlError::Unsupported);
    }
    if id == PublishOk::ID {
        return Err(ControlError::Unsupported);
    }
    if id == PublishError::ID {
        return Err(ControlError::Unsupported);
    }
    if id == GO_AWAY {
        return Err(ControlError::Unsupported);
    }
    if id == Subscribe::ID {
        return match Subscribe::decode(body, 0) {
            Err(e) => Err(ControlError::Decode(e)),
            Ok((m, n)) => if n != body.len() {
                Err(ControlError::WrongSize)
            } else {
                Ok(ControlMessage::Subscribe(m))
            },
        };
    }
    if id == SubscribeOk::ID {
        return match SubscribeOk::decode(body, 0) {
            Err(e) => Err(ControlError::Decode(e)),
            Ok((m, n)) => if n != body.len() {
                Err(ControlError::WrongSize)
            } else {
                Ok(ControlMessage::SubscribeOk(m))
            },
        };
    }
    if id == SubscribeError::ID {
        return match SubscribeError::decode(body, 0) {
            Err(e) => Err(ControlError::Decode(e)),
            Ok((m, n)) => if n != body.len() {
                Err(ControlError::WrongSize)
            } else {
                Ok(ControlMessage::SubscribeError(m))
            },
        };
    }
    if id == Unsubscribe::ID {
        return match Unsubscribe::decode(body, 0) {
            Err(e) => Err(ControlError::Decode(e)),
            Ok((m, n)) => if n != body.len() {
                Err(ControlError::WrongSize)
            } else {
                Ok(ControlMessage::Unsubscribe(m))
            },
        };
    }
    if id == PublishNamespace::ID {
        return match PublishNamespace::decode(body, 0) {
            Err(e) => Err(ControlError::Decode(e)),
            Ok((m, n)) => if n != body.len() {
                Err(ControlError::WrongSize)
            } else {
                Ok(ControlMessage::PublishNamespace(m))
            },
        };
    }
    if id == PublishNamespaceOk::ID {
        return match PublishNamespaceOk::decode(body, 0) {
            Err(e) => Err(ControlError::Decode(e)),
            Ok((m, n)) => if n != body.len() {
                Err(ControlError::WrongSize)
            } else {
                Ok(ControlMessage::PublishNamespaceOk(m))
            },
        };
    }
    if id == PublishNamespaceError::ID {
        return match PublishNamespaceError::decode(body, 0) {
            Err(e) => Err(ControlError::Decode(e)),
            Ok((m, n)) => if n != body.len() {
                Err(ControlError::WrongSize)
            } else {
                Ok(ControlMessage::PublishNamespaceError(m))
            },
        };
    }
    if id == PublishNamespaceDone::ID {
        return match PublishNamespaceDone::decode(body, 0) {
            Err(e) => Err(ControlError::Decode(e)),
            Ok((m, n)) => if n != body.len() {
                Err(ControlError::WrongSize)
            } else {
                Ok(ControlMessage::PublishNamespaceDone(m))
            },
        };
    }
    if id == PublishNamespaceCancel::ID {
        return match PublishNamespaceCancel::decode(body, 0) {
            Err(e) => Err(ControlError::Decode(e)),
            Ok((m, n)) => if n != body.len() {
                Err(ControlError::WrongSize)
            } else {
                Ok(ControlMessage::PublishNamespaceCancel(m))
            },
        };
    }
    if id == PublishDone::ID {
        return match PublishDone::decode(body, 0) {
            Err(e) => Err(ControlError::Decode(e)),
            Ok((m, n)) => if n != body.len() {
                Err(ControlError::WrongSize)
            } else {
                Ok(ControlMessage::PublishDone(m))
            },
        };
    }
    if id == TrackStatus::ID {
        return match TrackStatus::decode(body, 0) {
            Err(e) => Err(ControlError::Decode(e)),
            Ok((m, n)) => if n != body.len() {
                Err(ControlError::WrongSize)
            } else {
                Ok(ControlMessage::TrackStatus(m))
            },
        };
    }
    if id == SubscribeNamespace::ID {
        return match SubscribeNamespace::decode(body, 0) {
            Err(e) => Err(ControlError::Decode(e)),
            Ok((m, n)) => if n != body.len() {
                Err(ControlError::WrongSize)
            } else {
                Ok(ControlMessage::SubscribeNamespace(m))
            },
        };
    }
    if id == SubscribeNamespaceOk::ID {
        return match SubscribeNamespaceOk::decode(body, 0) {
            Err(e) => Err(ControlError::Decode(e)),
            Ok((m, n)) => if n != body.len() {
                Err(ControlError::WrongSize)
            } else {
                Ok(ControlMessage::SubscribeNamespaceOk(m))
            },
        };
    }
    if id == SubscribeNamespaceError::ID {
        return match SubscribeNamespaceError::decode(body, 0) {
            Err(e) => Err(ControlError::Decode(e)),
            Ok((m, n)) => if n != body.len() {
                Err(ControlError::WrongSize)
            } else {
                Ok(ControlMessage::SubscribeNamespaceError(m))
            },
        };
    }
    if id == UnsubscribeNamespace::ID {
        return match UnsubscribeNamespace::decode(body, 0) {
            Err(e) => Err(ControlError::Decode(e)),
            Ok((m, n)) => if n != body.len() {
                Err(ControlError::WrongSize)
            } else {
                Ok(ControlMessage::UnsubscribeNamespace(m))
            },
        };
    }
    if id == MaxRequestId::ID {
        return match MaxRequestId::decode(body, 0) {
            Err(e) => Err(ControlError::Decode(e)),
            Ok((m, n)) => if n != body.len() {
                Err(ControlError::WrongSize)
            } else {
                Ok(ControlMessage::MaxRequestId(m))
            },
        };
    }
    if id == RequestsBlocked::ID {
        return match RequestsBlocked::decode(body, 0) {
            Err(e) => Err(ControlError::Decode(e)),
            Ok((m, n)) => if n != body.len() {
                Err(ControlError::WrongSize)
            } else {
                Ok(ControlMessage::RequestsBlocked(m))
            },
        };
    }
    Err(ControlError::UnexpectedMessage)
}

impl ControlMessage {
    /// The type id of the message.
    pub open spec fn spec_id(&self) -> u64 {
        match self {
            ControlMessage::Subscribe(_) => Subscribe::ID,
            ControlMessage::SubscribeOk(_) => SubscribeOk::ID,
            ControlMessage::SubscribeError(_) => SubscribeError::ID,
            ControlMessage::Unsubscribe(_) => Unsubscribe::ID,
            ControlMessage::PublishNamespace(_) => PublishNamespace::ID,
            ControlMessage::PublishNamespaceOk(_) => PublishNamespaceOk::ID,
            ControlMessage::PublishNamespaceError(_) => PublishNamespaceError::ID,
            ControlMessage::PublishNamespaceDone(_) => PublishNamespaceDone::ID,
            ControlMessage::PublishNamespaceCancel(_) => PublishNamespaceCancel::ID,
            ControlMessage::PublishDone(_) => PublishDone::ID,
            ControlMessage::TrackStatus(_) => TrackStatus::ID,
            ControlMessage::SubscribeNamespace(_) => SubscribeNamespace::ID,
            ControlMessage::SubscribeNamespaceOk(_) => SubscribeNamespaceOk::ID,
            ControlMessage::SubscribeNamespaceError(_) => SubscribeNamespaceError::ID,
            ControlMessage::UnsubscribeNamespace(_) => UnsubscribeNamespace::ID,
            ControlMessage::MaxRequestId(_) => MaxRequestId::ID,
            ControlMessage::RequestsBlocked(_) => RequestsBlocked::ID,
        }
    }

    /// The message can be encoded.
    pub open spec fn wf(&self) -> bool {
        match self {
            ControlMessage::Subscribe(x) => crate::subscribe::subscribe_wf(x@),
            ControlMessage::SubscribeOk(x) => crate::subscribe::subscribe_ok_wf(x@),
            ControlMessage::SubscribeError(x) => crate::subscribe::subscribe_error_wf(x@),
            ControlMessage::Unsubscribe(x) => crate::subscribe::unsubscribe_wf(x@),
            ControlMessage::PublishNamespace(x) => crate::publish_namespace::publish_namespace_wf(x@),
            ControlMessage::PublishNamespaceOk(x) => crate::publish_namespace::publish_namespace_ok_wf(x@),
            ControlMessage::PublishNamespaceError(x) => crate::publish_namespace::publish_namespace_error_wf(x@),
            ControlMessage::PublishNamespaceDone(x) => crate::publish_namespace::publish_namespace_done_wf(x@),
            ControlMessage::PublishNamespaceCancel(x) => crate::publish_namespace::publish_namespace_cancel_wf(x@),
            ControlMessage::PublishDone(x) => crate::publish::publish_done_wf(x@),
            ControlMessage::TrackStatus(x) => crate::track::track_status_wf(x@),
            ControlMessage::SubscribeNamespace(x) => crate::subscribe_namespace::subscribe_namespace_wf(x@),
            ControlMessage::SubscribeNamespaceOk(x) => crate::subscribe_namespace::subscribe_namespace_ok_wf(x@),
            ControlMessage::SubscribeNamespaceError(x) => crate::subscribe_namespace::subscribe_namespace_error_wf(x@),
            ControlMessage::UnsubscribeNamespace(x) => crate::subscribe_namespace::unsubscribe_namespace_wf(x@),
            ControlMessage::MaxRequestId(x) => crate::request::max_request_id_wf(x@),
            ControlMessage::RequestsBlocked(x) => crate::request::requests_blocked_wf(x@),
        }
    }

    /// The encoded body of the message.
    pub open spec fn spec_body(&self) -> Seq<u8> {
        match self {
            ControlMessage::Subscribe(x) => crate::subscribe::subscribe_bytes(x@),
            ControlMessage::SubscribeOk(x) => crate::subscribe::subscribe_ok_bytes(x@),
            ControlMessage::SubscribeError(x) => crate::subscribe::subscribe_error_bytes(x@),
            ControlMessage::Unsubscribe(x) => crate::subscribe::unsubscribe_bytes(x@),
            ControlMessage::PublishNamespace(x) => crate::publish_namespace::publish_namespace_bytes(x@),
            ControlMessage::PublishNamespaceOk(x) => crate::publish_namespace::publish_namespace_ok_bytes(x@),
            ControlMessage::PublishNamespaceError(x) => crate::publish_namespace::publish_namespace_error_bytes(x@),
            ControlMessage::PublishNamespaceDone(x) => crate::publish_namespace::publish_namespace_done_bytes(x@),
            ControlMessage::PublishNamespaceCancel(x) => crate::publish_namespace::publish_namespace_cancel_bytes(x@),
            ControlMessage::PublishDone(x) => crate::publish::publish_done_bytes(x@),
            ControlMessage::TrackStatus(x) => crate::track::track_status_bytes(x@),
            ControlMessage::SubscribeNamespace(x) => crate::subscribe_namespace::subscribe_namespace_bytes(x@),
            ControlMessage::SubscribeNamespaceOk(x) => crate::subscribe_namespace::subscribe_namespace_ok_bytes(x@),
            ControlMessage::SubscribeNamespaceError(x) => crate::subscribe_namespace::subscribe_namespace_error_bytes(x@),
            ControlMessage::UnsubscribeNamespace(x) => crate::subscribe_namespace::unsubscribe_namespace_bytes(x@),
            ControlMessage::MaxRequestId(x) => crate::request::max_request_id_bytes(x@),
            ControlMessage::RequestsBlocked(x) => crate::request::requests_blocked_bytes(x@),
        }
    }

    pub fn id(&self) -> (r: u64)
        ensures
            r == self.spec_id(),
    {
        match self {
            ControlMessage::Subscribe(_) => Subscribe::ID,
            ControlMessage::SubscribeOk(_) => SubscribeOk::ID,
            ControlMessage::SubscribeError(_) => SubscribeError::ID,
            ControlMessage::Unsubscribe(_) => Unsubscribe::ID,
            ControlMessage::PublishNamespace(_) => PublishNamespace::ID,
            ControlMessage::PublishNamespaceOk(_) => PublishNamespaceOk::ID,
            ControlMessage::PublishNamespaceError(_) => PublishNamespaceError::ID,
            ControlMessage::PublishNamespaceDone(_) => PublishNamespaceDone::ID,
            ControlMessage::PublishNamespaceCancel(_) => PublishNamespaceCancel::ID,
            ControlMessage::PublishDone(_) => PublishDone::ID,
            ControlMessage::TrackStatus(_) => TrackStatus::ID,
            ControlMessage::SubscribeNamespace(_) => SubscribeNamespace::ID,
            ControlMessage::SubscribeNamespaceOk(_) => SubscribeNamespaceOk::ID,
            ControlMessage::SubscribeNamespaceError(_) => SubscribeNamespaceError::ID,
            ControlMessage::UnsubscribeNamespace(_) => UnsubscribeNamespace::ID,
            ControlMessage::MaxRequestId(_) => MaxRequestId::ID,
            ControlMessage::RequestsBlocked(_) => RequestsBlocked::ID,
        }
    }

    /// Encodes the body alone.
    pub fn encode_body(&self) -> (r: Vec<u8>)
        requires
            self.wf(),
        ensures
            r@ == self.spec_body(),
    {
        let mut w: Vec<u8> = Vec::new();
        match self {
            ControlMessage::Subscribe(x) => x.encode(&mut w),
            ControlMessage::SubscribeOk(x) => x.encode(&mut w),
            ControlMessage::SubscribeError(x) => x.encode(&mut w),
            ControlMessage::Unsubscribe(x) => x.encode(&mut w),
            ControlMessage::PublishNamespace(x) => x.encode(&mut w),
            ControlMessage::PublishNamespaceOk(x) => x.encode(&mut w),
            ControlMessage::PublishNamespaceError(x) => x.encode(&mut w),
            ControlMessage::PublishNamespaceDone(x) => x.encode(&mut w),
            ControlMessage::PublishNamespaceCancel(x) => x.encode(&mut w),
            ControlMessage::PublishDone(x) => x.encode(&mut w),
            ControlMessage::TrackStatus(x) => x.encode(&mut w),
            ControlMessage::SubscribeNamespace(x) => x.encode(&mut w),
            ControlMessage::SubscribeNamespaceOk(x) => x.encode(&mut w),
            ControlMessage::SubscribeNamespaceError(x) => x.encode(&mut w),
            ControlMessage::UnsubscribeNamespace(x) => x.encode(&mut w),
            ControlMessage::MaxRequestId(x) => x.encode(&mut w),
            ControlMessage::RequestsBlocked(x) => x.encode(&mut w),
        }
        assert(w@ =~= self.spec_body());
        w
    }

    /// The length of the encoded body, measured by encoding it.
    pub fn encoded_size(&self) -> (r: usize)
        requires
            self.wf(),
        ensures
            r == self.spec_body().len(),
    {
        self.encode_body().len()
    }

    /// The framed message: type id, 16-bit body length, body. A body
    /// longer than 65535 bytes is refused.
    pub fn encode_frame(&self) -> (r: Result<Vec<u8>, ControlError>)
        requires
            self.wf(),
        ensures
            self.spec_body().len() <= 0xffff ==> (r matches Ok(f) && f@ == frame_bytes(
                self.spec_id(),
                self.spec_body(),
            )),
            self.spec_body().len() > 0xffff ==> r == Err::<Vec<u8>, ControlError>(
                ControlError::TooLarge,
            ),
    {
        let body = self.encode_body();
        frame(self.id(), &body)
    }
}

/// The length prefix of a frame is the length of the body that follows it,
/// so reading the head of an encoded frame finds the whole body.
pub proof fn lemma_frame_size(id: u64, body: Seq<u8>, rest: Seq<u8>)
    requires
        id < VARINT_LIMIT,
        body.len() <= 0xffff,
    ensures
        parse_frame_head(frame_bytes(id, body) + rest) == Ok::<((u64, u16), int), DecodeError>(
            ((id, body.len() as u16), (varint_bytes(id) + u16_bytes(body.len() as u16)).len() as int),
        ),
        (frame_bytes(id, body) + rest).subrange(
            (varint_bytes(id) + u16_bytes(body.len() as u16)).len() as int,
            ((varint_bytes(id) + u16_bytes(body.len() as u16)).len() + body.len()) as int,
        ) == body,
{
    let size = body.len() as u16;
    let h2 = u16_bytes(size);
    let t2 = h2 + (body + rest);
    assert(frame_bytes(id, body) + rest =~= varint_bytes(id) + t2);
    crate::varint::lemma_varint_round_trip(id, t2);
    let a = varint_bytes(id).len() as int;
    assert((varint_bytes(id) + t2).skip(a) =~= t2);
    crate::coding::lemma_u16_round_trip(size, body + rest);
    assert((frame_bytes(id, body) + rest).subrange(a + 2, a + 2 + body.len()) =~= body);
}

} // verus!
