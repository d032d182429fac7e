//! The publisher's side of a session: what to send when a broadcast is
//! announced or withdrawn, when a subscription arrives, and when one ends.

use crate::control::{ControlMessage, RequestIds};
use crate::path::Path;
use crate::publish::PublishDone;
use crate::publish_namespace::{PublishNamespace, PublishNamespaceDone};
use crate::subscribe::{Subscribe, SubscribeError, SubscribeOk};
use vstd::prelude::*;

verus! {

/// The error code of a subscription to a broadcast that is not there.
pub const NOT_FOUND: u64 = 404;
/// The error code of a subscription whose track failed.
pub const INTERNAL_ERROR: u64 = 500;
/// The status code of a subscription whose track ended.
pub const DONE: u64 = 200;

/// Announces a broadcast that became active, with a fresh request id, or
/// withdraws one that is gone.
pub fn announce(ids: &mut RequestIds, path: Path, active: bool) -> (r: ControlMessage)
    requires
        old(ids).wf(),
    ensures
        active ==> (r matches ControlMessage::PublishNamespace(m) && m.request_id == old(ids).spec_next() && m.track_namespace@ == path@),
        active ==> final(ids).spec_next() == (old(ids).spec_next() as int + 2)
            % 0x1_0000_0000_0000_0000 && final(ids).wf(),
        !active ==> (r matches ControlMessage::PublishNamespaceDone(m) && m.track_namespace@
            == path@),
        !active ==> *final(ids) == *old(ids),
{
    if active {
        let request_id = ids.next();
        ControlMessage::PublishNamespace(PublishNamespace { request_id, track_namespace: path })
    } else {
        ControlMessage::PublishNamespaceDone(PublishNamespaceDone { track_namespace: path })
    }
}

/// The answer to a subscription: accepted under an alias equal to its
/// request id when the broadcast was found, refused with 404 otherwise.
pub fn subscribe_reply(msg: &Subscribe, found: bool) -> (r: ControlMessage)
    ensures
        found ==> (r matches ControlMessage::SubscribeOk(m) && m.request_id == msg.request_id
            && m.track_alias == msg.request_id),
        !found ==> (r matches ControlMessage::SubscribeError(m) && m.request_id == msg.request_id
            && m.error_code == NOT_FOUND && m.reason_phrase@ == "Broadcast not found"@),
{
    if found {
        ControlMessage::SubscribeOk(
            SubscribeOk { request_id: msg.request_id, track_alias: msg.request_id },
        )
    } else {
        ControlMessage::SubscribeError(
            SubscribeError {
                request_id: msg.request_id,
                error_code: NOT_FOUND,
                reason_phrase: "Broadcast not found".to_owned(),
            },
        )
    }
}

/// What to send when serving a subscription stops: `PublishDone` with 200
/// when the track ended, `SubscribeError` with 500 and the reason when it
/// failed.
pub fn subscription_end(request_id: u64, failure: Option<String>) -> (r: ControlMessage)
    ensures
        failure is None ==> (r matches ControlMessage::PublishDone(m) && m.request_id == request_id
            && m.status_code == DONE && m.reason_phrase@ == "OK"@),
        failure matches Some(reason) ==> (r matches ControlMessage::SubscribeError(m)
            && m.request_id == request_id && m.error_code == INTERNAL_ERROR && m.reason_phrase@
            == reason@),
{
    match failure {
        None => ControlMessage::PublishDone(
            PublishDone { request_id, status_code: DONE, reason_phrase: "OK".to_owned() },
        ),
        Some(reason) => ControlMessage::SubscribeError(
            SubscribeError { request_id, error_code: INTERNAL_ERROR, reason_phrase: reason },
        ),
    }
}

} // verus!
