//! The subscriber's side of a session: which subscriptions are running,
//! under which track aliases the publisher sends their groups, and how a
//! frame's payload is counted in.

use crate::control::{ControlError, ControlMessage};
use crate::fetch::FetchHeader;
use crate::group::{GroupOrder, GROUP_END, GROUP_START};
use crate::path::Path;
use crate::publish::PublishDone;
use crate::publish_namespace::{PublishNamespace, PublishNamespaceError, PublishNamespaceOk};
use crate::subscribe::{FilterType, Subscribe, SubscribeError, SubscribeOk, Unsubscribe};
use std::collections::HashMap;
use vstd::prelude::*;

verus! {

broadcast use vstd::std_specs::hash::group_hash_axioms;

/// Why a data stream was refused.
#[derive(Debug, Clone, Copy, PartialEq, Eq, Structural)]
pub enum StreamError {
    /// A fetch stream, which is not supported.
    Unsupported,
    /// A type id that names no data stream.
    UnexpectedStream,
    /// A group for a track that is not subscribed.
    NotFound,
    /// A frame's payload did not match its declared size.
    WrongSize,
}

/// Checks the type id at the head of a data stream: only group streams
/// are accepted.
pub fn classify_stream(kind: u64) -> (r: Result<(), StreamError>)
    ensures
        kind == FetchHeader::TYPE ==> r == Err::<(), StreamError>(StreamError::Unsupported),
        GROUP_START <= kind <= GROUP_END ==> r is Ok,
        kind != FetchHeader::TYPE && !(GROUP_START <= kind <= GROUP_END) ==> r == Err::<
            (),
            StreamError,
        >(StreamError::UnexpectedStream),
{
    if kind == FetchHeader::TYPE {
        Err(StreamError::Unsupported)
    } else if GROUP_START <= kind && kind <= GROUP_END {
        Ok(())
    } else {
        Err(StreamError::UnexpectedStream)
    }
}

/// Counts a chunk of `len` bytes against the `remain` bytes a frame still
/// expects; a chunk past the end, or the stream ending early (`None`), is
/// the wrong size.
pub fn take_chunk(remain: u64, len: Option<usize>) -> (r: Result<u64, StreamError>)
    ensures
        match len {
            Some(n) => if n <= remain {
                r == Ok::<u64, StreamError>((remain - n) as u64)
            } else {
                r == Err::<u64, StreamError>(StreamError::WrongSize)
            },
            None => r == Err::<u64, StreamError>(StreamError::WrongSize),
        },
{
    match len {
        Some(n) => if n as u64 <= remain && n as u128 <= u64::MAX as u128 {
            Ok(remain - n as u64)
        } else {
            Err(StreamError::WrongSize)
        },
        None => Err(StreamError::WrongSize),
    }
}

/// The Subscribe sent for a track that a local consumer asked for: the
/// newest groups first, starting from the largest object.
pub fn subscribe_message(request_id: u64, broadcast: Path, track_name: String, priority: u8) -> (r:
    Subscribe)
    ensures
        r.request_id == request_id,
        r.track_namespace@ == broadcast@,
        r.track_name@ == track_name@,
        r.subscriber_priority == priority,
        r.group_order == GroupOrder::Descending,
        r.filter_type == FilterType::LargestObject,
{
    Subscribe {
        request_id,
        track_namespace: broadcast,
        track_name,
        subscriber_priority: priority,
        group_order: GroupOrder::Descending,
        filter_type: FilterType::LargestObject,
    }
}

/// The answer to an announced namespace: refused with 404 when this side
/// only publishes, a protocol error when the peer already announced it,
/// accepted otherwise.
pub fn publish_namespace_reply(msg: &PublishNamespace, subscribing: bool, announced: bool) -> (r:
    Result<ControlMessage, ControlError>)
    ensures
        !subscribing ==> (r matches Ok(ControlMessage::PublishNamespaceError(m)) && m.request_id
            == msg.request_id && m.error_code == 404 && m.reason_phrase@ == "Publish only"@),
        subscribing && announced ==> r == Err::<ControlMessage, ControlError>(ControlError::Duplicate),
        subscribing && !announced ==> (r matches Ok(ControlMessage::PublishNamespaceOk(m))
            && m.request_id == msg.request_id),
{
    if !subscribing {
        return Ok(
            ControlMessage::PublishNamespaceError(
                PublishNamespaceError {
                    request_id: msg.request_id,
                    error_code: 404,
                    reason_phrase: "Publish only".to_owned(),
                },
            ),
        );
    }
    if announced {
        return Err(ControlError::Duplicate);
    }
    Ok(ControlMessage::PublishNamespaceOk(PublishNamespaceOk { request_id: msg.request_id }))
}

/// The running subscriptions of a session and their track aliases.
pub struct Subscriptions {
    /// Request id to the alias the publisher chose, when it differs.
    subscribes: HashMap<u64, Option<u64>>,
    /// Alias to request id, for the aliases that differ.
    aliases: HashMap<u64, u64>,
}

impl Subscriptions {
    pub closed spec fn spec_subscribes(&self) -> Map<u64, Option<u64>> {
        self.subscribes@
    }

    pub closed spec fn spec_aliases(&self) -> Map<u64, u64> {
        self.aliases@
    }

    /// The request id that groups sent under `alias` belong to.
    pub open spec fn spec_request_of(&self, alias: u64) -> u64 {
        if self.spec_aliases().contains_key(alias) {
            self.spec_aliases()[alias]
        } else {
            alias
        }
    }

    pub fn new() -> (r: Subscriptions)
        ensures
            r.spec_subscribes() == Map::<u64, Option<u64>>::empty(),
            r.spec_aliases() == Map::<u64, u64>::empty(),
    {
        Subscriptions { subscribes: HashMap::new(), aliases: HashMap::new() }
    }

    /// Records a subscription that was just sent.
    pub fn start(&mut self, request_id: u64)
        ensures
            final(self).spec_subscribes() == old(self).spec_subscribes().insert(request_id, None),
            final(self).spec_aliases() == old(self).spec_aliases(),
    {
        self.subscribes.insert(request_id, None);
    }

    /// Records the alias of an accepted subscription, when it differs from
    /// the request id and the subscription is still running.
    pub fn recv_subscribe_ok(&mut self, msg: &SubscribeOk)
        ensures
            msg.request_id != msg.track_alias && old(self).spec_subscribes().contains_key(
                msg.request_id,
            ) ==> final(self).spec_subscribes() == old(self).spec_subscribes().insert(
                msg.request_id,
                Some(msg.track_alias),
            ) && final(self).spec_aliases() == old(self).spec_aliases().insert(
                msg.track_alias,
                msg.request_id,
            ),
            !(msg.request_id != msg.track_alias && old(self).spec_subscribes().contains_key(
                msg.request_id,
            )) ==> final(self).spec_subscribes() == old(self).spec_subscribes() && final(self).spec_aliases() == old(self).spec_aliases(),
    {
        if msg.request_id != msg.track_alias && self.subscribes.contains_key(&msg.request_id) {
            self.subscribes.insert(msg.request_id, Some(msg.track_alias));
            self.aliases.insert(msg.track_alias, msg.request_id);
        }
    }

    /// Forgets a subscription and its alias, after an error, the end of the
    /// subscription, or its cancellation. Returns whether it was running.
    pub fn finish(&mut self, request_id: u64) -> (r: bool)
        ensures
            r == old(self).spec_subscribes().contains_key(request_id),
            final(self).spec_subscribes() == old(self).spec_subscribes().remove(request_id),
            r && old(self).spec_subscribes()[request_id] is Some ==> final(self).spec_aliases()
                == old(self).spec_aliases().remove(old(self).spec_subscribes()[request_id]->0),
            !(r && old(self).spec_subscribes()[request_id] is Some) ==> final(self).spec_aliases()
                == old(self).spec_aliases(),
    {
        match self.subscribes.remove(&request_id) {
            Some(alias) => {
                match alias {
                    Some(a) => {
                        self.aliases.remove(&a);
                    },
                    None => {},
                }
                true
            },
            None => false,
        }
    }

    /// A subscription was refused: forget it. Returns whether it was running,
    /// so its track can be aborted.
    pub fn recv_subscribe_error(&mut self, msg: &SubscribeError) -> (r: bool)
        ensures
            r == old(self).spec_subscribes().contains_key(msg.request_id),
            final(self).spec_subscribes() == old(self).spec_subscribes().remove(msg.request_id),
    {
        self.finish(msg.request_id)
    }

    /// A subscription ended: forget it. Returns whether it was running, so
    /// its track can be closed.
    pub fn recv_publish_done(&mut self, msg: &PublishDone) -> (r: bool)
        ensures
            r == old(self).spec_subscribes().contains_key(msg.request_id),
            final(self).spec_subscribes() == old(self).spec_subscribes().remove(msg.request_id),
    {
        self.finish(msg.request_id)
    }

    /// Every consumer of a subscribed track is gone: forget the
    /// subscription and tell the publisher with an Unsubscribe for its
    /// request id, when it was still running. The caller then aborts the
    /// track.
    pub fn track_unused(&mut self, request_id: u64) -> (r: Option<Unsubscribe>)
        ensures
            old(self).spec_subscribes().contains_key(request_id) ==> r == Some(
                Unsubscribe { request_id },
            ),
            !old(self).spec_subscribes().contains_key(request_id) ==> r is None,
            final(self).spec_subscribes() == old(self).spec_subscribes().remove(request_id),
            !final(self).spec_subscribes().contains_key(request_id),
    {
        if self.finish(request_id) {
            Some(Unsubscribe { request_id })
        } else {
            None
        }
    }

    /// The running subscription that a group sent under `track_alias`
    /// belongs to.
    pub fn resolve(&self, track_alias: u64) -> (r: Result<u64, StreamError>)
        ensures
            self.spec_subscribes().contains_key(self.spec_request_of(track_alias)) ==> r == Ok::<
                u64,
                StreamError,
            >(self.spec_request_of(track_alias)),
            !self.spec_subscribes().contains_key(self.spec_request_of(track_alias)) ==> r == Err::<
                u64,
                StreamError,
            >(StreamError::NotFound),
    {
        let request_id = match self.aliases.get(&track_alias) {
            Some(id) => *id,
            None => track_alias,
        };
        if self.subscribes.contains_key(&request_id) {
            Ok(request_id)
        } else {
            Err(StreamError::NotFound)
        }
    }
}

} // verus!
