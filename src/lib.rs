//! Media-over-QUIC transport: the wire codec and control messages, the
//! publisher's group scheduler, the subscriber's bookkeeping, a track's live
//! window, and CMAF ingest, each with its contract.

pub mod catalog;
pub mod cmaf;
pub mod coding;
pub mod control;
pub mod fetch;
pub mod group;
pub mod lite;
pub mod location;
pub mod model;
pub mod origin;
pub mod parameters;
pub mod path;
pub mod publish;
pub mod publish_namespace;
pub mod publisher;
pub mod request;
pub mod scheduler;
pub mod setup;
pub mod subscribe;
pub mod subscribe_namespace;
pub mod subscriber;
pub mod track;
pub mod varint;
