//! Real-time availability ("86 list") service for one venue scope.
//!
//! The crate holds the decisions of the service: which updates are accepted,
//! what the authoritative state is after each of them, which sessions a
//! message goes to, which sessions are evicted, and when a cached search
//! result may be served. Every function carries a contract that Verus proves.
//! Transport, storage and serialization are left to the host program, which
//! hands plain values in and takes plain values back.
//!
//! * [`record`], [`state`], [`actor`]: the availability records, the state
//!   of one scope, and the actor that is its single writer. All changes go
//!   through `&mut self`, so no two of them are ever under way at once.
//! * [`laws`]: what holds of every sequence of updates.
//! * [`registry`], [`broadcast`], [`service`]: the live sessions, the
//!   fan-out of a message to them, and the two together as one scope's
//!   service.
//! * [`cache`], [`hash`]: the read-cache for ranked reads and its keys.
//! * [`gateway`]: where a request goes.
//! * [`text`], [`search`], [`ranking`], [`engine`]: matching a query against
//!   the indexed items and ordering what matches.
//! * [`images`], [`ocr`], [`cms`]: image delivery addresses, image
//!   preparation, and the default permissions.

pub mod text;
pub mod hash;
pub mod record;
pub mod state;
pub mod actor;
pub mod laws;
pub mod registry;
pub mod broadcast;
pub mod service;
pub mod gateway;
pub mod cache;
pub mod cms;
pub mod search;
pub mod ranking;
pub mod engine;
pub mod images;
pub mod ocr;
