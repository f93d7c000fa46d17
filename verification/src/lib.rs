//! An in-process broadcast hub, and the in-memory data structures of the
//! platform it serves.
//!
//! The hub lets one producer fan events out to a changing set of
//! subscribers, each behind a one-slot mailbox, without ever blocking on a
//! slow or absent subscriber. Its rules are stated over a mathematical model
//! ([`hub_state`], [`offer`]) and the laws that follow from them are proved
//! in [`history`]. The executable actor in [`event_subscription`] keeps its
//! mailboxes in channels of the `futures` crate ([`channel`]) and is proved
//! to follow the model, whatever the channels answer.
//!
//! Beside the hub stand the directory tree of the in-memory filesystem
//! ([`directory`], [`memory_system`]), the formats it is exchanged in
//! ([`constellation`]) and the data kept in the cache ([`pocket_dimension`]).

pub mod offer;
pub mod hub_state;
pub mod history;
pub mod channel;
pub mod event_subscription;
pub mod text;
pub mod constellation;
pub mod clock;
pub mod error;
pub mod directory;
pub mod memory_system;
pub mod pocket_dimension;
pub mod ffi_array;
