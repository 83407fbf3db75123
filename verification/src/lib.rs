//! A sync-capable document store for structured form data: an append-only
//! transaction log over a write-once blob store, with a secondary index for
//! forms, a validator that gates form writes, and a pull protocol between
//! peers.
//!
//! The engine works on values in memory and does no input or output. Whoever
//! embeds it persists the tables and the blob files, moves bytes between
//! peers, and turns payloads into typed values and back.
//!
//! - `transactions`: the kinds of entity, the actions, and the log's entries.
//! - `log`: the transaction log and the current state it defines.
//! - `blob_store`: the blobs, each under its identifier.
//! - `forms_index`: the index of live forms, as a replay of the log.
//! - `datatypes`: templates, forms, filters, and what an entity must offer to
//!   be stored.
//! - `schedules`: schedules and their shifts.
//! - `bytes`: the layout of a bytes entity in its blob.
//! - `storage_manager`: the engine's operations, kind by kind.
//! - `sync`: serving children, and the pull loop as a function of state and
//!   event.
//! - `tables`: the watermarks and the awaited blobs.
//! - `laws`: what holds across the operations, proved.
//! - `ids`, `error`, `settings`: identifiers and the clock, the errors, the
//!   defaults of a node's configuration.

pub mod blob_store;
pub mod bytes;
pub mod datatypes;
pub mod error;
pub mod forms_index;
pub mod ids;
pub mod laws;
pub mod log;
pub mod schedules;
pub mod settings;
pub mod storage_manager;
pub mod sync;
pub mod tables;
pub mod transactions;
