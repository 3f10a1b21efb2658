//! Durability core of a key-value store: a write-ahead log (WAL) that
//! serializes mutation records into an append-only byte log, together with
//! the discipline by which an in-memory index applies a mutation only after
//! the log has acknowledged it.
//!
//! The crate is organised leaf-first:
//! - [`entry`]: the mutation record and its mathematical model;
//! - [`error`]: the typed error surface of the WAL and of the stores;
//! - [`encoder`]: the reversible byte format for records, with its
//!   round-trip proofs;
//! - [`replay`]: decoding a whole log back into records and rebuilding an
//!   index from them;
//! - [`writer`]: the append/flush/sync capability and an in-memory
//!   implementation whose durability state is tracked exactly;
//! - [`message`] and [`queue`]: the request protocol and the bounded queue
//!   that feeds the consumer;
//! - [`actor`]: the single owner of a writer, draining requests strictly in
//!   arrival order;
//! - [`store`] and [`engine`]: the in-memory indexes, the latter gated by
//!   the write-ahead discipline.

pub mod actor;
pub mod encoder;
pub mod engine;
pub mod entry;
pub mod error;
pub mod message;
pub mod queue;
pub mod replay;
pub mod store;
pub mod writer;
