//! A local package-metadata index: a keyed table of package records with
//! last-write-wins upsert, a three-tier ranked name lookup, and the
//! all-or-nothing protocol by which a snapshot is written to durable storage.
//!
//! The library computes and decides; it performs no input or output.

pub mod db;
pub mod error;
pub mod index;
pub mod laws;
pub mod query;
pub mod record;
pub mod store;
pub mod table;
pub mod text;
