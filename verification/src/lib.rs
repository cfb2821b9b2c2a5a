//! A small persistence core for named counter and tag records.
//!
//! Records live in namespaces keyed by a location string (a community
//! identifier rendered in decimal, or the literal `generic` marker for
//! cross-location records). A store maps location keys to namespaces
//! and is serialized to a single JSON document; the encoder and parser
//! are verified to round-trip, so a store written out and read back
//! holds exactly the same records. Two record collections sit on top of
//! the store (counters and tags) with a merged lookup view, name
//! validation and normalization, and owner/edit access checks.

pub mod assoc;
pub mod codec;
pub mod config;
pub mod counter;
pub mod json;
pub mod namespace;
pub mod numfmt;
pub mod policy;
pub mod record;
pub mod store;
pub mod tag;
pub mod text;
pub mod util;
