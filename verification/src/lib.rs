//! A verified subscription-list manager: an OPML-style document model with
//! parse and serialize, repository operations that keep feed addresses
//! unique, a persistence model for the one on-disk file, and the decision
//! core of a version-control sync engine.
//!
//! Concurrent runs against the same on-disk file or tracked directory are
//! not coordinated here; they are racy by design and a caller's concern.

pub mod client;
pub mod command;
pub mod document;
pub mod opml;
pub mod opml_client;
pub mod persist;
pub mod roundtrip;
pub mod rss;
pub mod sync;
pub mod text;
