//! Verified core of a remote-document exporter.
//!
//! The library holds the logic of the export pipeline: scanning document
//! bytes for embedded image references, splicing replacement bytes into
//! the original content, deriving stable content-addressed cache
//! filenames, the per-document and per-resource decision state machines,
//! and the run-level document registry. All I/O — network, filesystem,
//! threads — lives outside the library and feeds it plain values.

pub mod bytes_util;
pub mod cache;
pub mod extract;
pub mod naming;
pub mod pipeline;
pub mod registry;
pub mod replace;
pub mod retry;
pub mod splice;
