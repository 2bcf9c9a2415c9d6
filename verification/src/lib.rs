//! Retrieval and reconciliation of a video's advertiser history.
//!
//! The library decides which backend era a video belongs to, drives the
//! pagination of the current-era JSON feed, parses the legacy CSV feed
//! defensively, merges the two sources when both succeed, aggregates the
//! entries into per-advertiser counts, and renders the result as
//! line-wrapped text. Network transport and file output live outside the
//! library and hand it plain values.
#![verifier::loop_isolation(false)]

use vstd::prelude::*;

pub mod csv;
pub mod era;
pub mod format;
pub mod history;
pub mod pagination;
pub mod text;
pub mod video_id;

verus! {

/// Failures of the retrieval pipeline, one variant per stage.
#[derive(Clone, Copy, Debug, PartialEq, Eq, Structural)]
pub enum AdvertError {
    /// The supplied URL does not match the watch-page pattern.
    InvalidUrl,
    /// The metadata document could not be fetched.
    MetadataFetchError,
    /// The metadata document or its timestamp field is malformed.
    MetadataParseError,
    /// A per-source request failed in transport.
    TransportError,
    /// A per-source response could not be decoded.
    SchemaError,
    /// The legacy CSV endpoint answered with a non-success status.
    UnexpectedStatus,
    /// Both legacy sources failed, so no history is retrievable.
    NoSourceAvailable,
    /// The output artifact could not be written.
    WriteError,
}

} // verus!
