//! Incremental sync engine for a change feed of a structured knowledge base:
//! identifier decoding, aggregation of feed rows into work units, the
//! structural diff of two revision documents, and planning of the writes.

pub mod aggregate_laws;
pub mod change;
pub mod diff_laws;
pub mod diff_rules;
pub mod json;
pub mod recent_changes;
pub mod response;
pub mod revision_compare;
pub mod rows;
pub mod text;
pub mod text_cache;
pub mod timestamp;
pub mod watermark;
pub mod wdrc;

use vstd::prelude::*;

verus! {

/// Numeric identifier of an item.
pub type ItemId = u64;

/// Identifier of an interned text.
pub type TextId = u64;

/// Identifier of a revision.
pub type RevisionId = u64;

} // verus!
