//! Fetch–transplant pipeline for binary scene assets.
//!
//! Scenes are graphs of nodes; some nodes are placeholders that reference
//! separately versioned content packages. The library discovers placeholders,
//! tracks the deduplicated set of referenced content identifiers, splices
//! freshly decoded content into each scene while preserving the placeholder's
//! identity, and aggregates per-item failures without ever aborting a run.

pub mod asset_response;
pub mod cache;
pub mod codec;
pub mod collect;
pub mod cookie;
pub mod ext;
pub mod failures;
pub mod fanout;
pub mod fetch;
pub mod graph;
pub mod gzip;
pub mod laws;
pub mod publish;
pub mod scan;
pub mod transplant;
pub mod universe_places_response;

use vstd::prelude::*;

verus! {

/// Width of the bounded fan-out used for fetching and publishing.
pub const FAN_OUT_WIDTH: usize = 3;

} // verus!
