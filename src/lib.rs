//! Song recommendation from co-listening behaviour over a listening-event log.
use vstd::prelude::*;

pub mod event;
pub mod expansion;
pub mod index;
pub mod names;
pub mod ranking;
pub mod title;

verus! {

/// A seed song with fewer distinct listeners than this is too sparse to rank
/// directly, and its neighbourhood is widened first.
pub const SPARSE_THRESHOLD: usize = 5;

/// How many of the seed's co-listened songs the widening takes.
pub const EXPANSION_BREADTH: usize = 3;

/// The most log rows that ingestion reads.
pub const MAX_ROWS: usize = 200000;

} // verus!
