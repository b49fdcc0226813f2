//! Core of a time-series storage node: a sequenced, replay-safe catalog with
//! soft/hard deletion, retention and token state; a persisted-files index; and
//! a background compaction planner that merges small Parquet files into
//! coarser generations while preserving sort invariants.

use vstd::prelude::*;

pub mod catalog;
pub mod catalog_api;
pub mod compaction;
pub mod database;
pub mod eqv;
pub mod errors;
pub mod files;
pub mod log;
pub mod nodes;
pub mod persist;
pub mod repository;
pub mod table;
pub mod textutil;
pub mod tokens;
pub mod types;
pub mod validate;

verus! {

/// The sequence number of a batch of catalog operations.
#[derive(Debug, Clone, Copy, PartialEq, Eq, Structural)]
pub struct CatalogSequenceNumber(pub u64);

impl CatalogSequenceNumber {
    pub fn new(id: u64) -> (r: Self)
        ensures
            r.0 == id,
    {
        CatalogSequenceNumber(id)
    }

    /// The sequence number that the next applied batch will consume.
    pub fn next(&self) -> (r: Self)
        requires
            self.0 < u64::MAX,
        ensures
            r.0 == self.0 + 1,
    {
        CatalogSequenceNumber(self.0 + 1)
    }

    pub fn get(&self) -> (r: u64)
        ensures
            r == self.0,
    {
        self.0
    }
}

} // verus!
