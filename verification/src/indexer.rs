//! Static symbol indexer.
//!
//! Python grammar first; additional languages are grammar plugins. This handle is
//! a design-phase stub: indexing is not implemented yet.

use vstd::prelude::*;

verus! {

pub struct Indexer;

#[derive(Debug)]
pub enum IndexerError {
    /// The indexer is a design-phase stub.
    NotImplemented,
}

impl Indexer {
    pub fn new() -> (r: Indexer)
        ensures
            r == Indexer,
    {
        Indexer
    }

    /// Would index the workspace at `root` and return the number of symbols;
    /// always answers `NotImplemented` for now.
    pub fn index_root(&self, root: &str) -> (r: Result<usize, IndexerError>)
        ensures
            r matches Err(IndexerError::NotImplemented),
    {
        Err(IndexerError::NotImplemented)
    }
}

impl Default for Indexer {
    fn default() -> (r: Indexer)
        ensures
            r == Indexer,
    {
        Indexer::new()
    }
}

} // verus!
