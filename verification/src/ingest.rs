//! Accepts aggregated runtime batches from language agents.
//!
//! The handle will validate the protocol version and forward batches to the
//! store; for now it is a design-phase stub.

use vstd::prelude::*;

use crate::protocol::RuntimeStatBatch;

verus! {

/// Ingest handle.
pub struct IngestService;

#[derive(Debug)]
pub enum IngestError {
    /// Ingest is a design-phase stub.
    NotImplemented,
}

impl IngestService {
    pub fn new() -> (r: IngestService)
        ensures
            r == IngestService,
    {
        IngestService
    }

    /// Would validate and store `batch`; always answers `NotImplemented` for now.
    pub fn accept_batch(&self, batch: RuntimeStatBatch) -> (r: Result<(), IngestError>)
        ensures
            r matches Err(IngestError::NotImplemented),
    {
        Err(IngestError::NotImplemented)
    }
}

impl Default for IngestService {
    fn default() -> (r: IngestService)
        ensures
            r == IngestService,
    {
        IngestService::new()
    }
}

} // verus!
