//! Adaptive probe controller.
//!
//! Enables exact instrumentation only for selected symbols, for a bounded window.
//! This handle is a design-phase stub: targeted enabling is not implemented yet.

use vstd::prelude::*;

use crate::protocol::{ProbeCommand, SymbolId};

verus! {

pub struct ProbeController;

#[derive(Debug)]
pub enum ControllerError {
    /// The controller is a design-phase stub.
    NotImplemented,
}

impl ProbeController {
    pub fn new() -> (r: ProbeController)
        ensures
            r == ProbeController,
    {
        ProbeController
    }

    /// Would enable exact instrumentation of `targets` for `duration_s` seconds;
    /// always answers `NotImplemented` for now.
    pub fn enable_targeted(&self, targets: Vec<SymbolId>, duration_s: u64) -> (r: Result<
        ProbeCommand,
        ControllerError,
    >)
        ensures
            r matches Err(ControllerError::NotImplemented),
    {
        Err(ControllerError::NotImplemented)
    }
}

impl Default for ProbeController {
    fn default() -> (r: ProbeController)
        ensures
            r == ProbeController,
    {
        ProbeController::new()
    }
}

} // verus!
