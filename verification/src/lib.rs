//! codepulse core library: wire types, the runtime/static intelligence store,
//! and the component handles used by the daemon.

pub mod protocol;
pub mod identity;
pub mod ranking;
pub mod model;
pub mod answers;
pub mod clock;
pub mod store;
pub mod controller;
pub mod indexer;
pub mod ingest;
pub mod laws;
