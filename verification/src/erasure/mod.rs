//! Reed-Solomon erasure coding of log entries.
pub mod codec;
pub mod ec_service;
pub mod framing;
pub mod laws;
pub mod log_entry;

pub use ec_service::{ECError, ECService, EntryFragment};
