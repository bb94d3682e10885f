//! Leasing of ephemeral ports out of a fixed window.
//!
//! The allocator hands out candidates from a cursor that walks the window and
//! keeps the set of ports that are reserved within this process. Whether a
//! candidate can really be bound is a question for the host: the caller
//! probes it and reports the outcome back.
pub mod allocator;
pub mod laws;

pub use allocator::{AllocatorState, LeaseSearch, PortLease, TestSocketManager};
