//! Orchestration core for a fleet of independent remote accounts.
//!
//! The library verifies the parts of the system that carry real invariants:
//! the bounded-concurrency fan-out executor, the credential-loading pipeline
//! that normalizes heterogeneous session formats, and the menu dispatcher's
//! state machine. Network transports, the embedded format converter and the
//! interactive shell are external collaborators that live outside the
//! library.

pub mod cephei;
pub mod dispatcher;
pub mod executor;
pub mod telegram;
