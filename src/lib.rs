//! Deferred-callback scheduling: an ordered set of pending callbacks, and the
//! decisions of the single worker that runs each of them once it is due.
//!
//! Time is a monotonic clock read as nanoseconds since an epoch chosen by the
//! caller; callbacks are any values the caller wants handed back when due.
pub mod pending;
pub mod laws;
pub mod scheduler;

pub use pending::{Entry, PendingSet};
pub use scheduler::{Action, Scheduler};
