//! An in-memory log of the events that a ledger node emits when it
//! finalizes blocks, with filtered iteration over consistent snapshots.
//!
//! The log keeps the events of the most recent blocks as a chain of
//! immutable, shared nodes. One writer adds a batch of events for each
//! block; any number of readers take snapshots and iterate over them with
//! a query, without holding a lock while they do. The log forgets its
//! oldest batches once it holds more events, or spans more block heights,
//! than its limits allow.

pub mod dumb_queries;
pub mod event;
pub mod handles;
pub mod laws;
pub mod log;
pub mod model;
mod outside;

pub use crate::dumb_queries::QueryMatcher;
pub use crate::event::{Event, EventLevel, EventType};
pub use crate::handles::{
    new, with_limits, EventLog, LogEntrySender, Logger, WaitStep, LOG_BLOCK_HEIGHT_DIFF,
    MAX_LOG_EVENTS,
};
pub use crate::log::{
    compile_query, BlockHeight, EventLogInnerMux, EventLogIterator, EventLogSnapshot, LogEntry,
};
pub use crate::model::{IterError, LogLimits, WakeUp};
