//! A small cooperative executor for a single logical thread of control.
//!
//! Units of work are polled in round-robin order, one fixed-size pass at a
//! time; progress after the first pass is driven by wake notifications that
//! ask the host to schedule another pass later, never by recursion.

pub mod cstring;
pub mod drain;
pub mod executor;
pub mod shared;
