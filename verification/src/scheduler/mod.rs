//! Request scheduling with continuous batching and paged key-value memory.

pub mod history;
pub mod laws;
pub mod model;
pub mod queue;
pub mod request;

pub use queue::{KvPageAllocation, ScheduledDecode, Scheduler};
pub use request::{Request, RequestState};
