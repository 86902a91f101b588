//! Memory management: pages, blocks, pools over several regions, and sizes in words.

pub mod block;
pub mod history;
pub mod laws;
pub mod model;
pub mod pool;
pub mod report;
pub mod size;
pub mod unified;

pub use block::{MemRegion, MemoryBlock, MemoryPage};
pub use pool::{MemoryPool, MemoryStats};
pub use size::format_size;
pub use unified::UnifiedMemory;
