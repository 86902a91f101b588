//! The hardware that inference can run on.

pub mod cpu;
pub mod factory;
pub mod kind;
pub mod metal;

pub use cpu::{CpuBackend, CpuFeatures};
pub use factory::BackendFactory;
pub use kind::{BackendCapabilities, BackendType, MemoryInfo};
pub use metal::MetalBackend;
