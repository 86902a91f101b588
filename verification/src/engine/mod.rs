//! The parts of inference that work on whole numbers: caches, sampling order,
//! generation, and what is loaded of a model.

pub mod arch;
pub mod config;
pub mod generation;
pub mod generation_laws;
pub mod kv;
pub mod load;
pub mod load_laws;
pub mod moe;
pub mod sampling;
pub mod sampling_laws;
pub mod tensors;

pub use arch::ModelArch;
pub use config::{GenerationConfig, InferenceConfig, MoeDispatchConfig};
pub use generation::{Generation, Speculation, SpeculativeStats};
pub use kv::{KvCache, KvCacheBuffer, KvTerm, KvVector, PackedKvBuffer};
pub use load::{InferenceEngine, LoadPlan, ModelDims, TensorChoice};
pub use moe::{MoeError, MoeRoute};
