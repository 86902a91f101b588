//! Nexus, an inference engine for GGUF and safetensors language models.

pub mod backend;
pub mod bytes;
pub mod cli;
pub mod convert;
pub mod download;
pub mod download_laws;
pub mod engine;
pub mod gguf;
pub mod json;
pub mod memory;
pub mod mlx;
pub mod names;
pub mod order;
pub mod quant;
pub mod scheduler;
pub mod server;
pub mod text;
pub mod text_laws;
pub mod tokenizer;

pub use engine::InferenceEngine;
pub use gguf::{GgufReader, ModelMetadata};
pub use memory::UnifiedMemory;
pub use quant::{QuantFormat, QuantType};
