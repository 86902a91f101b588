//! Quantization: formats, packed bits, blocks of quantized weights, codebooks.

pub mod blocks;
pub mod codebook;
pub mod encode;
pub mod engine;
pub mod formats;
pub mod laws;
pub mod packing;

pub use blocks::{WeightCoding, WeightTerm};
pub use codebook::Codebook;
pub use engine::{QuantEngine, QuantParams, RotationMatrix};
pub use formats::{GroupSize, KvQuantType, QuantFormat};
pub use formats::QuantFormat as QuantType;
