//! Converting safetensors models to GGUF files.

pub mod components;
pub mod conversion;
pub mod error;
pub mod formats;
pub mod laws;
pub mod metadata;
pub mod model_laws;
pub mod names;
pub mod readback;
pub mod tokenizer;
pub mod tokens;
pub mod writer;

pub use conversion::{validate_written_gguf, Conversion};
pub use error::ConvertError;
pub use formats::QuantFormat;
pub use metadata::build_metadata;
pub use names::canonical_tensor_name;
pub use writer::{write_gguf, ConvertedTensor, GgufValue};
