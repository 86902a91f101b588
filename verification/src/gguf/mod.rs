//! The GGUF file format: tags, values, tensor tables, and tensor payloads.

pub mod error;
pub mod file_laws;
pub mod laws;
pub mod metadata;
pub mod payload;
pub mod reader;
pub mod scan;
pub mod stream;
pub mod types;
pub mod value;
pub mod weights;

pub use error::GgufError;
pub use metadata::{ModelMetadata, TensorInfo};
pub use reader::GgufReader;
pub use types::{GgufByteOrder, GgufDataType, GgufValueType};
pub use value::GgufValue;
