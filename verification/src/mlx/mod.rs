//! Models in the safetensors format.

pub mod config;
pub mod error;
pub mod files;
pub mod header;
pub mod laws;
pub mod loader;
pub mod payload;

pub use config::MlxModelConfig;
pub use error::{HeaderFault, MlxError};
pub use files::weight_files;
pub use header::{list_tensors, parse_safetensors_header, SafeTensorsHeader, TensorMeta};
pub use loader::MlxModelLoader;
pub use payload::{MlxDtype, MlxTerm};
