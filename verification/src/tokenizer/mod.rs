//! Tokenization: byte-level, and by a model's vocabulary.
//!
//! A model's tokenizer is used where its metadata has one; texts are otherwise taken
//! byte by byte.

pub mod accents;
pub mod byte;
pub mod chat;
pub mod chat_laws;
pub mod laws;
pub mod model;
pub mod runtime;
pub mod vocabulary;
pub mod vocabulary_laws;

pub use byte::{ByteTokenizer, Tokenizer};
pub use runtime::RuntimeTokenizer;
pub use vocabulary::{GgufTokenizer, SpecialTokenIds, TokenizerBehavior};
