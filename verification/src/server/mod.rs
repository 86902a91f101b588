//! What an API server answers.

pub mod chat;
pub mod stream;
pub mod types;

pub use chat::{finish_chat, prepare_chat, start_chat, ChatJob};
pub use stream::{ChunkEvent, StreamedText};
pub use types::{
    ApiError, ChatChoice, ChatCompletionRequest, ChatCompletionResponse, ChatMessage, StopSpec,
    UsageStats,
};
