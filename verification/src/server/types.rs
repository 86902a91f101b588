//! Requests and answers of the API.

use vstd::prelude::*;

verus! {

/// A message of a chat.
#[derive(Debug)]
pub struct ChatMessage {
    pub role: String,
    pub content: String,
}

/// The texts that end an answer.
#[derive(Debug)]
pub enum StopSpec {
    One(String),
    Many(Vec<String>),
}

/// What is asked for. Floating-point settings are held by their bits.
#[derive(Debug)]
pub struct ChatCompletionRequest {
    pub model: String,
    pub messages: Vec<ChatMessage>,
    pub max_tokens: Option<usize>,
    pub temperature: Option<u32>,
    pub top_p: Option<u32>,
    pub top_k: Option<usize>,
    pub repetition_penalty: Option<u32>,
    pub seed: Option<u64>,
    pub stop: Option<StopSpec>,
    pub stream: Option<bool>,
}

/// How many tokens were read and generated.
#[derive(Debug, Clone, Copy, PartialEq, Eq, Structural)]
pub struct UsageStats {
    pub prompt_tokens: usize,
    pub completion_tokens: usize,
    pub total_tokens: usize,
}

/// One answer.
#[derive(Debug)]
pub struct ChatChoice {
    pub index: usize,
    pub message: ChatMessage,
    pub finish_reason: String,
}

/// What is answered.
#[derive(Debug)]
pub struct ChatCompletionResponse {
    pub id: String,
    pub object: String,
    pub created: u64,
    pub model: String,
    pub choices: Vec<ChatChoice>,
    pub usage: UsageStats,
}

/// Why there is no answer: an HTTP status, and the reason in words.
#[derive(Debug)]
pub struct ApiError {
    pub status: u16,
    pub message: String,
}

/// The answer to a request where there is no model.
pub fn not_loaded() -> (r: ApiError)
    ensures
        r.status == 503,
        r.message@ == "Model not loaded"@,
{
    ApiError { status: 503, message: "Model not loaded".to_string() }
}

/// The state of the server, in a word.
pub fn health_status(model_loaded: bool) -> (r: &'static str)
    ensures
        r@ == (if model_loaded {
            "ok"@
        } else {
            "degraded"@
        }),
{
    if model_loaded {
        "ok"
    } else {
        "degraded"
    }
}

} // verus!
