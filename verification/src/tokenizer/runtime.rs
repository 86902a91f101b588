//! The tokenizer that a model runs with.

use crate::gguf::metadata::ModelMetadata;
use crate::tokenizer::byte::{byte_text, byte_tokens, ByteTokenizer, Tokenizer};
use crate::tokenizer::chat::{chat_text, message_views, render_chat};
use crate::tokenizer::vocabulary::{stored_tokenizer, GgufTokenizer};
use vstd::prelude::*;

verus! {

/// The tokenizer of a model, or the one that works on bytes.
pub enum RuntimeTokenizer {
    Byte(ByteTokenizer),
    Gguf(Box<GgufTokenizer>),
}

impl RuntimeTokenizer {
    /// The model's chat template.
    pub open spec fn template(self) -> Option<Seq<char>> {
        match self {
            RuntimeTokenizer::Byte(_) => None,
            RuntimeTokenizer::Gguf(t) => t@.chat_template,
        }
    }

    /// The tokenizer that metadata describes; the one on bytes where it describes none.
    pub fn from_metadata(metadata: Option<&ModelMetadata>) -> (r: Self)
        ensures
            match r {
                RuntimeTokenizer::Gguf(t) => metadata is Some && stored_tokenizer(
                    (metadata->0).metadata@,
                ) == Some(t@),
                RuntimeTokenizer::Byte(_) => metadata is None || stored_tokenizer(
                    (metadata->0).metadata@,
                ) is None,
            },
    {
        match metadata {
            Some(m) => match GgufTokenizer::from_metadata(m) {
                Some(t) => RuntimeTokenizer::Gguf(Box::new(t)),
                None => RuntimeTokenizer::Byte(ByteTokenizer),
            },
            None => RuntimeTokenizer::Byte(ByteTokenizer),
        }
    }

    /// Chat messages, role and content each, as one prompt.
    pub fn render_chat_messages(&self, messages: &[(&str, &str)], add_generation_prompt: bool) -> (r:
        String)
        ensures
            r@ == chat_text(self.template(), message_views(messages@), add_generation_prompt),
    {
        let template = match self {
            RuntimeTokenizer::Byte(_) => None,
            RuntimeTokenizer::Gguf(t) => t.chat_template(),
        };
        render_chat(template, messages, add_generation_prompt)
    }
}

impl Default for RuntimeTokenizer {
    fn default() -> (r: Self)
        ensures
            r is Byte,
    {
        RuntimeTokenizer::Byte(ByteTokenizer)
    }
}

impl Tokenizer for RuntimeTokenizer {
    open spec fn spec_encode(&self, text: Seq<char>) -> Seq<u32> {
        match self {
            RuntimeTokenizer::Byte(_) => byte_tokens(text),
            RuntimeTokenizer::Gguf(t) => t@.encode(text),
        }
    }

    open spec fn spec_decode(&self, tokens: Seq<u32>) -> Seq<char> {
        match self {
            RuntimeTokenizer::Byte(_) => byte_text(tokens),
            RuntimeTokenizer::Gguf(t) => t@.decode(tokens),
        }
    }

    fn encode(&self, text: &str) -> (r: Vec<u32>) {
        match self {
            RuntimeTokenizer::Byte(t) => t.encode(text),
            RuntimeTokenizer::Gguf(t) => t.encode(text),
        }
    }

    fn decode(&self, tokens: &[u32]) -> (r: String) {
        match self {
            RuntimeTokenizer::Byte(t) => t.decode(tokens),
            RuntimeTokenizer::Gguf(t) => t.decode(tokens),
        }
    }
}

} // verus!
