//! Model architectures.

use crate::text::str_eq;
use vstd::prelude::*;

verus! {

/// An architecture, by the name that a model file gives it.
#[derive(Debug, PartialEq, Eq)]
pub enum ModelArch {
    Llama,
    Mistral,
    Mixtral,
    Gemma,
    Phi,
    Qwen2,
    Deepseek,
    Unknown(String),
}

impl View for ModelArch {
    type V = Seq<char>;

    /// The name of the architecture.
    open spec fn view(&self) -> Seq<char> {
        match self {
            ModelArch::Llama => "llama"@,
            ModelArch::Mistral => "mistral"@,
            ModelArch::Mixtral => "mixtral"@,
            ModelArch::Gemma => "gemma"@,
            ModelArch::Phi => "phi"@,
            ModelArch::Qwen2 => "qwen2"@,
            ModelArch::Deepseek => "deepseek"@,
            ModelArch::Unknown(name) => name@,
        }
    }
}

impl ModelArch {
    /// The name is one of those with a variant of their own.
    pub open spec fn is_known(name: Seq<char>) -> bool {
        ||| name == "llama"@
        ||| name == "mistral"@
        ||| name == "mixtral"@
        ||| name == "gemma"@
        ||| name == "phi"@
        ||| name == "qwen2"@
        ||| name == "deepseek"@
    }

    /// The architecture with a name.
    pub fn from_str(s: &str) -> (r: Self)
        ensures
            r@ == s@,
            r is Unknown <==> !Self::is_known(s@),
    {
        if str_eq(s, "llama") {
            ModelArch::Llama
        } else if str_eq(s, "mistral") {
            ModelArch::Mistral
        } else if str_eq(s, "mixtral") {
            ModelArch::Mixtral
        } else if str_eq(s, "gemma") {
            ModelArch::Gemma
        } else if str_eq(s, "phi") {
            ModelArch::Phi
        } else if str_eq(s, "qwen2") {
            ModelArch::Qwen2
        } else if str_eq(s, "deepseek") {
            ModelArch::Deepseek
        } else {
            ModelArch::Unknown(s.to_string())
        }
    }

    /// The name of the architecture.
    pub fn name(&self) -> (r: &str)
        ensures
            r@ == self@,
    {
        match self {
            ModelArch::Llama => "llama",
            ModelArch::Mistral => "mistral",
            ModelArch::Mixtral => "mixtral",
            ModelArch::Gemma => "gemma",
            ModelArch::Phi => "phi",
            ModelArch::Qwen2 => "qwen2",
            ModelArch::Deepseek => "deepseek",
            ModelArch::Unknown(name) => name.as_str(),
        }
    }
}

} // verus!
