//! Why a model cannot be converted.

use crate::text::{decimal, decimal_string};
use vstd::prelude::*;

verus! {

/// Why a model cannot be converted.
#[derive(Debug)]
pub enum ConvertError {
    /// The tokenizer description is no JSON document.
    BadTokenizer,
    MissingModel,
    /// The number of a token is as large as a number can be.
    HugeTokenId,
    /// The tokenizer configuration is no JSON document.
    BadTokenizerConfig,
    ShapeMismatch { name: String, expected: usize, got: usize },
    Collision { name: String, canonical: String },
    RoundTrip { name: String, got: usize, expected: usize },
    Version { version: u32, wanted: u32 },
    TensorCount { table: usize, header: u64, expected: usize },
    EmptyShape(String),
}

/// An error with its names as sequences.
pub enum ConvertErrorView {
    BadTokenizer,
    MissingModel,
    HugeTokenId,
    BadTokenizerConfig,
    ShapeMismatch { name: Seq<char>, expected: usize, got: usize },
    Collision { name: Seq<char>, canonical: Seq<char> },
    RoundTrip { name: Seq<char>, got: usize, expected: usize },
    Version { version: u32, wanted: u32 },
    TensorCount { table: usize, header: u64, expected: usize },
    EmptyShape(Seq<char>),
}

impl View for ConvertError {
    type V = ConvertErrorView;

    open spec fn view(&self) -> ConvertErrorView {
        match self {
            ConvertError::BadTokenizer => ConvertErrorView::BadTokenizer,
            ConvertError::MissingModel => ConvertErrorView::MissingModel,
            ConvertError::HugeTokenId => ConvertErrorView::HugeTokenId,
            ConvertError::BadTokenizerConfig => ConvertErrorView::BadTokenizerConfig,
            ConvertError::ShapeMismatch { name, expected, got } =>
                ConvertErrorView::ShapeMismatch { name: name@, expected: *expected, got: *got },
            ConvertError::Collision { name, canonical } => ConvertErrorView::Collision {
                name: name@,
                canonical: canonical@,
            },
            ConvertError::RoundTrip { name, got, expected } => ConvertErrorView::RoundTrip {
                name: name@,
                got: *got,
                expected: *expected,
            },
            ConvertError::Version { version, wanted } => ConvertErrorView::Version {
                version: *version,
                wanted: *wanted,
            },
            ConvertError::TensorCount { table, header, expected } => ConvertErrorView::TensorCount {
                table: *table,
                header: *header,
                expected: *expected,
            },
            ConvertError::EmptyShape(name) => ConvertErrorView::EmptyShape(name@),
        }
    }
}

impl ConvertErrorView {
    pub open spec fn message(self) -> Seq<char> {
        match self {
            ConvertErrorView::BadTokenizer => "Failed to parse tokenizer.json"@,
            ConvertErrorView::MissingModel => "tokenizer.json is missing model object"@,
            ConvertErrorView::HugeTokenId => "tokenizer.json has a token id that is too large"@,
            ConvertErrorView::BadTokenizerConfig => "Failed to parse tokenizer_config.json"@,
            ConvertErrorView::ShapeMismatch { name, expected, got } => "Tensor "@ + name
                + " shape/data mismatch: metadata says "@ + decimal(expected as nat)
                + " elements, loaded "@ + decimal(got as nat),
            ConvertErrorView::Collision { name, canonical } =>
                "Tensor name collision after canonicalization: "@ + name + " -> "@ + canonical,
            ConvertErrorView::RoundTrip { name, got, expected } => "Tensor "@ + name
                + " quantization roundtrip length mismatch: got "@ + decimal(got as nat)
                + ", expected "@ + decimal(expected as nat),
            ConvertErrorView::Version { version, wanted } =>
                "Written GGUF version mismatch: got "@ + decimal(version as nat) + ", expected "@
                + decimal(wanted as nat),
            ConvertErrorView::TensorCount { table, header, expected } =>
                "Written GGUF tensor count mismatch: table="@ + decimal(table as nat) + ", header="@
                + decimal(header as nat) + ", expected="@ + decimal(expected as nat),
            ConvertErrorView::EmptyShape(name) => "Written GGUF contains empty tensor shape: "@
                + name,
        }
    }
}

impl ConvertError {
    /// The error in words.
    pub fn message(&self) -> (r: String)
        ensures
            r@ == self@.message(),
    {
        match self {
            ConvertError::BadTokenizer => "Failed to parse tokenizer.json".to_string(),
            ConvertError::MissingModel => "tokenizer.json is missing model object".to_string(),
            ConvertError::HugeTokenId =>
                "tokenizer.json has a token id that is too large".to_string(),
            ConvertError::BadTokenizerConfig => "Failed to parse tokenizer_config.json".to_string(),
            ConvertError::ShapeMismatch { name, expected, got } => {
                let mut out = "Tensor ".to_string();
                out.append(name.as_str());
                out.append(" shape/data mismatch: metadata says ");
                out.append(decimal_string(*expected as u64).as_str());
                out.append(" elements, loaded ");
                out.append(decimal_string(*got as u64).as_str());
                out
            },
            ConvertError::Collision { name, canonical } => {
                let mut out = "Tensor name collision after canonicalization: ".to_string();
                out.append(name.as_str());
                out.append(" -> ");
                out.append(canonical.as_str());
                out
            },
            ConvertError::RoundTrip { name, got, expected } => {
                let mut out = "Tensor ".to_string();
                out.append(name.as_str());
                out.append(" quantization roundtrip length mismatch: got ");
                out.append(decimal_string(*got as u64).as_str());
                out.append(", expected ");
                out.append(decimal_string(*expected as u64).as_str());
                out
            },
            ConvertError::Version { version, wanted } => {
                let mut out = "Written GGUF version mismatch: got ".to_string();
                out.append(decimal_string(*version as u64).as_str());
                out.append(", expected ");
                out.append(decimal_string(*wanted as u64).as_str());
                out
            },
            ConvertError::TensorCount { table, header, expected } => {
                let mut out = "Written GGUF tensor count mismatch: table=".to_string();
                out.append(decimal_string(*table as u64).as_str());
                out.append(", header=");
                out.append(decimal_string(*header).as_str());
                out.append(", expected=");
                out.append(decimal_string(*expected as u64).as_str());
                out
            },
            ConvertError::EmptyShape(name) => {
                let mut out = "Written GGUF contains empty tensor shape: ".to_string();
                out.append(name.as_str());
                out
            },
        }
    }
}

} // verus!
