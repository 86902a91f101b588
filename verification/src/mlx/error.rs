//! Why a safetensors model cannot be read.

use crate::text::{decimal, decimal_string};
use vstd::prelude::*;

verus! {

/// Why a safetensors model cannot be read.
#[derive(Debug)]
pub enum MlxError {
    /// The file ends within the header's size.
    ShortSize,
    /// The header's size is zero or too large.
    HeaderSize(u64),
    /// The file ends within the header.
    ShortHeader,
    NotUtf8,
    NotJson,
    MissingDtype(String),
    MissingShape(String),
    InvalidShape(String),
    MissingOffsets(String),
    InvalidOffsets(String),
    InvalidStart(String),
    InvalidEnd(String),
    /// Two files have a tensor of the same name.
    Duplicate(String),
    /// No file has a tensor of that name.
    NotFound(String),
    /// The elements of a tensor are of a type that cannot be read.
    UnsupportedDtype { dtype: String, tensor: String },
}

/// An error with its names as sequences.
pub enum MlxErrorView {
    ShortSize,
    HeaderSize(u64),
    ShortHeader,
    NotUtf8,
    NotJson,
    MissingDtype(Seq<char>),
    MissingShape(Seq<char>),
    InvalidShape(Seq<char>),
    MissingOffsets(Seq<char>),
    InvalidOffsets(Seq<char>),
    InvalidStart(Seq<char>),
    InvalidEnd(Seq<char>),
    Duplicate(Seq<char>),
    NotFound(Seq<char>),
    UnsupportedDtype { dtype: Seq<char>, tensor: Seq<char> },
}

impl View for MlxError {
    type V = MlxErrorView;

    open spec fn view(&self) -> MlxErrorView {
        match self {
            MlxError::ShortSize => MlxErrorView::ShortSize,
            MlxError::HeaderSize(n) => MlxErrorView::HeaderSize(*n),
            MlxError::ShortHeader => MlxErrorView::ShortHeader,
            MlxError::NotUtf8 => MlxErrorView::NotUtf8,
            MlxError::NotJson => MlxErrorView::NotJson,
            MlxError::MissingDtype(s) => MlxErrorView::MissingDtype(s@),
            MlxError::MissingShape(s) => MlxErrorView::MissingShape(s@),
            MlxError::InvalidShape(s) => MlxErrorView::InvalidShape(s@),
            MlxError::MissingOffsets(s) => MlxErrorView::MissingOffsets(s@),
            MlxError::InvalidOffsets(s) => MlxErrorView::InvalidOffsets(s@),
            MlxError::InvalidStart(s) => MlxErrorView::InvalidStart(s@),
            MlxError::InvalidEnd(s) => MlxErrorView::InvalidEnd(s@),
            MlxError::Duplicate(s) => MlxErrorView::Duplicate(s@),
            MlxError::NotFound(s) => MlxErrorView::NotFound(s@),
            MlxError::UnsupportedDtype { dtype, tensor } => MlxErrorView::UnsupportedDtype {
                dtype: dtype@,
                tensor: tensor@,
            },
        }
    }
}

/// What became of a header that could not be read.
#[derive(Debug)]
pub enum HeaderFault {
    Refused(MlxError),
    /// A tensor ends before it starts, or starts past every file.
    Overrun,
}

/// What became of a header, with the error's names as sequences.
pub enum FaultView {
    Refused(MlxErrorView),
    Overrun,
}

impl View for HeaderFault {
    type V = FaultView;

    open spec fn view(&self) -> FaultView {
        match self {
            HeaderFault::Refused(e) => FaultView::Refused(e@),
            HeaderFault::Overrun => FaultView::Overrun,
        }
    }
}

fn phrase(before: &str, name: &str, after: &str) -> (r: String)
    ensures
        r@ == before@ + name@ + after@,
{
    let mut out = before.to_string();
    out.append(name);
    out.append(after);
    out
}

impl MlxErrorView {
    pub open spec fn message(self) -> Seq<char> {
        match self {
            MlxErrorView::ShortSize => "Failed to read header size"@,
            MlxErrorView::HeaderSize(n) => "Invalid header size: "@ + decimal(n as nat)
                + " (possible corrupted file)"@,
            MlxErrorView::ShortHeader => "Failed to read header bytes"@,
            MlxErrorView::NotUtf8 => "Header is not valid UTF-8"@,
            MlxErrorView::NotJson => "Failed to parse safetensors JSON"@,
            MlxErrorView::MissingDtype(s) => "Missing dtype for tensor "@ + s + ""@,
            MlxErrorView::MissingShape(s) => "Missing shape for tensor "@ + s + ""@,
            MlxErrorView::InvalidShape(s) => "Invalid shape for tensor "@ + s + ""@,
            MlxErrorView::MissingOffsets(s) => "Missing data_offsets for tensor "@ + s + ""@,
            MlxErrorView::InvalidOffsets(s) => "Invalid data_offsets for tensor "@ + s + ""@,
            MlxErrorView::InvalidStart(s) => "Invalid start offset for tensor "@ + s + ""@,
            MlxErrorView::InvalidEnd(s) => "Invalid end offset for tensor "@ + s + ""@,
            MlxErrorView::Duplicate(s) => "Duplicate tensor "@ + s
                + " across safetensors shards"@,
            MlxErrorView::NotFound(s) => "Tensor '"@ + s + "' not found"@,
            MlxErrorView::UnsupportedDtype { dtype, tensor } => "Unsupported dtype: "@ + dtype
                + " for tensor "@ + tensor,
        }
    }
}

impl MlxError {
    /// The error in words.
    pub fn message(&self) -> (r: String)
        ensures
            r@ == self@.message(),
    {
        match self {
            MlxError::ShortSize => "Failed to read header size".to_string(),
            MlxError::HeaderSize(n) => phrase(
                "Invalid header size: ",
                decimal_string(*n).as_str(),
                " (possible corrupted file)",
            ),
            MlxError::ShortHeader => "Failed to read header bytes".to_string(),
            MlxError::NotUtf8 => "Header is not valid UTF-8".to_string(),
            MlxError::NotJson => "Failed to parse safetensors JSON".to_string(),
            MlxError::MissingDtype(s) => phrase("Missing dtype for tensor ", s.as_str(), ""),
            MlxError::MissingShape(s) => phrase("Missing shape for tensor ", s.as_str(), ""),
            MlxError::InvalidShape(s) => phrase("Invalid shape for tensor ", s.as_str(), ""),
            MlxError::MissingOffsets(s) => phrase(
                "Missing data_offsets for tensor ",
                s.as_str(),
                "",
            ),
            MlxError::InvalidOffsets(s) => phrase(
                "Invalid data_offsets for tensor ",
                s.as_str(),
                "",
            ),
            MlxError::InvalidStart(s) => phrase("Invalid start offset for tensor ", s.as_str(), ""),
            MlxError::InvalidEnd(s) => phrase("Invalid end offset for tensor ", s.as_str(), ""),
            MlxError::Duplicate(s) => phrase(
                "Duplicate tensor ",
                s.as_str(),
                " across safetensors shards",
            ),
            MlxError::NotFound(s) => phrase("Tensor '", s.as_str(), "' not found"),
            MlxError::UnsupportedDtype { dtype, tensor } => {
                let mut out = "Unsupported dtype: ".to_string();
                out.append(dtype.as_str());
                out.append(" for tensor ");
                out.append(tensor.as_str());
                out
            },
        }
    }
}

} // verus!
