//! What can be wrong with a GGUF file.

use crate::bytes::{put_u32, u32_bytes, Utf8Flaw};
use crate::text::{decimal, decimal_string, push_char};
use vstd::prelude::*;

verus! {

/// The part of a file that was being read when the file ended.
#[derive(Debug, Clone, Copy, PartialEq, Eq, Structural)]
pub enum FilePart {
    TensorCount,
    KvCount,
    KeyLength,
    Key,
    ValueType,
    TensorNameLength,
    TensorName,
    Dims,
    Shape,
    DataType,
    TensorOffset,
}

/// How a failure is classed.
#[derive(Debug, Clone, Copy, PartialEq, Eq, Structural)]
pub enum ErrorClass {
    InvalidData,
    UnexpectedEof,
    Unsupported,
}

/// A reason for which a file is refused.
#[derive(Debug, Clone, Copy, PartialEq, Eq, Structural)]
pub enum GgufError {
    /// A stream ended inside a field.
    ShortRead,
    /// A stream starts with other bytes than the magic.
    BadMagic(u32),
    /// A file is too short for the magic and a version, or starts otherwise.
    InvalidMagic,
    /// A file's version is none of those that are read.
    UnsupportedVersion(u32),
    /// A stream's version is none of those that are read.
    UnsupportedStreamVersion(u32),
    /// The file ended before that part.
    Truncated(FilePart),
    /// A name or a text is not UTF-8.
    InvalidUtf8(Utf8Flaw),
    UnknownValueType(u32),
    /// No value type has the number of an array's elements in a file.
    UnknownArrayType,
    /// No value type has the number of an array's elements in a stream.
    UnknownElementType,
    /// A stream holds an array whose element type is not read.
    UnsupportedArrayType,
    UnknownDataType(u32),
}

/// The hexadecimal digit of a number below sixteen.
pub open spec fn hex_digit(d: u8) -> char {
    if d < 10 {
        (d + 48) as char
    } else {
        (d + 87) as char
    }
}

/// Bytes in square brackets, two hexadecimal digits each, with commas between.
pub open spec fn hex_list(b: Seq<u8>) -> Seq<char> {
    hex_items(b).push(']')
}

/// The part of [`hex_list`] before the closing bracket.
pub open spec fn hex_items(b: Seq<u8>) -> Seq<char>
    decreases b.len(),
{
    if b.len() == 0 {
        seq!['[']
    } else {
        let before = hex_items(b.drop_last());
        let gap = if b.len() == 1 {
            before
        } else {
            before + seq![',', ' ']
        };
        gap.push(hex_digit(b.last() / 16)).push(hex_digit(b.last() % 16))
    }
}

fn hex_char(d: u8) -> (r: char)
    requires
        d < 16,
    ensures
        r == hex_digit(d),
{
    if d < 10 {
        (d + 48) as char
    } else {
        (d + 87) as char
    }
}

fn hex_list_string(b: &Vec<u8>) -> (r: String)
    ensures
        r@ == hex_list(b@),
{
    let mut out = String::new();
    push_char(&mut out, '[');
    assert(out@ =~= hex_items(b@.take(0)));
    let mut i: usize = 0;
    while i < b.len()
        invariant
            i <= b@.len(),
            out@ == hex_items(b@.take(i as int)),
        decreases b@.len() - i,
    {
        let ghost before = out@;
        if i > 0 {
            push_char(&mut out, ',');
            push_char(&mut out, ' ');
            assert(out@ =~= before + seq![',', ' ']);
        }
        push_char(&mut out, hex_char(b[i] / 16));
        push_char(&mut out, hex_char(b[i] % 16));
        assert(b@.take(i + 1).drop_last() =~= b@.take(i as int));
        i += 1;
    }
    assert(b@.take(i as int) =~= b@);
    push_char(&mut out, ']');
    out
}

/// What is wrong with bytes that are not UTF-8, in words.
pub open spec fn flaw_text(flaw: Utf8Flaw) -> Seq<char> {
    match flaw.error_len {
        Some(n) => "invalid utf-8 sequence of "@ + decimal(n as nat) + " bytes from index "@
            + decimal(flaw.valid_up_to as nat),
        None => "incomplete utf-8 byte sequence from index "@ + decimal(flaw.valid_up_to as nat),
    }
}

fn flaw_string(flaw: &Utf8Flaw) -> (r: String)
    ensures
        r@ == flaw_text(*flaw),
{
    match flaw.error_len {
        Some(n) => {
            let mut m = "invalid utf-8 sequence of ".to_string();
            m.append(decimal_string(n as u64).as_str());
            m.append(" bytes from index ");
            m.append(decimal_string(flaw.valid_up_to as u64).as_str());
            m
        },
        None => {
            let mut m = "incomplete utf-8 byte sequence from index ".to_string();
            m.append(decimal_string(flaw.valid_up_to as u64).as_str());
            m
        },
    }
}

impl FilePart {
    pub open spec fn spec_message(self) -> Seq<char> {
        match self {
            FilePart::TensorCount => "Unexpected EOF reading tensor count"@,
            FilePart::KvCount => "Unexpected EOF reading kv count"@,
            FilePart::KeyLength => "Unexpected EOF reading metadata key length"@,
            FilePart::Key => "Key string exceeds file bounds"@,
            FilePart::ValueType => "Unexpected EOF reading value type"@,
            FilePart::TensorNameLength => "Unexpected EOF reading tensor name length"@,
            FilePart::TensorName => "Tensor name exceeds file bounds"@,
            FilePart::Dims => "Unexpected EOF reading dims"@,
            FilePart::Shape => "Unexpected EOF reading shape"@,
            FilePart::DataType => "Unexpected EOF reading data type"@,
            FilePart::TensorOffset => "Unexpected EOF reading tensor offset"@,
        }
    }

    pub fn message(&self) -> (r: &'static str)
        ensures
            r@ == self.spec_message(),
    {
        match self {
            FilePart::TensorCount => "Unexpected EOF reading tensor count",
            FilePart::KvCount => "Unexpected EOF reading kv count",
            FilePart::KeyLength => "Unexpected EOF reading metadata key length",
            FilePart::Key => "Key string exceeds file bounds",
            FilePart::ValueType => "Unexpected EOF reading value type",
            FilePart::TensorNameLength => "Unexpected EOF reading tensor name length",
            FilePart::TensorName => "Tensor name exceeds file bounds",
            FilePart::Dims => "Unexpected EOF reading dims",
            FilePart::Shape => "Unexpected EOF reading shape",
            FilePart::DataType => "Unexpected EOF reading data type",
            FilePart::TensorOffset => "Unexpected EOF reading tensor offset",
        }
    }
}

impl GgufError {
    pub open spec fn spec_class(self) -> ErrorClass {
        match self {
            GgufError::ShortRead | GgufError::Truncated(_) => ErrorClass::UnexpectedEof,
            GgufError::UnsupportedArrayType => ErrorClass::Unsupported,
            _ => ErrorClass::InvalidData,
        }
    }

    pub fn class(&self) -> (r: ErrorClass)
        ensures
            r == self.spec_class(),
    {
        match self {
            GgufError::ShortRead | GgufError::Truncated(_) => ErrorClass::UnexpectedEof,
            GgufError::UnsupportedArrayType => ErrorClass::Unsupported,
            _ => ErrorClass::InvalidData,
        }
    }

    pub open spec fn spec_message(self) -> Seq<char> {
        match self {
            GgufError::ShortRead => "failed to fill whole buffer"@,
            GgufError::BadMagic(m) => "Invalid GGUF magic: "@ + hex_list(u32_bytes(m)),
            GgufError::InvalidMagic => "Invalid GGUF magic"@,
            GgufError::UnsupportedVersion(v) => "Unsupported GGUF version: "@ + decimal(v as nat),
            GgufError::UnsupportedStreamVersion(v) => "Unsupported GGUF version: "@ + decimal(
                v as nat,
            ) + ". Only v1, v2 and v3 supported."@,
            GgufError::Truncated(part) => part.spec_message(),
            GgufError::InvalidUtf8(flaw) => flaw_text(flaw),
            GgufError::UnknownValueType(id) => "Unknown value type: "@ + decimal(id as nat),
            GgufError::UnknownArrayType => "Unknown array type"@,
            GgufError::UnknownElementType => "Unknown array element type"@,
            GgufError::UnsupportedArrayType => "Array type not fully supported"@,
            GgufError::UnknownDataType(id) => "Unknown data type: "@ + decimal(id as nat),
        }
    }

    /// The failure in words.
    pub fn message(&self) -> (r: String)
        ensures
            r@ == self.spec_message(),
    {
        match self {
            GgufError::ShortRead => "failed to fill whole buffer".to_string(),
            GgufError::BadMagic(magic) => {
                let mut b: Vec<u8> = Vec::new();
                put_u32(&mut b, *magic);
                let mut m = "Invalid GGUF magic: ".to_string();
                m.append(hex_list_string(&b).as_str());
                assert(b@ =~= u32_bytes(*magic));
                m
            },
            GgufError::InvalidMagic => "Invalid GGUF magic".to_string(),
            GgufError::UnsupportedVersion(v) => {
                let mut m = "Unsupported GGUF version: ".to_string();
                m.append(decimal_string(*v as u64).as_str());
                m
            },
            GgufError::UnsupportedStreamVersion(v) => {
                let mut m = "Unsupported GGUF version: ".to_string();
                m.append(decimal_string(*v as u64).as_str());
                m.append(". Only v1, v2 and v3 supported.");
                m
            },
            GgufError::Truncated(part) => part.message().to_string(),
            GgufError::InvalidUtf8(flaw) => flaw_string(flaw),
            GgufError::UnknownValueType(id) => {
                let mut m = "Unknown value type: ".to_string();
                m.append(decimal_string(*id as u64).as_str());
                m
            },
            GgufError::UnknownArrayType => "Unknown array type".to_string(),
            GgufError::UnknownElementType => "Unknown array element type".to_string(),
            GgufError::UnsupportedArrayType => "Array type not fully supported".to_string(),
            GgufError::UnknownDataType(id) => {
                let mut m = "Unknown data type: ".to_string();
                m.append(decimal_string(*id as u64).as_str());
                m
            },
        }
    }
}

} // verus!
