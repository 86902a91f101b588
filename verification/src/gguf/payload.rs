//! Decoding tensor payloads.

use crate::gguf::error::ErrorClass;
use crate::gguf::reader::GgufReader;
use crate::gguf::types::{div_ceil, GgufDataType};
use crate::quant::blocks::{decode_weights, decoded, decoded_len, WeightCoding, WeightTerm};
use vstd::prelude::*;

verus! {

/// Why a tensor payload is not decoded.
#[derive(Debug, Clone, Copy, PartialEq, Eq, Structural)]
pub enum PayloadError {
    /// The payload has fewer bytes than the tensor needs.
    Truncated(GgufDataType),
    /// The type cannot be decoded.
    Unsupported(GgufDataType),
}

impl PayloadError {
    pub open spec fn spec_message(self) -> Seq<char> {
        match self {
            PayloadError::Truncated(t) => t.spec_name() + " tensor payload is truncated"@,
            PayloadError::Unsupported(t) => "Dequantization for "@ + t.spec_name()
                + " is not implemented"@,
        }
    }

    pub fn class(&self) -> (r: ErrorClass)
        ensures
            r == match *self {
                PayloadError::Truncated(_) => ErrorClass::UnexpectedEof,
                PayloadError::Unsupported(_) => ErrorClass::Unsupported,
            },
    {
        match self {
            PayloadError::Truncated(_) => ErrorClass::UnexpectedEof,
            PayloadError::Unsupported(_) => ErrorClass::Unsupported,
        }
    }

    /// The failure in words.
    pub fn message(&self) -> (r: String)
        ensures
            r@ == self.spec_message(),
    {
        match self {
            PayloadError::Truncated(t) => {
                let mut m = t.name().to_string();
                m.append(" tensor payload is truncated");
                m
            },
            PayloadError::Unsupported(t) => {
                let mut m = "Dequantization for ".to_string();
                m.append(t.name());
                m.append(" is not implemented");
                m
            },
        }
    }
}

/// The coding of a data type, where it can be decoded.
pub open spec fn coding_of(t: GgufDataType) -> Option<WeightCoding> {
    match t {
        GgufDataType::F32 => Some(WeightCoding::F32),
        GgufDataType::F16 => Some(WeightCoding::F16),
        GgufDataType::BF16 => Some(WeightCoding::BF16),
        GgufDataType::Q8_0 => Some(WeightCoding::Q8_0),
        GgufDataType::Q4_0 => Some(WeightCoding::Q4_0),
        GgufDataType::Q4_K => Some(WeightCoding::Q4_K),
        GgufDataType::Q2_K => Some(WeightCoding::Q2_K),
        _ => None,
    }
}

fn find_coding(t: GgufDataType) -> (r: Option<WeightCoding>)
    ensures
        r == coding_of(t),
        r matches Some(c) ==> c.spec_len() == t.spec_layout().0 && c.spec_size()
            == t.spec_layout().1,
{
    match t {
        GgufDataType::F32 => Some(WeightCoding::F32),
        GgufDataType::F16 => Some(WeightCoding::F16),
        GgufDataType::BF16 => Some(WeightCoding::BF16),
        GgufDataType::Q8_0 => Some(WeightCoding::Q8_0),
        GgufDataType::Q4_0 => Some(WeightCoding::Q4_0),
        GgufDataType::Q4_K => Some(WeightCoding::Q4_K),
        GgufDataType::Q2_K => Some(WeightCoding::Q2_K),
        _ => None,
    }
}

/// A payload of the size that a tensor's type asks for decodes to as many weights
/// as the tensor has.
pub proof fn full_payload_decodes(t: GgufDataType, bytes: int, wanted: int)
    requires
        coding_of(t) is Some,
        wanted > 0,
        bytes >= t.spec_bytes(wanted as nat),
    ensures
        decoded_len(coding_of(t)->0, bytes, wanted) == wanted,
{
    let c = coding_of(t)->0;
    let (len, size) = (c.spec_len(), c.spec_size());
    let blocks = div_ceil(wanted as nat, len as nat) as int;
    vstd::arithmetic::div_mod::lemma_fundamental_div_mod(wanted + len - 1, len);
    vstd::arithmetic::div_mod::lemma_mod_bound(wanted + len - 1, len);
    vstd::arithmetic::div_mod::lemma_fundamental_div_mod(bytes, size);
    vstd::arithmetic::div_mod::lemma_mod_bound(bytes, size);
    let held = bytes / size;
    assert(held >= blocks) by (nonlinear_arith)
        requires
            bytes == size * held + bytes % size,
            bytes % size < size,
            bytes >= blocks * size,
            size > 0,
    ;
    assert(held * len >= wanted) by (nonlinear_arith)
        requires
            held >= blocks,
            wanted + len - 1 == len * blocks + (wanted + len - 1) % len,
            (wanted + len - 1) % len < len,
            len > 0,
    ;
}

impl GgufReader {
    /// Decodes a tensor payload to the terms of its weights.
    pub fn tensor_bytes_to_f32(data_type: GgufDataType, output_len: usize, data: &[u8]) -> (r:
        Result<Vec<WeightTerm>, PayloadError>)
        requires
            coding_of(data_type) matches Some(c) ==> {
                &&& data_type.spec_bytes(output_len as nat) <= usize::MAX
                &&& decoded_len(c, data@.len() as int, output_len as int) <= usize::MAX
            },
        ensures
            match coding_of(data_type) {
                None => r == Err::<Vec<WeightTerm>, PayloadError>(
                    PayloadError::Unsupported(data_type),
                ),
                Some(c) => if data@.len() < data_type.spec_bytes(output_len as nat) {
                    r == Err::<Vec<WeightTerm>, PayloadError>(PayloadError::Truncated(data_type))
                } else {
                    &&& r is Ok
                    &&& r->Ok_0@ == decoded(c, data@, output_len as int)
                    &&& output_len > 0 ==> r->Ok_0@.len() == output_len
                },
            },
    {
        match find_coding(data_type) {
            None => Err(PayloadError::Unsupported(data_type)),
            Some(c) => {
                if data.len() < data_type.bytes_per_element(output_len) {
                    return Err(PayloadError::Truncated(data_type));
                }
                proof {
                    if output_len > 0 {
                        full_payload_decodes(data_type, data@.len() as int, output_len as int);
                    }
                }
                Ok(decode_weights(c, data, output_len))
            },
        }
    }
}

} // verus!
