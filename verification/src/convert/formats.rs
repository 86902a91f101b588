//! The quantizations that a model can be converted to.

use crate::gguf::payload::coding_of;
use crate::gguf::types::{data_type_with, GgufDataType};
use crate::quant::formats::QuantFormat as NexusQuantFormat;
use vstd::prelude::*;

verus! {

/// A quantization that a model can be converted to.
#[allow(non_camel_case_types)]
#[derive(Debug, Clone, Copy, PartialEq, Eq, Structural)]
pub enum QuantFormat {
    F32,
    F16,
    Q8_0,
    Q4_K,
    Q4_0,
    Q2_K,
}

impl QuantFormat {
    pub open spec fn spec_quant(self) -> NexusQuantFormat {
        match self {
            QuantFormat::F32 => NexusQuantFormat::FP32,
            QuantFormat::F16 => NexusQuantFormat::FP16,
            QuantFormat::Q8_0 => NexusQuantFormat::Q8_0,
            QuantFormat::Q4_0 => NexusQuantFormat::Q4_0,
            QuantFormat::Q4_K => NexusQuantFormat::Q4_K,
            QuantFormat::Q2_K => NexusQuantFormat::Q2_K,
        }
    }

    /// The format of the weights.
    pub fn to_nexus_quant(self) -> (r: NexusQuantFormat)
        ensures
            r == self.spec_quant(),
    {
        match self {
            QuantFormat::F32 => NexusQuantFormat::FP32,
            QuantFormat::F16 => NexusQuantFormat::FP16,
            QuantFormat::Q8_0 => NexusQuantFormat::Q8_0,
            QuantFormat::Q4_0 => NexusQuantFormat::Q4_0,
            QuantFormat::Q4_K => NexusQuantFormat::Q4_K,
            QuantFormat::Q2_K => NexusQuantFormat::Q2_K,
        }
    }

    pub open spec fn spec_type(self) -> u32 {
        match self {
            QuantFormat::F32 => 0,
            QuantFormat::F16 => 1,
            QuantFormat::Q4_0 => 2,
            QuantFormat::Q8_0 => 8,
            QuantFormat::Q2_K => 10,
            QuantFormat::Q4_K => 12,
        }
    }

    /// The number of the type in a GGUF file.
    pub fn gguf_type(self) -> (r: u32)
        ensures
            r == self.spec_type(),
    {
        match self {
            QuantFormat::F32 => 0,
            QuantFormat::F16 => 1,
            QuantFormat::Q4_0 => 2,
            QuantFormat::Q8_0 => 8,
            QuantFormat::Q2_K => 10,
            QuantFormat::Q4_K => 12,
        }
    }
}

/// Weights that were quantized for a file are decoded from it as they were laid out:
/// the number that the file gives for their type is known, and stands for the layout
/// of the format.
pub proof fn converted_weights_decode_alike(f: QuantFormat)
    ensures
        data_type_with(f.spec_type()) matches Some(t) && coding_of(t) == Some(
            f.spec_quant().spec_coding(),
        ),
{
    let t = match f {
        QuantFormat::F32 => GgufDataType::F32,
        QuantFormat::F16 => GgufDataType::F16,
        QuantFormat::Q4_0 => GgufDataType::Q4_0,
        QuantFormat::Q8_0 => GgufDataType::Q8_0,
        QuantFormat::Q2_K => GgufDataType::Q2_K,
        QuantFormat::Q4_K => GgufDataType::Q4_K,
    };
    assert(t.spec_id() == f.spec_type());
    crate::gguf::types::data_type_id_round_trip(t);
}

} // verus!
