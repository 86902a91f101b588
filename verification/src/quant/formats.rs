//! Quantization formats of weights and of the key-value cache.

use crate::quant::blocks::WeightCoding;
use crate::text::{all_ascii, ascii_lower, ascii_upper, str_eq, to_upper, upper_text};
use vstd::prelude::*;

verus! {

/// The bits of one in single precision.
pub const ONE_BITS: u32 = 0x3f80_0000;

/// Weight quantization formats.
#[allow(non_camel_case_types)]
#[derive(Debug, Clone, Copy, PartialEq, Eq, Hash, Structural)]
pub enum QuantFormat {
    Q2_K,
    Q3_K,
    Q4_0,
    Q4_1,
    Q4_K,
    Q5_0,
    Q5_1,
    Q5_K,
    Q6_K,
    Q8_0,
    Q8_K,
    MXFP4,
    FP16,
    FP32,
}

impl QuantFormat {
    pub open spec fn spec_name(self) -> Seq<char> {
        match self {
            QuantFormat::Q2_K => "Q2_K"@,
            QuantFormat::Q3_K => "Q3_K"@,
            QuantFormat::Q4_0 => "Q4_0"@,
            QuantFormat::Q4_1 => "Q4_1"@,
            QuantFormat::Q4_K => "Q4_K"@,
            QuantFormat::Q5_0 => "Q5_0"@,
            QuantFormat::Q5_1 => "Q5_1"@,
            QuantFormat::Q5_K => "Q5_K"@,
            QuantFormat::Q6_K => "Q6_K"@,
            QuantFormat::Q8_0 => "Q8_0"@,
            QuantFormat::Q8_K => "Q8_K"@,
            QuantFormat::MXFP4 => "MXFP4"@,
            QuantFormat::FP16 => "FP16"@,
            QuantFormat::FP32 => "FP32"@,
        }
    }

    pub fn name(&self) -> (r: &'static str)
        ensures
            r@ == self.spec_name(),
    {
        match self {
            QuantFormat::Q2_K => "Q2_K",
            QuantFormat::Q3_K => "Q3_K",
            QuantFormat::Q4_0 => "Q4_0",
            QuantFormat::Q4_1 => "Q4_1",
            QuantFormat::Q4_K => "Q4_K",
            QuantFormat::Q5_0 => "Q5_0",
            QuantFormat::Q5_1 => "Q5_1",
            QuantFormat::Q5_K => "Q5_K",
            QuantFormat::Q6_K => "Q6_K",
            QuantFormat::Q8_0 => "Q8_0",
            QuantFormat::Q8_K => "Q8_K",
            QuantFormat::MXFP4 => "MXFP4",
            QuantFormat::FP16 => "FP16",
            QuantFormat::FP32 => "FP32",
        }
    }

    pub open spec fn spec_bits(self) -> u32 {
        match self {
            QuantFormat::Q2_K => 2,
            QuantFormat::Q3_K => 3,
            QuantFormat::Q4_0 => 4,
            QuantFormat::Q4_1 => 4,
            QuantFormat::Q4_K => 4,
            QuantFormat::Q5_0 => 5,
            QuantFormat::Q5_1 => 5,
            QuantFormat::Q5_K => 5,
            QuantFormat::Q6_K => 6,
            QuantFormat::Q8_0 => 8,
            QuantFormat::Q8_K => 8,
            QuantFormat::MXFP4 => 4,
            QuantFormat::FP16 => 16,
            QuantFormat::FP32 => 32,
        }
    }

    /// Bits per weight.
    pub fn bits(&self) -> (r: u32)
        ensures
            r == self.spec_bits(),
    {
        match self {
            QuantFormat::Q2_K => 2,
            QuantFormat::Q3_K => 3,
            QuantFormat::Q4_0 => 4,
            QuantFormat::Q4_1 => 4,
            QuantFormat::Q4_K => 4,
            QuantFormat::Q5_0 => 5,
            QuantFormat::Q5_1 => 5,
            QuantFormat::Q5_K => 5,
            QuantFormat::Q6_K => 6,
            QuantFormat::Q8_0 => 8,
            QuantFormat::Q8_K => 8,
            QuantFormat::MXFP4 => 4,
            QuantFormat::FP16 => 16,
            QuantFormat::FP32 => 32,
        }
    }

    pub open spec fn spec_compression_ratio(self) -> u32 {
        match self {
            QuantFormat::Q2_K => 0x3e00_0000,
            QuantFormat::Q3_K => 0x3e40_0000,
            QuantFormat::Q4_0 => 0x3e80_0000,
            QuantFormat::Q4_1 => 0x3e80_0000,
            QuantFormat::Q4_K => 0x3e80_0000,
            QuantFormat::Q5_0 => 0x3ea0_0000,
            QuantFormat::Q5_1 => 0x3ea0_0000,
            QuantFormat::Q5_K => 0x3ea0_0000,
            QuantFormat::Q6_K => 0x3ec0_0000,
            QuantFormat::Q8_0 => 0x3f00_0000,
            QuantFormat::Q8_K => 0x3f00_0000,
            QuantFormat::MXFP4 => 0x3e80_0000,
            QuantFormat::FP16 => 0x3f00_0000,
            QuantFormat::FP32 => ONE_BITS,
        }
    }

    /// The bits of the nominal size relative to 32-bit weights, in single precision.
    pub fn compression_ratio(&self) -> (r: u32)
        ensures
            r == self.spec_compression_ratio(),
    {
        match self {
            QuantFormat::Q2_K => 0x3e00_0000,
            QuantFormat::Q3_K => 0x3e40_0000,
            QuantFormat::Q4_0 => 0x3e80_0000,
            QuantFormat::Q4_1 => 0x3e80_0000,
            QuantFormat::Q4_K => 0x3e80_0000,
            QuantFormat::Q5_0 => 0x3ea0_0000,
            QuantFormat::Q5_1 => 0x3ea0_0000,
            QuantFormat::Q5_K => 0x3ea0_0000,
            QuantFormat::Q6_K => 0x3ec0_0000,
            QuantFormat::Q8_0 => 0x3f00_0000,
            QuantFormat::Q8_K => 0x3f00_0000,
            QuantFormat::MXFP4 => 0x3e80_0000,
            QuantFormat::FP16 => 0x3f00_0000,
            QuantFormat::FP32 => ONE_BITS,
        }
    }

    /// The format with a name in upper case.
    pub open spec fn named(s: Seq<char>) -> Option<QuantFormat> {
        if s == "Q2_K"@ {
            Some(QuantFormat::Q2_K)
        } else if s == "Q3_K"@ {
            Some(QuantFormat::Q3_K)
        } else if s == "Q4_0"@ {
            Some(QuantFormat::Q4_0)
        } else if s == "Q4_1"@ {
            Some(QuantFormat::Q4_1)
        } else if s == "Q4_K"@ {
            Some(QuantFormat::Q4_K)
        } else if s == "Q5_0"@ {
            Some(QuantFormat::Q5_0)
        } else if s == "Q5_1"@ {
            Some(QuantFormat::Q5_1)
        } else if s == "Q5_K"@ {
            Some(QuantFormat::Q5_K)
        } else if s == "Q6_K"@ {
            Some(QuantFormat::Q6_K)
        } else if s == "Q8_0"@ {
            Some(QuantFormat::Q8_0)
        } else if s == "Q8_K"@ {
            Some(QuantFormat::Q8_K)
        } else if s == "MXFP4"@ || s == "MXFP4_4X4"@ {
            Some(QuantFormat::MXFP4)
        } else if s == "FP16"@ {
            Some(QuantFormat::FP16)
        } else if s == "FP32"@ {
            Some(QuantFormat::FP32)
        } else {
            None
        }
    }

    /// The format with a name in upper case.
    pub fn from_name(s: &str) -> (r: Option<QuantFormat>)
        ensures
            r == QuantFormat::named(s@),
    {
        if str_eq(s, "Q2_K") {
            Some(QuantFormat::Q2_K)
        } else if str_eq(s, "Q3_K") {
            Some(QuantFormat::Q3_K)
        } else if str_eq(s, "Q4_0") {
            Some(QuantFormat::Q4_0)
        } else if str_eq(s, "Q4_1") {
            Some(QuantFormat::Q4_1)
        } else if str_eq(s, "Q4_K") {
            Some(QuantFormat::Q4_K)
        } else if str_eq(s, "Q5_0") {
            Some(QuantFormat::Q5_0)
        } else if str_eq(s, "Q5_1") {
            Some(QuantFormat::Q5_1)
        } else if str_eq(s, "Q5_K") {
            Some(QuantFormat::Q5_K)
        } else if str_eq(s, "Q6_K") {
            Some(QuantFormat::Q6_K)
        } else if str_eq(s, "Q8_0") {
            Some(QuantFormat::Q8_0)
        } else if str_eq(s, "Q8_K") {
            Some(QuantFormat::Q8_K)
        } else if str_eq(s, "MXFP4") || str_eq(s, "MXFP4_4X4") {
            Some(QuantFormat::MXFP4)
        } else if str_eq(s, "FP16") {
            Some(QuantFormat::FP16)
        } else if str_eq(s, "FP32") {
            Some(QuantFormat::FP32)
        } else {
            None
        }
    }

    /// The format with a name in any case.
    pub fn from_str(s: &str) -> (r: Option<QuantFormat>)
        ensures
            r == QuantFormat::named(upper_text(s@)),
    {
        Self::from_name(to_upper(s).as_str())
    }

    /// How weights of the format are laid out in bytes. Formats without a layout of
    /// their own share that of a format of the same width.
    pub open spec fn spec_coding(self) -> WeightCoding {
        match self {
            QuantFormat::FP32 => WeightCoding::F32,
            QuantFormat::FP16 => WeightCoding::F16,
            QuantFormat::Q8_0 | QuantFormat::Q8_K => WeightCoding::Q8_0,
            QuantFormat::Q4_0 | QuantFormat::Q4_1 | QuantFormat::MXFP4 => WeightCoding::Q4_0,
            QuantFormat::Q4_K => WeightCoding::Q4_K,
            QuantFormat::Q2_K => WeightCoding::Q2_K,
            QuantFormat::Q3_K => WeightCoding::Affine3,
            QuantFormat::Q5_0 | QuantFormat::Q5_1 | QuantFormat::Q5_K => WeightCoding::Affine5,
            QuantFormat::Q6_K => WeightCoding::Affine6,
        }
    }

    pub fn coding(&self) -> (r: WeightCoding)
        ensures
            r == self.spec_coding(),
    {
        match self {
            QuantFormat::FP32 => WeightCoding::F32,
            QuantFormat::FP16 => WeightCoding::F16,
            QuantFormat::Q8_0 | QuantFormat::Q8_K => WeightCoding::Q8_0,
            QuantFormat::Q4_0 | QuantFormat::Q4_1 | QuantFormat::MXFP4 => WeightCoding::Q4_0,
            QuantFormat::Q4_K => WeightCoding::Q4_K,
            QuantFormat::Q2_K => WeightCoding::Q2_K,
            QuantFormat::Q3_K => WeightCoding::Affine3,
            QuantFormat::Q5_0 | QuantFormat::Q5_1 | QuantFormat::Q5_K => WeightCoding::Affine5,
            QuantFormat::Q6_K => WeightCoding::Affine6,
        }
    }
}

/// A weight format is found again by its name.
pub proof fn quant_format_name_round_trip(f: QuantFormat)
    ensures
        QuantFormat::named(f.spec_name()) == Some(f),
{
    reveal_strlit("Q2_K");
    reveal_strlit("Q3_K");
    reveal_strlit("Q4_0");
    reveal_strlit("Q4_1");
    reveal_strlit("Q4_K");
    reveal_strlit("Q5_0");
    reveal_strlit("Q5_1");
    reveal_strlit("Q5_K");
    reveal_strlit("Q6_K");
    reveal_strlit("Q8_0");
    reveal_strlit("Q8_K");
    reveal_strlit("MXFP4");
    reveal_strlit("MXFP4_4X4");
    reveal_strlit("FP16");
    reveal_strlit("FP32");
    assert(f.spec_name().len() <= 5 < "MXFP4_4X4"@.len());
    lemma_format_names(f);
    assert(QuantFormat::Q2_K.spec_name() == "Q2_K"@);
    assert(QuantFormat::Q3_K.spec_name() == "Q3_K"@);
    assert(QuantFormat::Q4_0.spec_name() == "Q4_0"@);
    assert(QuantFormat::Q4_1.spec_name() == "Q4_1"@);
    assert(QuantFormat::Q4_K.spec_name() == "Q4_K"@);
    assert(QuantFormat::Q5_0.spec_name() == "Q5_0"@);
    assert(QuantFormat::Q5_1.spec_name() == "Q5_1"@);
    assert(QuantFormat::Q5_K.spec_name() == "Q5_K"@);
    assert(QuantFormat::Q6_K.spec_name() == "Q6_K"@);
    assert(QuantFormat::Q8_0.spec_name() == "Q8_0"@);
    assert(QuantFormat::Q8_K.spec_name() == "Q8_K"@);
    assert(QuantFormat::MXFP4.spec_name() == "MXFP4"@);
    assert(QuantFormat::FP16.spec_name() == "FP16"@);
    assert(QuantFormat::FP32.spec_name() == "FP32"@);
}

proof fn lemma_format_names(f: QuantFormat)
    ensures
        forall|g: QuantFormat| g != f ==> #[trigger] g.spec_name() != f.spec_name(),
{
    reveal_strlit("Q2_K");
    reveal_strlit("Q3_K");
    reveal_strlit("Q4_0");
    reveal_strlit("Q4_1");
    reveal_strlit("Q4_K");
    reveal_strlit("Q5_0");
    reveal_strlit("Q5_1");
    reveal_strlit("Q5_K");
    reveal_strlit("Q6_K");
    reveal_strlit("Q8_0");
    reveal_strlit("Q8_K");
    reveal_strlit("MXFP4");
    reveal_strlit("MXFP4_4X4");
    reveal_strlit("FP16");
    reveal_strlit("FP32");
    assert forall|g: QuantFormat| g != f implies #[trigger] g.spec_name() != f.spec_name() by {
        let (a, b) = (g.spec_name(), f.spec_name());
        if a.len() == b.len() && a.len() == 4 {
            assert(a[0] != b[0] || a[1] != b[1] || a[2] != b[2] || a[3] != b[3]);
        }
    }
}

/// A weight format is found again by its name, also where that is in small letters.
pub proof fn quant_format_any_case(f: QuantFormat)
    ensures
        QuantFormat::named(upper_text(f.spec_name())) == Some(f),
        QuantFormat::named(upper_text(ascii_lower(f.spec_name()))) == Some(f),
{
    reveal_strlit("Q2_K");
    reveal_strlit("Q3_K");
    reveal_strlit("Q4_0");
    reveal_strlit("Q4_1");
    reveal_strlit("Q4_K");
    reveal_strlit("Q5_0");
    reveal_strlit("Q5_1");
    reveal_strlit("Q5_K");
    reveal_strlit("Q6_K");
    reveal_strlit("Q8_0");
    reveal_strlit("Q8_K");
    reveal_strlit("MXFP4");
    reveal_strlit("FP16");
    reveal_strlit("FP32");
    let n = f.spec_name();
    assert(all_ascii(n));
    assert(ascii_upper(n) =~= n);
    assert(all_ascii(ascii_lower(n)));
    assert(ascii_upper(ascii_lower(n)) =~= n);
    quant_format_name_round_trip(f);
}

/// Quantization of the key-value cache.
#[derive(Debug, Clone, Copy, PartialEq, Eq, Hash, Structural)]
pub enum KvQuantType {
    /// Kept in half precision.
    Unquantized,
    /// Three bits for keys, two for values.
    TurboQuant3b2b,
    /// Three bits for keys, four for values.
    TurboQuant3b4b,
    /// Four bits for keys, four for values.
    TurboQuant4b4b,
    /// Blocks of four bits.
    BlockQ4,
    /// Blocks of six bits.
    BlockQ6,
}

impl KvQuantType {
    pub open spec fn spec_name(self) -> Seq<char> {
        match self {
            KvQuantType::Unquantized => "none"@,
            KvQuantType::TurboQuant3b2b => "tq_3b2b"@,
            KvQuantType::TurboQuant3b4b => "tq_3b4b"@,
            KvQuantType::TurboQuant4b4b => "tq_4b4b"@,
            KvQuantType::BlockQ4 => "block_q4"@,
            KvQuantType::BlockQ6 => "block_q6"@,
        }
    }

    pub fn name(&self) -> (r: &'static str)
        ensures
            r@ == self.spec_name(),
    {
        match self {
            KvQuantType::Unquantized => "none",
            KvQuantType::TurboQuant3b2b => "tq_3b2b",
            KvQuantType::TurboQuant3b4b => "tq_3b4b",
            KvQuantType::TurboQuant4b4b => "tq_4b4b",
            KvQuantType::BlockQ4 => "block_q4",
            KvQuantType::BlockQ6 => "block_q6",
        }
    }

    pub open spec fn spec_key_bits(self) -> u32 {
        match self {
            KvQuantType::Unquantized => 16,
            KvQuantType::TurboQuant3b2b => 3,
            KvQuantType::TurboQuant3b4b => 3,
            KvQuantType::TurboQuant4b4b => 4,
            KvQuantType::BlockQ4 => 4,
            KvQuantType::BlockQ6 => 6,
        }
    }

    /// Bits per element of a key.
    pub fn key_bits(&self) -> (r: u32)
        ensures
            r == self.spec_key_bits(),
    {
        match self {
            KvQuantType::Unquantized => 16,
            KvQuantType::TurboQuant3b2b => 3,
            KvQuantType::TurboQuant3b4b => 3,
            KvQuantType::TurboQuant4b4b => 4,
            KvQuantType::BlockQ4 => 4,
            KvQuantType::BlockQ6 => 6,
        }
    }

    pub open spec fn spec_val_bits(self) -> u32 {
        match self {
            KvQuantType::Unquantized => 16,
            KvQuantType::TurboQuant3b2b => 2,
            KvQuantType::TurboQuant3b4b => 4,
            KvQuantType::TurboQuant4b4b => 4,
            KvQuantType::BlockQ4 => 4,
            KvQuantType::BlockQ6 => 6,
        }
    }

    /// Bits per element of a value.
    pub fn val_bits(&self) -> (r: u32)
        ensures
            r == self.spec_val_bits(),
    {
        match self {
            KvQuantType::Unquantized => 16,
            KvQuantType::TurboQuant3b2b => 2,
            KvQuantType::TurboQuant3b4b => 4,
            KvQuantType::TurboQuant4b4b => 4,
            KvQuantType::BlockQ4 => 4,
            KvQuantType::BlockQ6 => 6,
        }
    }

    /// Bits per element of a key and a value together; sixteen where neither is
    /// quantized.
    pub fn bits(&self) -> (r: u32)
        ensures
            r == if *self == KvQuantType::Unquantized {
                16
            } else {
                self.spec_key_bits() + self.spec_val_bits()
            },
    {
        match self {
            KvQuantType::Unquantized => 16,
            _ => self.key_bits() + self.val_bits(),
        }
    }

    pub open spec fn spec_compression_ratio(self) -> u32 {
        match self {
            KvQuantType::Unquantized => ONE_BITS,
            KvQuantType::TurboQuant3b2b => 0x408d_1eb8,
            KvQuantType::TurboQuant3b4b => 0x4030_0000,
            KvQuantType::TurboQuant4b4b => 0x4000_0000,
            KvQuantType::BlockQ4 => 0x4080_0000,
            KvQuantType::BlockQ6 => 0x402a_e148,
        }
    }

    /// The bits of the compression relative to half precision, in single precision.
    pub fn compression_ratio(&self) -> (r: u32)
        ensures
            r == self.spec_compression_ratio(),
    {
        match self {
            KvQuantType::Unquantized => ONE_BITS,
            KvQuantType::TurboQuant3b2b => 0x408d_1eb8,
            KvQuantType::TurboQuant3b4b => 0x4030_0000,
            KvQuantType::TurboQuant4b4b => 0x4000_0000,
            KvQuantType::BlockQ4 => 0x4080_0000,
            KvQuantType::BlockQ6 => 0x402a_e148,
        }
    }

    /// The type with a name.
    pub open spec fn named(s: Seq<char>) -> Option<KvQuantType> {
        if s == "none"@ || s == "bf16"@ || s == "fp16"@ {
            Some(KvQuantType::Unquantized)
        } else if s == "tq_3b2b"@ || s == "turboquant_3b2b"@ {
            Some(KvQuantType::TurboQuant3b2b)
        } else if s == "tq_3b4b"@ || s == "turboquant_3b4b"@ {
            Some(KvQuantType::TurboQuant3b4b)
        } else if s == "tq_4b4b"@ || s == "turboquant_4b4b"@ {
            Some(KvQuantType::TurboQuant4b4b)
        } else if s == "block_q4"@ {
            Some(KvQuantType::BlockQ4)
        } else if s == "block_q6"@ {
            Some(KvQuantType::BlockQ6)
        } else {
            None
        }
    }

    /// The type with a name.
    pub fn from_str(s: &str) -> (r: Option<KvQuantType>)
        ensures
            r == KvQuantType::named(s@),
    {
        if str_eq(s, "none") || str_eq(s, "bf16") || str_eq(s, "fp16") {
            Some(KvQuantType::Unquantized)
        } else if str_eq(s, "tq_3b2b") || str_eq(s, "turboquant_3b2b") {
            Some(KvQuantType::TurboQuant3b2b)
        } else if str_eq(s, "tq_3b4b") || str_eq(s, "turboquant_3b4b") {
            Some(KvQuantType::TurboQuant3b4b)
        } else if str_eq(s, "tq_4b4b") || str_eq(s, "turboquant_4b4b") {
            Some(KvQuantType::TurboQuant4b4b)
        } else if str_eq(s, "block_q4") {
            Some(KvQuantType::BlockQ4)
        } else if str_eq(s, "block_q6") {
            Some(KvQuantType::BlockQ6)
        } else {
            None
        }
    }
}

/// A cache quantization is found again by its name.
pub proof fn kv_quant_name_round_trip(t: KvQuantType)
    ensures
        KvQuantType::named(t.spec_name()) == Some(t),
{
    reveal_strlit("none");
    reveal_strlit("bf16");
    reveal_strlit("fp16");
    reveal_strlit("tq_3b2b");
    reveal_strlit("turboquant_3b2b");
    reveal_strlit("tq_3b4b");
    reveal_strlit("turboquant_3b4b");
    reveal_strlit("tq_4b4b");
    reveal_strlit("turboquant_4b4b");
    reveal_strlit("block_q4");
    reveal_strlit("block_q6");
    let s = t.spec_name();
    assert(s.len() == 7 && t != KvQuantType::TurboQuant3b2b ==> s[3] != "tq_3b2b"@[3] || s[5]
        != "tq_3b2b"@[5]);
    assert(s.len() == 7 && t != KvQuantType::TurboQuant3b4b ==> s[3] != "tq_3b4b"@[3] || s[5]
        != "tq_3b4b"@[5]);
    assert(s.len() == 8 && t != KvQuantType::BlockQ4 ==> s[7] != "block_q4"@[7]);
}

/// How many elements share quantization parameters.
#[derive(Debug, Clone, Copy, PartialEq, Eq, Structural)]
pub enum GroupSize {
    N32,
    N64,
    N128,
    N256,
}

impl GroupSize {
    pub open spec fn spec_value(self) -> usize {
        match self {
            GroupSize::N32 => 32,
            GroupSize::N64 => 64,
            GroupSize::N128 => 128,
            GroupSize::N256 => 256,
        }
    }

    /// The number of elements.
    pub fn value(&self) -> (r: usize)
        ensures
            r == self.spec_value(),
    {
        match self {
            GroupSize::N32 => 32,
            GroupSize::N64 => 64,
            GroupSize::N128 => 128,
            GroupSize::N256 => 256,
        }
    }

    /// The group size with a decimal notation.
    pub open spec fn named(s: Seq<char>) -> Option<GroupSize> {
        if s == "32"@ {
            Some(GroupSize::N32)
        } else if s == "64"@ {
            Some(GroupSize::N64)
        } else if s == "128"@ {
            Some(GroupSize::N128)
        } else if s == "256"@ {
            Some(GroupSize::N256)
        } else {
            None
        }
    }

    /// The group size with a decimal notation.
    pub fn from_str(s: &str) -> (r: Option<GroupSize>)
        ensures
            r == GroupSize::named(s@),
    {
        if str_eq(s, "32") {
            Some(GroupSize::N32)
        } else if str_eq(s, "64") {
            Some(GroupSize::N64)
        } else if str_eq(s, "128") {
            Some(GroupSize::N128)
        } else if str_eq(s, "256") {
            Some(GroupSize::N256)
        } else {
            None
        }
    }
}

} // verus!
