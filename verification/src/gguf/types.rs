//! Type tags of the GGUF file format.

use crate::bytes::{put_u32, put_u64, u32_at, u32_bytes, u64_at, u64_bytes, ByteReader};
use crate::gguf::error::GgufError;
use vstd::prelude::*;

verus! {

/// The four bytes `GGUF` as a little-endian integer.
pub const GGUF_MAGIC: u32 = 0x46554747;

pub const GGUF_VERSION_1: u32 = 1;

pub const GGUF_VERSION_2: u32 = 2;

pub const GGUF_VERSION_3: u32 = 3;

/// The version is one of those that are read. All are read in one layout, with 64-bit
/// counts and lengths.
pub open spec fn is_version(version: u32) -> bool {
    version == GGUF_VERSION_1 || version == GGUF_VERSION_2 || version == GGUF_VERSION_3
}

/// Whether a version is one of those that are read.
pub fn version_is_read(version: u32) -> (r: bool)
    ensures
        r == is_version(version),
{
    version == GGUF_VERSION_1 || version == GGUF_VERSION_2 || version == GGUF_VERSION_3
}

/// Byte order of the integers in a file.
#[derive(Debug, Clone, Copy, PartialEq, Eq, Structural)]
pub enum GgufByteOrder {
    LittleEndian,
}

/// What taking `n` bytes off a reader does: the outcome is decided by whether
/// that many are left, and a failed read uses up what was left.
pub open spec fn took(before: ByteReader, after: ByteReader, n: int, ok: bool) -> bool {
    &&& after.wf()
    &&& after.bytes == before.bytes
    &&& ok <==> n <= before.rest().len()
    &&& ok ==> after.rest() == before.rest().skip(n)
    &&& !ok ==> after.rest() == Seq::<u8>::empty()
}

impl GgufByteOrder {
    /// Takes four bytes off the reader and checks that they are the magic.
    pub fn validate(&self, reader: &mut ByteReader) -> (r: Result<(), GgufError>)
        requires
            old(reader).wf(),
        ensures
            took(*old(reader), *final(reader), 4, r != Err::<(), _>(GgufError::ShortRead)),
            r is Ok <==> old(reader).rest().len() >= 4 && u32_at(old(reader).rest(), 0)
                == GGUF_MAGIC,
            r matches Err(e) ==> e == if old(reader).rest().len() < 4 {
                GgufError::ShortRead
            } else {
                GgufError::BadMagic(u32_at(old(reader).rest(), 0))
            },
    {
        match self.read_u32(reader) {
            Ok(magic) => if magic == GGUF_MAGIC {
                Ok(())
            } else {
                Err(GgufError::BadMagic(magic))
            },
            Err(e) => Err(e),
        }
    }

    /// Takes a 32-bit integer off the reader.
    pub fn read_u32(&self, reader: &mut ByteReader) -> (r: Result<u32, GgufError>)
        requires
            old(reader).wf(),
        ensures
            took(*old(reader), *final(reader), 4, r is Ok),
            r matches Ok(v) ==> v == u32_at(old(reader).rest(), 0),
            r matches Err(e) ==> e == GgufError::ShortRead,
    {
        match reader.take(4) {
            Ok(b) => Ok(crate::bytes::get_u32(b.as_slice(), 0)),
            Err(_) => Err(GgufError::ShortRead),
        }
    }

    /// Takes a 64-bit integer off the reader.
    pub fn read_u64(&self, reader: &mut ByteReader) -> (r: Result<u64, GgufError>)
        requires
            old(reader).wf(),
        ensures
            took(*old(reader), *final(reader), 8, r is Ok),
            r matches Ok(v) ==> v == u64_at(old(reader).rest(), 0),
            r matches Err(e) ==> e == GgufError::ShortRead,
    {
        match reader.take(8) {
            Ok(b) => Ok(crate::bytes::get_u64(b.as_slice(), 0)),
            Err(_) => Err(GgufError::ShortRead),
        }
    }

    /// Appends a 32-bit integer.
    pub fn write_u32(&self, writer: &mut Vec<u8>, val: u32)
        ensures
            final(writer)@ == old(writer)@ + u32_bytes(val),
    {
        put_u32(writer, val);
    }

    /// Appends a 64-bit integer.
    pub fn write_u64(&self, writer: &mut Vec<u8>, val: u64)
        ensures
            final(writer)@ == old(writer)@ + u64_bytes(val),
    {
        put_u64(writer, val);
    }
}

/// Element types of tensors.
#[allow(non_camel_case_types)]
#[derive(Debug, Clone, Copy, PartialEq, Eq, Structural)]
pub enum GgufDataType {
    F32,
    F16,
    Q4_0,
    Q4_1,
    Q5_0,
    Q5_1,
    Q8_0,
    Q8_1,
    I8,
    I16,
    I32,
    I64,
    F64,
    Q2_K,
    Q3_K,
    Q4_K,
    Q5_K,
    Q6_K,
    Q8_K,
    IQ2_XXS,
    IQ2_XS,
    Q2_S,
    IQ1_S,
    IQ1_N,
    IQ4_NL,
    IQ4_XS,
    IQ3_XXS,
    IQ3_S,
    IQ2_S,
    Q9_K,
    I8x4,
    I8x8,
    F4E2M1,
    F4E2M1x2,
    F8E4M3,
    F8E4M3x2,
    F8E5M2,
    F8E5M2x2,
    BF16,
    Q4_0_4x4,
    Q4_0_8x8,
    TF32,
}

/// Division rounded up.
pub open spec fn div_ceil(n: nat, d: nat) -> nat
    recommends
        d > 0,
{
    ((n + d - 1) / d as int) as nat
}

impl GgufDataType {
    /// The number that stands for the type in a file: that of llama.cpp's `ggml_type`. A
    /// type that is not there has a number that no other type here has.
    pub open spec fn spec_id(self) -> u32 {
        match self {
            GgufDataType::F32 => 0,
            GgufDataType::F16 => 1,
            GgufDataType::Q4_0 => 2,
            GgufDataType::Q4_1 => 3,
            GgufDataType::Q5_0 => 6,
            GgufDataType::Q5_1 => 7,
            GgufDataType::Q8_0 => 8,
            GgufDataType::Q8_1 => 9,
            GgufDataType::I8 => 24,
            GgufDataType::I16 => 25,
            GgufDataType::I32 => 26,
            GgufDataType::I64 => 27,
            GgufDataType::F64 => 28,
            GgufDataType::Q2_K => 10,
            GgufDataType::Q3_K => 11,
            GgufDataType::Q4_K => 12,
            GgufDataType::Q5_K => 13,
            GgufDataType::Q6_K => 14,
            GgufDataType::Q8_K => 15,
            GgufDataType::IQ2_XXS => 16,
            GgufDataType::IQ2_XS => 17,
            GgufDataType::Q2_S => 36,
            GgufDataType::IQ1_S => 19,
            GgufDataType::IQ1_N => 29,
            GgufDataType::IQ4_NL => 20,
            GgufDataType::IQ4_XS => 23,
            GgufDataType::IQ3_XXS => 18,
            GgufDataType::IQ3_S => 21,
            GgufDataType::IQ2_S => 22,
            GgufDataType::Q9_K => 38,
            GgufDataType::I8x4 => 39,
            GgufDataType::I8x8 => 40,
            GgufDataType::F4E2M1 => 41,
            GgufDataType::F4E2M1x2 => 42,
            GgufDataType::F8E4M3 => 43,
            GgufDataType::F8E4M3x2 => 44,
            GgufDataType::F8E5M2 => 45,
            GgufDataType::F8E5M2x2 => 46,
            GgufDataType::BF16 => 30,
            GgufDataType::Q4_0_4x4 => 31,
            GgufDataType::Q4_0_8x8 => 33,
            GgufDataType::TF32 => 47,
        }
    }

    /// How many elements share a block, and how many bytes a block takes.
    pub open spec fn spec_layout(self) -> (nat, nat) {
        match self {
            GgufDataType::F32
            | GgufDataType::I32
            | GgufDataType::TF32 => (1, 4),
            GgufDataType::F16
            | GgufDataType::I16
            | GgufDataType::BF16 => (1, 2),
            GgufDataType::Q4_0
            | GgufDataType::Q4_0_4x4
            | GgufDataType::Q4_0_8x8 => (32, 18),
            GgufDataType::Q4_1 => (32, 20),
            GgufDataType::Q5_0 => (32, 22),
            GgufDataType::Q5_1 => (32, 24),
            GgufDataType::Q8_0 => (32, 34),
            GgufDataType::Q8_1 => (32, 36),
            GgufDataType::I8
            | GgufDataType::I8x4
            | GgufDataType::I8x8
            | GgufDataType::F8E4M3
            | GgufDataType::F8E4M3x2
            | GgufDataType::F8E5M2
            | GgufDataType::F8E5M2x2 => (1, 1),
            GgufDataType::I64
            | GgufDataType::F64 => (1, 8),
            GgufDataType::Q2_K => (256, 84),
            GgufDataType::Q3_K => (256, 110),
            GgufDataType::Q4_K => (256, 144),
            GgufDataType::Q5_K => (256, 176),
            GgufDataType::Q6_K => (256, 210),
            GgufDataType::Q8_K => (256, 292),
            GgufDataType::IQ2_XXS
            | GgufDataType::IQ2_XS
            | GgufDataType::Q2_S
            | GgufDataType::IQ2_S => (256, 64),
            GgufDataType::IQ1_S
            | GgufDataType::IQ1_N => (256, 32),
            GgufDataType::IQ4_NL
            | GgufDataType::IQ4_XS
            | GgufDataType::F4E2M1
            | GgufDataType::F4E2M1x2 => (2, 1),
            GgufDataType::IQ3_XXS
            | GgufDataType::IQ3_S => (256, 96),
            GgufDataType::Q9_K => (256, 324),
        }
    }

    /// The bytes that `elements` elements take: whole blocks.
    pub open spec fn spec_bytes(self, elements: nat) -> nat {
        div_ceil(elements, self.spec_layout().0) * self.spec_layout().1
    }

    pub open spec fn spec_name(self) -> Seq<char> {
        match self {
            GgufDataType::F32 => "F32"@,
            GgufDataType::F16 => "F16"@,
            GgufDataType::Q4_0 => "Q4_0"@,
            GgufDataType::Q4_1 => "Q4_1"@,
            GgufDataType::Q5_0 => "Q5_0"@,
            GgufDataType::Q5_1 => "Q5_1"@,
            GgufDataType::Q8_0 => "Q8_0"@,
            GgufDataType::Q8_1 => "Q8_1"@,
            GgufDataType::I8 => "I8"@,
            GgufDataType::I16 => "I16"@,
            GgufDataType::I32 => "I32"@,
            GgufDataType::I64 => "I64"@,
            GgufDataType::F64 => "F64"@,
            GgufDataType::Q2_K => "Q2_K"@,
            GgufDataType::Q3_K => "Q3_K"@,
            GgufDataType::Q4_K => "Q4_K"@,
            GgufDataType::Q5_K => "Q5_K"@,
            GgufDataType::Q6_K => "Q6_K"@,
            GgufDataType::Q8_K => "Q8_K"@,
            GgufDataType::IQ2_XXS => "IQ2_XXS"@,
            GgufDataType::IQ2_XS => "IQ2_XS"@,
            GgufDataType::Q2_S => "Q2_S"@,
            GgufDataType::IQ1_S => "IQ1_S"@,
            GgufDataType::IQ1_N => "IQ1_N"@,
            GgufDataType::IQ4_NL => "IQ4_NL"@,
            GgufDataType::IQ4_XS => "IQ4_XS"@,
            GgufDataType::IQ3_XXS => "IQ3_XXS"@,
            GgufDataType::IQ3_S => "IQ3_S"@,
            GgufDataType::IQ2_S => "IQ2_S"@,
            GgufDataType::Q9_K => "Q9_K"@,
            GgufDataType::I8x4 => "I8x4"@,
            GgufDataType::I8x8 => "I8x8"@,
            GgufDataType::F4E2M1 => "F4E2M1"@,
            GgufDataType::F4E2M1x2 => "F4E2M1x2"@,
            GgufDataType::F8E4M3 => "F8E4M3"@,
            GgufDataType::F8E4M3x2 => "F8E4M3x2"@,
            GgufDataType::F8E5M2 => "F8E5M2"@,
            GgufDataType::F8E5M2x2 => "F8E5M2x2"@,
            GgufDataType::BF16 => "BF16"@,
            GgufDataType::Q4_0_4x4 => "Q4_0_4x4"@,
            GgufDataType::Q4_0_8x8 => "Q4_0_8x8"@,
            GgufDataType::TF32 => "TF32"@,
        }
    }

    pub fn id(&self) -> (r: u32)
        ensures
            r == self.spec_id(),
    {
        match self {
            GgufDataType::F32 => 0,
            GgufDataType::F16 => 1,
            GgufDataType::Q4_0 => 2,
            GgufDataType::Q4_1 => 3,
            GgufDataType::Q5_0 => 6,
            GgufDataType::Q5_1 => 7,
            GgufDataType::Q8_0 => 8,
            GgufDataType::Q8_1 => 9,
            GgufDataType::I8 => 24,
            GgufDataType::I16 => 25,
            GgufDataType::I32 => 26,
            GgufDataType::I64 => 27,
            GgufDataType::F64 => 28,
            GgufDataType::Q2_K => 10,
            GgufDataType::Q3_K => 11,
            GgufDataType::Q4_K => 12,
            GgufDataType::Q5_K => 13,
            GgufDataType::Q6_K => 14,
            GgufDataType::Q8_K => 15,
            GgufDataType::IQ2_XXS => 16,
            GgufDataType::IQ2_XS => 17,
            GgufDataType::Q2_S => 36,
            GgufDataType::IQ1_S => 19,
            GgufDataType::IQ1_N => 29,
            GgufDataType::IQ4_NL => 20,
            GgufDataType::IQ4_XS => 23,
            GgufDataType::IQ3_XXS => 18,
            GgufDataType::IQ3_S => 21,
            GgufDataType::IQ2_S => 22,
            GgufDataType::Q9_K => 38,
            GgufDataType::I8x4 => 39,
            GgufDataType::I8x8 => 40,
            GgufDataType::F4E2M1 => 41,
            GgufDataType::F4E2M1x2 => 42,
            GgufDataType::F8E4M3 => 43,
            GgufDataType::F8E4M3x2 => 44,
            GgufDataType::F8E5M2 => 45,
            GgufDataType::F8E5M2x2 => 46,
            GgufDataType::BF16 => 30,
            GgufDataType::Q4_0_4x4 => 31,
            GgufDataType::Q4_0_8x8 => 33,
            GgufDataType::TF32 => 47,
        }
    }

    /// The type with a given number, if there is one.
    pub fn from_id(id: u32) -> (r: Option<GgufDataType>)
        ensures
            r == data_type_with(id),
    {
        let r = match id {
            0 => Some(GgufDataType::F32),
            1 => Some(GgufDataType::F16),
            2 => Some(GgufDataType::Q4_0),
            3 => Some(GgufDataType::Q4_1),
            6 => Some(GgufDataType::Q5_0),
            7 => Some(GgufDataType::Q5_1),
            8 => Some(GgufDataType::Q8_0),
            9 => Some(GgufDataType::Q8_1),
            10 => Some(GgufDataType::Q2_K),
            11 => Some(GgufDataType::Q3_K),
            12 => Some(GgufDataType::Q4_K),
            13 => Some(GgufDataType::Q5_K),
            14 => Some(GgufDataType::Q6_K),
            15 => Some(GgufDataType::Q8_K),
            16 => Some(GgufDataType::IQ2_XXS),
            17 => Some(GgufDataType::IQ2_XS),
            18 => Some(GgufDataType::IQ3_XXS),
            19 => Some(GgufDataType::IQ1_S),
            20 => Some(GgufDataType::IQ4_NL),
            21 => Some(GgufDataType::IQ3_S),
            22 => Some(GgufDataType::IQ2_S),
            23 => Some(GgufDataType::IQ4_XS),
            24 => Some(GgufDataType::I8),
            25 => Some(GgufDataType::I16),
            26 => Some(GgufDataType::I32),
            27 => Some(GgufDataType::I64),
            28 => Some(GgufDataType::F64),
            29 => Some(GgufDataType::IQ1_N),
            30 => Some(GgufDataType::BF16),
            31 => Some(GgufDataType::Q4_0_4x4),
            33 => Some(GgufDataType::Q4_0_8x8),
            36 => Some(GgufDataType::Q2_S),
            38 => Some(GgufDataType::Q9_K),
            39 => Some(GgufDataType::I8x4),
            40 => Some(GgufDataType::I8x8),
            41 => Some(GgufDataType::F4E2M1),
            42 => Some(GgufDataType::F4E2M1x2),
            43 => Some(GgufDataType::F8E4M3),
            44 => Some(GgufDataType::F8E4M3x2),
            45 => Some(GgufDataType::F8E5M2),
            46 => Some(GgufDataType::F8E5M2x2),
            47 => Some(GgufDataType::TF32),
            _ => None,
        };
        assert(r matches Some(t) ==> t.spec_id() == id);
        assert(r is None ==> forall|t: GgufDataType| t.spec_id() != id);
        r
    }

    pub fn name(&self) -> (r: &'static str)
        ensures
            r@ == self.spec_name(),
    {
        match self {
            GgufDataType::F32 => "F32",
            GgufDataType::F16 => "F16",
            GgufDataType::Q4_0 => "Q4_0",
            GgufDataType::Q4_1 => "Q4_1",
            GgufDataType::Q5_0 => "Q5_0",
            GgufDataType::Q5_1 => "Q5_1",
            GgufDataType::Q8_0 => "Q8_0",
            GgufDataType::Q8_1 => "Q8_1",
            GgufDataType::I8 => "I8",
            GgufDataType::I16 => "I16",
            GgufDataType::I32 => "I32",
            GgufDataType::I64 => "I64",
            GgufDataType::F64 => "F64",
            GgufDataType::Q2_K => "Q2_K",
            GgufDataType::Q3_K => "Q3_K",
            GgufDataType::Q4_K => "Q4_K",
            GgufDataType::Q5_K => "Q5_K",
            GgufDataType::Q6_K => "Q6_K",
            GgufDataType::Q8_K => "Q8_K",
            GgufDataType::IQ2_XXS => "IQ2_XXS",
            GgufDataType::IQ2_XS => "IQ2_XS",
            GgufDataType::Q2_S => "Q2_S",
            GgufDataType::IQ1_S => "IQ1_S",
            GgufDataType::IQ1_N => "IQ1_N",
            GgufDataType::IQ4_NL => "IQ4_NL",
            GgufDataType::IQ4_XS => "IQ4_XS",
            GgufDataType::IQ3_XXS => "IQ3_XXS",
            GgufDataType::IQ3_S => "IQ3_S",
            GgufDataType::IQ2_S => "IQ2_S",
            GgufDataType::Q9_K => "Q9_K",
            GgufDataType::I8x4 => "I8x4",
            GgufDataType::I8x8 => "I8x8",
            GgufDataType::F4E2M1 => "F4E2M1",
            GgufDataType::F4E2M1x2 => "F4E2M1x2",
            GgufDataType::F8E4M3 => "F8E4M3",
            GgufDataType::F8E4M3x2 => "F8E4M3x2",
            GgufDataType::F8E5M2 => "F8E5M2",
            GgufDataType::F8E5M2x2 => "F8E5M2x2",
            GgufDataType::BF16 => "BF16",
            GgufDataType::Q4_0_4x4 => "Q4_0_4x4",
            GgufDataType::Q4_0_8x8 => "Q4_0_8x8",
            GgufDataType::TF32 => "TF32",
        }
    }

    /// How many elements share a block, and how many bytes a block takes.
    pub fn layout(&self) -> (r: (usize, usize))
        ensures
            r.0 == self.spec_layout().0,
            r.1 == self.spec_layout().1,
            1 <= r.0 <= 256,
            1 <= r.1 <= 324,
    {
        match self {
            GgufDataType::F32
            | GgufDataType::I32
            | GgufDataType::TF32 => (1, 4),
            GgufDataType::F16
            | GgufDataType::I16
            | GgufDataType::BF16 => (1, 2),
            GgufDataType::Q4_0
            | GgufDataType::Q4_0_4x4
            | GgufDataType::Q4_0_8x8 => (32, 18),
            GgufDataType::Q4_1 => (32, 20),
            GgufDataType::Q5_0 => (32, 22),
            GgufDataType::Q5_1 => (32, 24),
            GgufDataType::Q8_0 => (32, 34),
            GgufDataType::Q8_1 => (32, 36),
            GgufDataType::I8
            | GgufDataType::I8x4
            | GgufDataType::I8x8
            | GgufDataType::F8E4M3
            | GgufDataType::F8E4M3x2
            | GgufDataType::F8E5M2
            | GgufDataType::F8E5M2x2 => (1, 1),
            GgufDataType::I64
            | GgufDataType::F64 => (1, 8),
            GgufDataType::Q2_K => (256, 84),
            GgufDataType::Q3_K => (256, 110),
            GgufDataType::Q4_K => (256, 144),
            GgufDataType::Q5_K => (256, 176),
            GgufDataType::Q6_K => (256, 210),
            GgufDataType::Q8_K => (256, 292),
            GgufDataType::IQ2_XXS
            | GgufDataType::IQ2_XS
            | GgufDataType::Q2_S
            | GgufDataType::IQ2_S => (256, 64),
            GgufDataType::IQ1_S
            | GgufDataType::IQ1_N => (256, 32),
            GgufDataType::IQ4_NL
            | GgufDataType::IQ4_XS
            | GgufDataType::F4E2M1
            | GgufDataType::F4E2M1x2 => (2, 1),
            GgufDataType::IQ3_XXS
            | GgufDataType::IQ3_S => (256, 96),
            GgufDataType::Q9_K => (256, 324),
        }
    }

    /// The bytes that a tensor of this type with that many elements takes.
    pub fn bytes_per_element(&self, elements: usize) -> (r: usize)
        requires
            self.spec_bytes(elements as nat) <= usize::MAX,
        ensures
            r == self.spec_bytes(elements as nat),
    {
        self.checked_bytes(elements).unwrap()
    }

    /// The bytes that a tensor takes, unless their number is too large.
    pub fn checked_bytes(&self, elements: usize) -> (r: Option<usize>)
        ensures
            r is Some <==> self.spec_bytes(elements as nat) <= usize::MAX,
            r matches Some(n) ==> n == self.spec_bytes(elements as nat),
    {
        let (block, size) = self.layout();
        blocks_for(elements, block).checked_mul(size)
    }

    /// The size of one element, or zero for the types that come in blocks and
    /// for the integer types.
    pub fn elem_size(&self) -> (r: usize)
        ensures
            r == if *self == GgufDataType::F32 || *self == GgufDataType::TF32 {
                4int
            } else if *self == GgufDataType::F16 || *self == GgufDataType::BF16 {
                2
            } else {
                0
            },
    {
        match self {
            GgufDataType::F32 | GgufDataType::TF32 => 4,
            GgufDataType::F16 | GgufDataType::BF16 => 2,
            _ => 0,
        }
    }
}

/// How many blocks of a given length hold `elements` elements.
pub fn blocks_for(elements: usize, block: usize) -> (r: usize)
    requires
        block > 0,
    ensures
        r == div_ceil(elements as nat, block as nat),
{
    let whole: usize = elements / block;
    proof {
        let (e, b, w) = (elements as int, block as int, elements as int / block as int);
        vstd::arithmetic::div_mod::lemma_fundamental_div_mod(e, b);
        if e % b == 0 {
            assert((e + b - 1) / b == w) by (nonlinear_arith)
                requires
                    e == b * w + e % b,
                    e % b == 0,
                    b > 0,
            ;
        } else {
            assert((e + b - 1) / b == w + 1) by (nonlinear_arith)
                requires
                    e == b * w + e % b,
                    0 < e % b < b,
                    b > 0,
            ;
            assert(w < usize::MAX) by (nonlinear_arith)
                requires
                    e == b * w + e % b,
                    0 < e % b < b,
                    b > 0,
                    e <= usize::MAX,
                    w >= 0,
            ;
        }
    }
    if elements % block == 0 {
        whole
    } else {
        whole + 1
    }
}

/// Types of metadata values.
#[derive(Debug, Clone, Copy, PartialEq, Eq, Structural)]
pub enum GgufValueType {
    Bool,
    U8,
    I8,
    U16,
    I16,
    U32,
    I32,
    F32,
    U64,
    I64,
    F64,
    String,
    Array,
}

impl GgufValueType {
    /// The number that stands for the type in a file.
    pub open spec fn spec_id(self) -> u32 {
        match self {
            GgufValueType::U8 => 0,
            GgufValueType::I8 => 1,
            GgufValueType::U16 => 2,
            GgufValueType::I16 => 3,
            GgufValueType::U32 => 4,
            GgufValueType::I32 => 5,
            GgufValueType::F32 => 6,
            GgufValueType::Bool => 7,
            GgufValueType::String => 8,
            GgufValueType::Array => 9,
            GgufValueType::U64 => 10,
            GgufValueType::I64 => 11,
            GgufValueType::F64 => 12,
        }
    }

    /// The type with a given number, if there is one.
    pub fn from_id(id: u32) -> (r: Option<GgufValueType>)
        ensures
            r == value_type_with(id),
    {
        let r = match id {
            0 => Some(GgufValueType::U8),
            1 => Some(GgufValueType::I8),
            2 => Some(GgufValueType::U16),
            3 => Some(GgufValueType::I16),
            4 => Some(GgufValueType::U32),
            5 => Some(GgufValueType::I32),
            6 => Some(GgufValueType::F32),
            7 => Some(GgufValueType::Bool),
            8 => Some(GgufValueType::String),
            9 => Some(GgufValueType::Array),
            10 => Some(GgufValueType::U64),
            11 => Some(GgufValueType::I64),
            12 => Some(GgufValueType::F64),
            _ => None,
        };
        assert(r matches Some(t) ==> t.spec_id() == id);
        assert(r is None ==> forall|t: GgufValueType| t.spec_id() != id);
        r
    }

    pub fn id(&self) -> (r: u32)
        ensures
            r == self.spec_id(),
    {
        match self {
            GgufValueType::U8 => 0,
            GgufValueType::I8 => 1,
            GgufValueType::U16 => 2,
            GgufValueType::I16 => 3,
            GgufValueType::U32 => 4,
            GgufValueType::I32 => 5,
            GgufValueType::F32 => 6,
            GgufValueType::Bool => 7,
            GgufValueType::String => 8,
            GgufValueType::Array => 9,
            GgufValueType::U64 => 10,
            GgufValueType::I64 => 11,
            GgufValueType::F64 => 12,
        }
    }
}

/// The data type with a given number, if there is one.
pub open spec fn data_type_with(id: u32) -> Option<GgufDataType> {
    if exists|t: GgufDataType| t.spec_id() == id {
        Some(choose|t: GgufDataType| t.spec_id() == id)
    } else {
        None
    }
}

/// The value type with a given number, if there is one.
pub open spec fn value_type_with(id: u32) -> Option<GgufValueType> {
    if exists|t: GgufValueType| t.spec_id() == id {
        Some(choose|t: GgufValueType| t.spec_id() == id)
    } else {
        None
    }
}

/// A data type is found again by its number.
pub proof fn data_type_id_round_trip(t: GgufDataType)
    ensures
        data_type_with(t.spec_id()) == Some(t),
{
}

/// A value type is found again by its number.
pub proof fn value_type_id_round_trip(t: GgufValueType)
    ensures
        value_type_with(t.spec_id()) == Some(t),
{
}

} // verus!
