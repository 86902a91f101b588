//! Blocks of quantized weights.
//!
//! Weights are stored in blocks that share a scale. Decoding a block gives, for
//! each weight, the integers and the scales from which its value is computed.

use crate::bytes::{get_u16, get_u32, u16_at, u32_at};
use crate::quant::packing::{packed_at, read_packed_bits};
use vstd::prelude::*;

verus! {

/// A stored weight. Numbers are held by their IEEE 754 bits: the value of
/// [`WeightTerm::Value`] in single precision, all others in half precision.
#[derive(Debug, Clone, Copy, PartialEq, Eq, Structural)]
pub enum WeightTerm {
    /// The value itself.
    Value(u32),
    /// The value itself, in half precision.
    Half(u16),
    /// `signed * d`.
    Product { signed: i8, d: u16 },
    /// `d * scale * code - dmin * min`.
    Offset { d: u16, scale: u8, code: u8, dmin: u16, min: u8 },
    /// `low + level * step`.
    Affine { low: u16, level: u32, step: u16 },
}

/// How weights are laid out in bytes.
#[allow(non_camel_case_types)]
#[derive(Debug, Clone, Copy, PartialEq, Eq, Structural)]
pub enum WeightCoding {
    F32,
    F16,
    BF16,
    Q8_0,
    Q4_0,
    Q4_K,
    Q2_K,
    Affine3,
    Affine5,
    Affine6,
}

impl WeightCoding {
    /// How many weights share a block.
    pub open spec fn spec_len(self) -> int {
        match self {
            WeightCoding::F32 | WeightCoding::F16 | WeightCoding::BF16 => 1,
            WeightCoding::Q4_K | WeightCoding::Q2_K => 256,
            _ => 32,
        }
    }

    /// How many bytes a block takes.
    pub open spec fn spec_size(self) -> int {
        match self {
            WeightCoding::F32 => 4,
            WeightCoding::F16 | WeightCoding::BF16 => 2,
            WeightCoding::Q8_0 => 34,
            WeightCoding::Q4_0 => 18,
            WeightCoding::Q4_K => 144,
            WeightCoding::Q2_K => 84,
            WeightCoding::Affine3 => 16,
            WeightCoding::Affine5 => 24,
            WeightCoding::Affine6 => 28,
        }
    }

    /// Whether weights come in blocks of more than one.
    pub open spec fn blocked(self) -> bool {
        self.spec_len() > 1
    }

    pub fn len(&self) -> (r: usize)
        ensures
            r == self.spec_len(),
            1 <= r <= 256,
    {
        match self {
            WeightCoding::F32 | WeightCoding::F16 | WeightCoding::BF16 => 1,
            WeightCoding::Q4_K | WeightCoding::Q2_K => 256,
            _ => 32,
        }
    }

    pub fn size(&self) -> (r: usize)
        ensures
            r == self.spec_size(),
            2 <= r <= 144,
    {
        match self {
            WeightCoding::F32 => 4,
            WeightCoding::F16 | WeightCoding::BF16 => 2,
            WeightCoding::Q8_0 => 34,
            WeightCoding::Q4_0 => 18,
            WeightCoding::Q4_K => 144,
            WeightCoding::Q2_K => 84,
            WeightCoding::Affine3 => 16,
            WeightCoding::Affine5 => 24,
            WeightCoding::Affine6 => 28,
        }
    }
}

/// Scale `k` of the eight six-bit scales in twelve packed bytes at `at`.
pub open spec fn q4_k_scale(data: Seq<u8>, at: int, k: int) -> u8 {
    if k < 4 {
        (data[at + k] % 64) as u8
    } else {
        (data[at + k + 4] % 16 + data[at + k - 4] / 64 * 16) as u8
    }
}

/// Minimum `k` of the eight six-bit minima in twelve packed bytes at `at`.
pub open spec fn q4_k_min(data: Seq<u8>, at: int, k: int) -> u8 {
    if k < 4 {
        (data[at + k + 4] % 64) as u8
    } else {
        (data[at + k + 4] / 16 + data[at + k] / 64 * 16) as u8
    }
}

/// The twelve bytes that hold eight scales and eight minima.
pub open spec fn q4_k_scale_bytes(scales: Seq<u8>, mins: Seq<u8>) -> Seq<u8> {
    Seq::new(
        12,
        |i: int|
            if i < 4 {
                (scales[i] % 64 + scales[i + 4] / 16 % 4 * 64) as u8
            } else if i < 8 {
                (mins[i - 4] % 64 + mins[i] / 16 % 4 * 64) as u8
            } else {
                (scales[i - 4] % 16 + mins[i - 4] % 16 * 16) as u8
            },
    )
}

/// Two bits of a byte.
pub open spec fn crumb(x: u8, k: int) -> u8 {
    if k == 0 {
        (x % 4) as u8
    } else if k == 1 {
        (x / 4 % 4) as u8
    } else if k == 2 {
        (x / 16 % 4) as u8
    } else {
        (x / 64) as u8
    }
}

/// The bits per weight of an affine coding.
pub open spec fn affine_bits(c: WeightCoding) -> nat {
    match c {
        WeightCoding::Affine3 => 3,
        WeightCoding::Affine5 => 5,
        _ => 6,
    }
}

/// Weight `j` of the block that starts at `base`.
pub open spec fn block_term(c: WeightCoding, data: Seq<u8>, base: int, j: int) -> WeightTerm {
    match c {
        WeightCoding::F32 => WeightTerm::Value(u32_at(data, base)),
        WeightCoding::F16 => WeightTerm::Half(u16_at(data, base)),
        WeightCoding::BF16 => WeightTerm::Value((u16_at(data, base) * 0x1_0000) as u32),
        WeightCoding::Q8_0 => WeightTerm::Product {
            signed: data[base + 2 + j] as i8,
            d: u16_at(data, base),
        },
        WeightCoding::Q4_0 => WeightTerm::Product {
            signed: (if j < 16 {
                data[base + 2 + j] % 16 - 8
            } else {
                data[base + 2 + j - 16] / 16 - 8
            }) as i8,
            d: u16_at(data, base),
        },
        WeightCoding::Q4_K => WeightTerm::Offset {
            d: u16_at(data, base),
            scale: q4_k_scale(data, base + 4, j / 32),
            code: (if j < 128 {
                data[base + 16 + j] % 16
            } else {
                data[base + 16 + j - 128] / 16
            }) as u8,
            dmin: u16_at(data, base + 2),
            min: q4_k_min(data, base + 4, j / 32),
        },
        WeightCoding::Q2_K => WeightTerm::Offset {
            d: u16_at(data, base + 80),
            scale: (data[base + j / 16] % 16) as u8,
            code: crumb(data[base + 16 + j / 4], j % 4),
            dmin: u16_at(data, base + 82),
            min: (data[base + j / 16] / 16) as u8,
        },
        _ => WeightTerm::Affine {
            low: u16_at(data, base),
            level: packed_at(
                data.subrange(base + 4, base + c.spec_size()),
                j,
                affine_bits(c),
            ) as u32,
            step: u16_at(data, base + 2),
        },
    }
}

/// Weight `i` of a payload.
pub open spec fn weight_term(c: WeightCoding, data: Seq<u8>, i: int) -> WeightTerm {
    block_term(c, data, i / c.spec_len() * c.spec_size(), i % c.spec_len())
}

/// How many weights decoding gives where `wanted` are asked for: no more than whole
/// blocks hold. Where none are asked for, a blocked coding gives all there are.
pub open spec fn decoded_len(c: WeightCoding, bytes: int, wanted: int) -> int {
    let held = bytes / c.spec_size() * c.spec_len();
    if c.blocked() && wanted == 0 {
        held
    } else if wanted < held {
        wanted
    } else {
        held
    }
}

/// The weights that decoding gives.
pub open spec fn decoded(c: WeightCoding, data: Seq<u8>, wanted: int) -> Seq<WeightTerm> {
    Seq::new(
        decoded_len(c, data.len() as int, wanted) as nat,
        |i: int| weight_term(c, data, i),
    )
}

/// Reads scale `k` of twelve packed bytes.
fn scale_of(data: &[u8], at: usize, k: usize) -> (r: u8)
    requires
        at + 12 <= data@.len(),
        k < 8,
    ensures
        r == q4_k_scale(data@, at as int, k as int),
        r < 64,
{
    assert(data.len() <= usize::MAX);
    if k < 4 {
        data[at + k] % 64
    } else {
        data[at + k + 4] % 16 + data[at + (k - 4)] / 64 * 16
    }
}

/// Reads minimum `k` of twelve packed bytes.
fn min_of(data: &[u8], at: usize, k: usize) -> (r: u8)
    requires
        at + 12 <= data@.len(),
        k < 8,
    ensures
        r == q4_k_min(data@, at as int, k as int),
        r < 64,
{
    assert(data.len() <= usize::MAX);
    if k < 4 {
        data[at + k + 4] % 64
    } else {
        data[at + k + 4] / 16 + data[at + k] / 64 * 16
    }
}

/// The eight scales and the eight minima in twelve packed bytes.
pub fn unpack_q4_k_scales(packed: &[u8]) -> (r: (Vec<u8>, Vec<u8>))
    requires
        packed@.len() >= 12,
    ensures
        r.0@ == Seq::new(8, |k: int| q4_k_scale(packed@, 0, k)),
        r.1@ == Seq::new(8, |k: int| q4_k_min(packed@, 0, k)),
{
    let mut scales: Vec<u8> = Vec::new();
    let mut mins: Vec<u8> = Vec::new();
    let mut k: usize = 0;
    while k < 8
        invariant
            k <= 8,
            packed@.len() >= 12,
            scales@ == Seq::new(k as nat, |k: int| q4_k_scale(packed@, 0, k)),
            mins@ == Seq::new(k as nat, |k: int| q4_k_min(packed@, 0, k)),
        decreases 8 - k,
    {
        scales.push(scale_of(packed, 0, k));
        mins.push(min_of(packed, 0, k));
        k += 1;
        assert(scales@ =~= Seq::new(k as nat, |k: int| q4_k_scale(packed@, 0, k)));
        assert(mins@ =~= Seq::new(k as nat, |k: int| q4_k_min(packed@, 0, k)));
    }
    (scales, mins)
}

/// Packs eight scales and eight minima, six bits each, into twelve bytes.
pub fn pack_q4_k_scales(scales: &Vec<u8>, mins: &Vec<u8>) -> (r: Vec<u8>)
    requires
        scales@.len() == 8,
        mins@.len() == 8,
    ensures
        r@ == q4_k_scale_bytes(scales@, mins@),
{
    let mut out: Vec<u8> = Vec::new();
    let mut i: usize = 0;
    while i < 12
        invariant
            i <= 12,
            scales@.len() == 8,
            mins@.len() == 8,
            out@ == q4_k_scale_bytes(scales@, mins@).take(i as int),
        decreases 12 - i,
    {
        let x: u8 = if i < 4 {
            scales[i] % 64 + scales[i + 4] / 16 % 4 * 64
        } else if i < 8 {
            mins[i - 4] % 64 + mins[i] / 16 % 4 * 64
        } else {
            scales[i - 4] % 16 + mins[i - 4] % 16 * 16
        };
        out.push(x);
        i += 1;
        assert(out@ =~= q4_k_scale_bytes(scales@, mins@).take(i as int));
    }
    assert(out@ =~= q4_k_scale_bytes(scales@, mins@));
    out
}

/// Scales and minima below 64 are unpacked as they were packed.
pub proof fn q4_k_scales_round_trip(scales: Seq<u8>, mins: Seq<u8>)
    requires
        scales.len() == 8,
        mins.len() == 8,
        forall|k: int| 0 <= k < 8 ==> scales[k] < 64 && mins[k] < 64,
    ensures
        forall|k: int|
            0 <= k < 8 ==> q4_k_scale(q4_k_scale_bytes(scales, mins), 0, k) == scales[k],
        forall|k: int| 0 <= k < 8 ==> q4_k_min(q4_k_scale_bytes(scales, mins), 0, k) == mins[k],
{
    let p = q4_k_scale_bytes(scales, mins);
    assert forall|k: int| 0 <= k < 8 implies q4_k_scale(p, 0, k) == scales[k] && q4_k_min(p, 0, k)
        == mins[k] by {
        let i = if k < 4 {
            k
        } else {
            k - 4
        };
        lemma_six_bits(scales[i], scales[i + 4]);
        lemma_six_bits(mins[i], mins[i + 4]);
        lemma_nibbles(scales[i + 4], mins[i + 4]);
        assert(p[i] == (scales[i] % 64 + scales[i + 4] / 16 % 4 * 64) as u8);
        assert(p[i + 4] == (mins[i] % 64 + mins[i + 4] / 16 % 4 * 64) as u8);
        assert(p[i + 8] == (scales[i + 4] % 16 + mins[i + 4] % 16 * 16) as u8);
    }
}

proof fn lemma_six_bits(low: u8, high: u8)
    requires
        low < 64,
        high < 64,
    ensures
        low % 64 + high / 16 % 4 * 64 < 256,
        (low % 64 + high / 16 % 4 * 64) as u8 % 64 == low,
        (low % 64 + high / 16 % 4 * 64) as u8 / 64 == high / 16,
{
}

proof fn lemma_nibbles(low: u8, high: u8)
    ensures
        low % 16 + high % 16 * 16 < 256,
        (low % 16 + high % 16 * 16) as u8 % 16 == low % 16,
        (low % 16 + high % 16 * 16) as u8 / 16 == high % 16,
{
}

/// Decodes weight `j` of the block at `base`.
fn decode_term(c: WeightCoding, data: &[u8], base: usize, j: usize) -> (r: WeightTerm)
    requires
        base + c.spec_size() <= data@.len(),
        j < c.spec_len(),
    ensures
        r == block_term(c, data@, base as int, j as int),
{
    assert(data.len() <= usize::MAX);
    match c {
        WeightCoding::F32 => WeightTerm::Value(get_u32(data, base)),
        WeightCoding::F16 => WeightTerm::Half(get_u16(data, base)),
        WeightCoding::BF16 => WeightTerm::Value(get_u16(data, base) as u32 * 0x1_0000),
        WeightCoding::Q8_0 => WeightTerm::Product {
            signed: data[base + 2 + j] as i8,
            d: get_u16(data, base),
        },
        WeightCoding::Q4_0 => WeightTerm::Product {
            signed: if j < 16 {
                (data[base + 2 + j] % 16) as i8 - 8
            } else {
                (data[base + 2 + (j - 16)] / 16) as i8 - 8
            },
            d: get_u16(data, base),
        },
        WeightCoding::Q4_K => WeightTerm::Offset {
            d: get_u16(data, base),
            scale: scale_of(data, base + 4, j / 32),
            code: if j < 128 {
                data[base + 16 + j] % 16
            } else {
                data[base + 16 + (j - 128)] / 16
            },
            dmin: get_u16(data, base + 2),
            min: min_of(data, base + 4, j / 32),
        },
        WeightCoding::Q2_K => {
            let x: u8 = data[base + 16 + j / 4];
            let k: usize = j % 4;
            WeightTerm::Offset {
                d: get_u16(data, base + 80),
                scale: data[base + j / 16] % 16,
                code: if k == 0 {
                    x % 4
                } else if k == 1 {
                    x / 4 % 4
                } else if k == 2 {
                    x / 16 % 4
                } else {
                    x / 64
                },
                dmin: get_u16(data, base + 82),
                min: data[base + j / 16] / 16,
            }
        },
        _ => {
            let bits: u32 = match c {
                WeightCoding::Affine3 => 3,
                WeightCoding::Affine5 => 5,
                _ => 6,
            };
            assert(j * bits + bits <= 192) by (nonlinear_arith)
                requires
                    j < 32,
                    bits <= 6,
            ;
            let packed = vstd::slice::slice_subrange(data, base + 4, base + c.size());
            WeightTerm::Affine {
                low: get_u16(data, base),
                level: read_packed_bits(packed, j, bits),
                step: get_u16(data, base + 2),
            }
        },
    }
}

/// Decodes the weights of a payload. Those of the first whole blocks are given, up
/// to `wanted` of them.
pub fn decode_weights(c: WeightCoding, data: &[u8], wanted: usize) -> (r: Vec<WeightTerm>)
    requires
        decoded_len(c, data@.len() as int, wanted as int) <= usize::MAX,
    ensures
        r@ == decoded(c, data@, wanted as int),
{
    let len: usize = c.len();
    let size: usize = c.size();
    let blocks: usize = data.len() / size;
    let mut out: Vec<WeightTerm> = Vec::new();
    let ghost count = decoded_len(c, data@.len() as int, wanted as int);
    let mut b: usize = 0;
    assert(out@ =~= decoded(c, data@, wanted as int).take(0));
    proof {
        assert(count <= blocks * len) by {
            if !(c.blocked() && wanted == 0) {}
        }
    }
    while b < blocks
        invariant
            b <= blocks,
            len == c.spec_len(),
            size == c.spec_size(),
            blocks == data@.len() as int / c.spec_size(),
            data@.len() <= usize::MAX,
            count == decoded_len(c, data@.len() as int, wanted as int),
            count <= usize::MAX,
            out@.len() == if b * len < count { b * len } else { count },
            out@ == decoded(c, data@, wanted as int).take(out@.len() as int),
        decreases blocks - b,
    {
        assert(b * size + size <= data@.len()) by {
            lemma_block_fits(b as int, blocks as int, size as int, data@.len() as int);
        }
        assert(b * size <= b * size + size);
        let base: usize = b * size;
        let mut j: usize = 0;
        while j < len
            invariant
                j <= len,
                b < blocks,
                base == b * size,
                base + size <= data@.len(),
                len == c.spec_len(),
                size == c.spec_size(),
                blocks == data@.len() as int / c.spec_size(),
                count == decoded_len(c, data@.len() as int, wanted as int),
                count <= usize::MAX,
                out@.len() == if b * len + j < count { b * len + j } else { count },
                out@ == decoded(c, data@, wanted as int).take(out@.len() as int),
            decreases len - j,
        {
            let done: bool = if wanted == 0 && len > 1 {
                false
            } else {
                out.len() >= wanted
            };
            proof {
                lemma_held(c, b as int, blocks as int, j as int);
            }
            if !done {
                let ghost i = b * len + j;
                assert(i < count);
                assert(i / c.spec_len() == b && i % c.spec_len() == j) by {
                    lemma_index(b as int, len as int, j as int);
                }
                out.push(decode_term(c, data, base, j));
                assert(out@ =~= decoded(c, data@, wanted as int).take(i + 1));
            }
            j += 1;
        }
        assert(b * len + len == (b + 1) * len) by (nonlinear_arith);
        b += 1;
    }
    assert(out@ =~= decoded(c, data@, wanted as int));
    out
}

proof fn lemma_block_fits(b: int, blocks: int, size: int, len: int)
    requires
        0 <= b < blocks,
        size > 0,
        blocks == len / size,
    ensures
        b * size + size <= len,
        0 <= b * size,
{
    vstd::arithmetic::div_mod::lemma_fundamental_div_mod(len, size);
    assert(b * size + size <= len) by (nonlinear_arith)
        requires
            0 <= b < blocks,
            size > 0,
            len == size * blocks + len % size,
            len % size >= 0,
    ;
    vstd::arithmetic::div_mod::lemma_mod_bound(len, size);
    assert(0 <= b * size) by (nonlinear_arith)
        requires
            0 <= b,
            size > 0,
    ;
}

proof fn lemma_held(c: WeightCoding, b: int, blocks: int, j: int)
    requires
        0 <= b < blocks,
        0 <= j < c.spec_len(),
    ensures
        b * c.spec_len() + j < blocks * c.spec_len(),
{
    let len = c.spec_len();
    assert(b * len + j < blocks * len) by (nonlinear_arith)
        requires
            0 <= b < blocks,
            0 <= j < len,
    ;
}

proof fn lemma_index(b: int, len: int, j: int)
    requires
        0 <= b,
        0 <= j < len,
    ensures
        (b * len + j) / len == b,
        (b * len + j) % len == j,
{
    vstd::arithmetic::div_mod::lemma_fundamental_div_mod_converse(b * len + j, len, b, j);
}

} // verus!
