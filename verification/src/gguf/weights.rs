//! What the weights of a tensor are, over the bytes of its payload.

use crate::gguf::payload::coding_of;
use crate::gguf::types::{div_ceil, GgufDataType};
use crate::quant::blocks::{
    block_term, crumb, decoded, decoded_len, WeightCoding, WeightTerm,
};
use crate::quant::formats::QuantFormat;
use vstd::prelude::*;

verus! {

/// The weights that a payload of a type decodes to.
pub open spec fn weights_of(t: GgufDataType, data: Seq<u8>, n: int) -> Seq<WeightTerm> {
    decoded(coding_of(t)->0, data, n)
}

/// Which weights a payload holds does not depend on how many of them are asked for.
pub proof fn weights_start_alike(t: GgufDataType, data: Seq<u8>, n: int, more: int, i: int)
    requires
        coding_of(t) is Some,
        0 < n <= more,
        0 <= i < weights_of(t, data, n).len(),
    ensures
        weights_of(t, data, n).len() <= n,
        i < weights_of(t, data, more).len(),
        weights_of(t, data, n)[i] == weights_of(t, data, more)[i],
{
}

/// A single-precision weight is its four bytes, the lowest first.
pub proof fn f32_weights_are_their_bytes(data: Seq<u8>, n: int, i: int)
    requires
        0 <= i < n,
        4 * n <= data.len(),
    ensures
        coding_of(GgufDataType::F32) is Some,
        weights_of(GgufDataType::F32, data, n).len() == n,
        weights_of(GgufDataType::F32, data, n)[i] matches WeightTerm::Value(bits) && bits
            % 0x1_0000 == data[4 * i] + 256 * data[4 * i + 1] && bits / 0x1_0000 == data[4 * i + 2]
            + 256 * data[4 * i + 3],
{
}

/// A half-precision weight is its two bytes, the lowest first.
pub proof fn half_weights_are_their_bytes(data: Seq<u8>, n: int, i: int)
    requires
        0 <= i < n,
        2 * n <= data.len(),
    ensures
        coding_of(GgufDataType::F16) is Some,
        weights_of(GgufDataType::F16, data, n).len() == n,
        weights_of(GgufDataType::F16, data, n)[i] matches WeightTerm::Half(bits) && bits % 256
            == data[2 * i] && bits / 256 == data[2 * i + 1],
{
}

/// A weight in the short form of a single-precision number is the upper half of that
/// number, its sign included. The lower half is zero.
pub proof fn short_weights_are_upper_halves(data: Seq<u8>, n: int, i: int)
    requires
        0 <= i < n,
        2 * n <= data.len(),
    ensures
        coding_of(GgufDataType::BF16) is Some,
        weights_of(GgufDataType::BF16, data, n).len() == n,
        weights_of(GgufDataType::BF16, data, n)[i] matches WeightTerm::Value(bits) && bits
            / 0x1_0000 == data[2 * i] + 256 * data[2 * i + 1] && bits % 0x1_0000 == 0,
{
}

proof fn lemma_signed(x: u8)
    ensures
        ((x as i8) + 256) % 256 == x,
{
    assert(((x as i8) + 256) % 256 == x) by (bit_vector);
}

/// An eight-bit code is a signed byte, and all weights of a block share the scale ahead
/// of its codes.
pub proof fn q8_0_weights_are_signed_bytes(data: Seq<u8>, n: int, b: int, j: int)
    requires
        0 <= b,
        0 <= j < 32,
        32 * b + j < n,
        34 * b + 34 <= data.len(),
    ensures
        coding_of(GgufDataType::Q8_0) is Some,
        32 * b + j < weights_of(GgufDataType::Q8_0, data, n).len(),
        weights_of(GgufDataType::Q8_0, data, n)[32 * b + j] matches WeightTerm::Product {
            signed,
            d,
        } && d == data[34 * b] + 256 * data[34 * b + 1] && (signed + 256) % 256 == data[34 * b + 2
            + j],
{
    lemma_signed(data[34 * b + 2 + j]);
    assert((32 * b + j) / 32 == b && (32 * b + j) % 32 == j);
}

/// Two four-bit codes make up a byte, that of the first half of a block in its lower bits.
/// Codes are eight more than the numbers that they stand for.
pub proof fn q4_0_weights_make_up_bytes(data: Seq<u8>, n: int, b: int, j: int)
    requires
        0 <= b,
        0 <= j < 16,
        32 * b + 16 + j < n,
        18 * b + 18 <= data.len(),
    ensures
        coding_of(GgufDataType::Q4_0) is Some,
        32 * b + 16 + j < weights_of(GgufDataType::Q4_0, data, n).len(),
        ({
            let ws = weights_of(GgufDataType::Q4_0, data, n);
            let d = data[18 * b] + 256 * data[18 * b + 1];
            let (low, high) = (ws[32 * b + j], ws[32 * b + 16 + j]);
            &&& low is Product
            &&& high is Product
            &&& low->Product_d == d
            &&& high->Product_d == d
            &&& -8 <= low->signed < 8
            &&& -8 <= high->signed < 8
            &&& (low->signed + 8) + 16 * (high->signed + 8) == data[18 * b + 2 + j]
        }),
{
    assert((32 * b + j) / 32 == b && (32 * b + j) % 32 == j);
    assert((32 * b + 16 + j) / 32 == b && (32 * b + 16 + j) % 32 == 16 + j);
}

/// A block of 256 four-bit codes: the codes of two weights half a block apart make up a
/// byte, that of the first in its lower bits. A block has two scales for its scales and
/// minima, which have six bits each; those of the first half keep theirs in one byte, with
/// the two upper bits of those of the second half above them, and the lower four bits of
/// the latter make up bytes of their own.
pub proof fn q4_k_weights_make_up_bytes(data: Seq<u8>, n: int, b: int, j: int)
    requires
        0 <= b,
        0 <= j < 128,
        256 * b + 128 + j < n,
        144 * b + 144 <= data.len(),
    ensures
        coding_of(GgufDataType::Q4_K) is Some,
        256 * b + 128 + j < weights_of(GgufDataType::Q4_K, data, n).len(),
        ({
            let low = weights_of(GgufDataType::Q4_K, data, n)[256 * b + j];
            let high = weights_of(GgufDataType::Q4_K, data, n)[256 * b + 128 + j];
            let at = 144 * b;
            let k = j / 32;
            &&& low is Offset
            &&& high is Offset
            &&& low->Offset_d == data[at] + 256 * data[at + 1]
            &&& high->Offset_d == low->Offset_d
            &&& low->dmin == data[at + 2] + 256 * data[at + 3]
            &&& high->dmin == low->dmin
            &&& low->code < 16
            &&& low->code + 16 * high->code == data[at + 16 + j]
            &&& low->scale < 64
            &&& low->min < 64
            &&& low->scale + 64 * (high->scale / 16) == data[at + 4 + k]
            &&& low->min + 64 * (high->min / 16) == data[at + 8 + k]
            &&& high->scale % 16 + 16 * (high->min % 16) == data[at + 12 + k]
        }),
{
    let i = 256 * b + j;
    assert(i / 256 == b && i % 256 == j);
    assert((i + 128) / 256 == b && (i + 128) % 256 == j + 128);
    assert((j + 128) / 32 == j / 32 + 4);
}

/// A block of 256 two-bit codes: the scale and the minimum of sixteen weights make up a
/// byte, and the two scales of the block stand at its end.
pub proof fn q2_k_weights_share_scales(data: Seq<u8>, n: int, b: int, j: int)
    requires
        0 <= b,
        0 <= j < 256,
        256 * b + j < n,
        84 * b + 84 <= data.len(),
    ensures
        coding_of(GgufDataType::Q2_K) is Some,
        256 * b + j < weights_of(GgufDataType::Q2_K, data, n).len(),
        ({
            let w = weights_of(GgufDataType::Q2_K, data, n)[256 * b + j];
            &&& w is Offset
            &&& w->code < 4
            &&& w->scale < 16
            &&& w->scale + 16 * w->min == data[84 * b + j / 16]
            &&& w->Offset_d == data[84 * b + 80] + 256 * data[84 * b + 81]
            &&& w->dmin == data[84 * b + 82] + 256 * data[84 * b + 83]
        }),
{
    lemma_q2_k(data, n, b, j);
}

/// The codes of four neighbours make up a byte, the first in its lowest bits.
pub proof fn q2_k_weights_make_up_bytes(data: Seq<u8>, n: int, b: int, m: int)
    requires
        0 <= b,
        0 <= m < 64,
        256 * b + 4 * m + 3 < n,
        84 * b + 84 <= data.len(),
    ensures
        ({
            let ws = weights_of(GgufDataType::Q2_K, data, n);
            let i = 256 * b + 4 * m;
            ws[i]->code + 4 * ws[i + 1]->code + 16 * ws[i + 2]->code + 64 * ws[i + 3]->code
                == data[84 * b + 16 + m]
        }),
{
    lemma_q2_k_code(data, n, b, m, 0);
    lemma_q2_k_code(data, n, b, m, 1);
    lemma_q2_k_code(data, n, b, m, 2);
    lemma_q2_k_code(data, n, b, m, 3);
    lemma_crumbs(data[84 * b + 16 + m]);
}

proof fn lemma_crumbs(x: u8)
    ensures
        crumb(x, 0) + 4 * crumb(x, 1) + 16 * crumb(x, 2) + 64 * crumb(x, 3) == x,
{
    assert(x % 4 + 4 * (x / 4 % 4) + 16 * (x / 16 % 4) + 64 * (x / 64) == x) by (bit_vector);
}

proof fn lemma_q2_k_code(data: Seq<u8>, n: int, b: int, m: int, k: int)
    requires
        0 <= b,
        0 <= m < 64,
        0 <= k < 4,
        256 * b + 4 * m + 3 < n,
        84 * b + 84 <= data.len(),
    ensures
        weights_of(GgufDataType::Q2_K, data, n)[256 * b + 4 * m + k]->code == crumb(
            data[84 * b + 16 + m],
            k,
        ),
{
    lemma_q2_k(data, n, b, 4 * m + k);
    assert((4 * m + k) / 4 == m && (4 * m + k) % 4 == k);
}

proof fn lemma_q2_k(data: Seq<u8>, n: int, b: int, j: int)
    requires
        0 <= b,
        0 <= j < 256,
        256 * b + j < n,
        84 * b + 84 <= data.len(),
    ensures
        256 * b + j < weights_of(GgufDataType::Q2_K, data, n).len(),
        weights_of(GgufDataType::Q2_K, data, n)[256 * b + j] == block_term(
            WeightCoding::Q2_K,
            data,
            84 * b,
            j,
        ),
{
    let i = 256 * b + j;
    let held = data.len() as int / 84;
    assert(held >= b + 1);
    assert(decoded_len(WeightCoding::Q2_K, data.len() as int, n) > i);
    assert(i / 256 == b && i % 256 == j);
    assert(i / 256 * 84 == 84 * b);
}

/// A format that has the name of a tensor type decodes bytes as that type does.
pub proof fn formats_decode_as_types()
    ensures
        coding_of(GgufDataType::F32) == Some(QuantFormat::FP32.spec_coding()),
        coding_of(GgufDataType::F16) == Some(QuantFormat::FP16.spec_coding()),
        coding_of(GgufDataType::Q8_0) == Some(QuantFormat::Q8_0.spec_coding()),
        coding_of(GgufDataType::Q4_0) == Some(QuantFormat::Q4_0.spec_coding()),
        coding_of(GgufDataType::Q4_K) == Some(QuantFormat::Q4_K.spec_coding()),
        coding_of(GgufDataType::Q2_K) == Some(QuantFormat::Q2_K.spec_coding()),
{
}

/// The elements of a block and its bytes: those of its scales, then those of its codes.
pub open spec fn block_parts(t: GgufDataType) -> Option<(nat, nat)> {
    match t {
        GgufDataType::F32 | GgufDataType::I32 => Some((1, 4)),
        GgufDataType::F16 | GgufDataType::BF16 | GgufDataType::I16 => Some((1, 2)),
        GgufDataType::F64 | GgufDataType::I64 => Some((1, 8)),
        GgufDataType::I8 => Some((1, 1)),
        GgufDataType::Q8_0 => Some((32, 2 + 32)),
        GgufDataType::Q8_1 => Some((32, 2 + 2 + 32)),
        GgufDataType::Q4_0 => Some((32, 2 + 16)),
        GgufDataType::Q4_1 => Some((32, 2 + 2 + 16)),
        GgufDataType::Q5_0 => Some((32, 2 + 4 + 16)),
        GgufDataType::Q5_1 => Some((32, 2 + 2 + 4 + 16)),
        GgufDataType::Q2_K => Some((256, 2 + 2 + 16 + 64)),
        GgufDataType::Q3_K => Some((256, 2 + 12 + 32 + 64)),
        GgufDataType::Q4_K => Some((256, 2 + 2 + 12 + 128)),
        GgufDataType::Q5_K => Some((256, 2 + 2 + 12 + 32 + 128)),
        GgufDataType::Q6_K => Some((256, 2 + 16 + 64 + 128)),
        GgufDataType::Q8_K => Some((256, 4 + 32 + 256)),
        _ => None,
    }
}

/// Elements take the bytes of whole blocks: as many as blocks hold take these blocks, and
/// any that are left over take one more.
pub proof fn elements_take_whole_blocks(
    t: GgufDataType,
    len: nat,
    size: nat,
    blocks: nat,
    rest: nat,
)
    requires
        block_parts(t) == Some((len, size)),
        0 < rest <= len,
    ensures
        t.spec_bytes(0) == 0,
        t.spec_bytes(len * blocks + rest) == size * (blocks + 1),
{
    let n = len * blocks + rest;
    assert(n + len - 1 == (blocks + 1) * len + (rest - 1)) by (nonlinear_arith)
        requires
            n == len * blocks + rest,
    ;
    assert(div_ceil(n, len) == blocks + 1) by {
        vstd::arithmetic::div_mod::lemma_fundamental_div_mod_converse(
            (n + len - 1) as int,
            len as int,
            (blocks + 1) as int,
            rest - 1,
        );
    }
    assert(size * (blocks + 1) == (blocks + 1) * size) by (nonlinear_arith);
    assert(t.spec_layout() == (len, size));
}

} // verus!
