//! Laws of packed numbers, formats and codebooks.

use crate::quant::blocks::{decoded, decoded_len, weight_term, WeightCoding};
use crate::quant::codebook::{
    code_at, codebook_of, codes_held, decoded_levels, even_levels, CodebookView,
};
use crate::quant::engine::{kv_memory, with_codebook, with_rotation, RotationView};
use crate::quant::formats::{GroupSize, KvQuantType, QuantFormat};
use crate::quant::packing::{bit_at, bits_from, packed_at, two_to};
use crate::text::decimal;
use vstd::prelude::*;

verus! {

/// The number that digits of a base stand for, the first one for ones.
pub open spec fn in_base(digits: Seq<nat>, base: nat) -> nat
    decreases digits.len(),
{
    if digits.len() == 0 {
        0
    } else {
        digits[0] + base * in_base(digits.skip(1), base)
    }
}

/// The first `n` numbers of `bits` bits from place `i` on.
pub open spec fn packed_numbers(data: Seq<u8>, bits: nat, i: int, n: nat) -> Seq<nat> {
    Seq::new(n, |k: int| packed_at(data, i + k, bits))
}

/// Bytes as numbers.
pub open spec fn byte_digits(data: Seq<u8>) -> Seq<nat> {
    Seq::new(data.len(), |k: int| data[k] as nat)
}

proof fn lemma_two_to_add(a: nat, b: nat)
    ensures
        two_to(a + b) == two_to(a) * two_to(b),
    decreases a,
{
    if a > 0 {
        lemma_two_to_add((a - 1) as nat, b);
        let (x, y) = (two_to((a - 1) as nat), two_to(b));
        assert(2 * (x * y) == (2 * x) * y) by (nonlinear_arith);
        assert((a + b - 1) as nat == (a - 1) as nat + b);
    } else {
        assert(1 * two_to(b) == two_to(b)) by (nonlinear_arith);
    }
}

/// Bits in two runs.
proof fn lemma_bits_split(data: Seq<u8>, from: int, n: nat, m: nat)
    ensures
        bits_from(data, from, n + m) == bits_from(data, from, n) + two_to(n) * bits_from(
            data,
            from + n,
            m,
        ),
    decreases n,
{
    if n > 0 {
        lemma_bits_split(data, from + 1, (n - 1) as nat, m);
        let t = two_to((n - 1) as nat);
        let rest = bits_from(data, from + n, m);
        assert(2 * (t * rest) == (2 * t) * rest) by (nonlinear_arith);
        assert((n + m - 1) as nat == (n - 1) as nat + m);
    } else {
        assert(1 * bits_from(data, from, m) == bits_from(data, from, m)) by (nonlinear_arith);
    }
}

proof fn lemma_byte_bits(x: u8)
    ensures
        ((x >> 0u8) & 1) + 2 * ((x >> 1u8) & 1) + 4 * ((x >> 2u8) & 1) + 8 * ((x >> 3u8) & 1) + 16
            * ((x >> 4u8) & 1) + 32 * ((x >> 5u8) & 1) + 64 * ((x >> 6u8) & 1) + 128 * ((x >> 7u8)
            & 1) == x,
        forall|k: u8| k < 8 ==> (#[trigger] (x >> k) & 1) == 0 || (x >> k) & 1 == 1,
{
    assert(((x >> 0u8) & 1) + 2 * ((x >> 1u8) & 1) + 4 * ((x >> 2u8) & 1) + 8 * ((x >> 3u8) & 1)
        + 16 * ((x >> 4u8) & 1) + 32 * ((x >> 5u8) & 1) + 64 * ((x >> 6u8) & 1) + 128 * ((x
        >> 7u8) & 1) == x) by (bit_vector);
    assert forall|k: u8| k < 8 implies (#[trigger] (x >> k) & 1) == 0 || (x >> k) & 1 == 1 by {
        assert((x >> k) & 1 == 0 || (x >> k) & 1 == 1) by (bit_vector)
            requires
                k < 8,
        ;
    }
}

/// The eight bits of a byte are the byte.
proof fn lemma_one_byte(data: Seq<u8>, p: int)
    requires
        0 <= p < data.len(),
    ensures
        bits_from(data, 8 * p, 8) == data[p],
{
    let x = data[p];
    lemma_byte_bits(x);
    reveal_with_fuel(bits_from, 9);
    assert(8 * p / 8 == p && (8 * p + 1) / 8 == p && (8 * p + 2) / 8 == p && (8 * p + 3) / 8 == p
        && (8 * p + 4) / 8 == p && (8 * p + 5) / 8 == p && (8 * p + 6) / 8 == p && (8 * p + 7) / 8
        == p);
    assert(8 * p % 8 == 0 && (8 * p + 1) % 8 == 1 && (8 * p + 2) % 8 == 2 && (8 * p + 3) % 8 == 3
        && (8 * p + 4) % 8 == 4 && (8 * p + 5) % 8 == 5 && (8 * p + 6) % 8 == 6 && (8 * p + 7) % 8
        == 7);
    assert(bit_at(data, 8 * p) == ((x >> 0u8) & 1 == 1));
    assert(bit_at(data, 8 * p + 1) == ((x >> 1u8) & 1 == 1));
    assert(bit_at(data, 8 * p + 2) == ((x >> 2u8) & 1 == 1));
    assert(bit_at(data, 8 * p + 3) == ((x >> 3u8) & 1 == 1));
    assert(bit_at(data, 8 * p + 4) == ((x >> 4u8) & 1 == 1));
    assert(bit_at(data, 8 * p + 5) == ((x >> 5u8) & 1 == 1));
    assert(bit_at(data, 8 * p + 6) == ((x >> 6u8) & 1 == 1));
    assert(bit_at(data, 8 * p + 7) == ((x >> 7u8) & 1 == 1));
}

proof fn lemma_bytes_number(data: Seq<u8>, p: int, n: nat)
    requires
        0 <= p,
        p + n <= data.len(),
    ensures
        in_base(byte_digits(data.subrange(p, p + n)), 256) == bits_from(data, 8 * p, 8 * n),
    decreases n,
{
    let digits = byte_digits(data.subrange(p, p + n));
    if n > 0 {
        lemma_one_byte(data, p);
        lemma_bytes_number(data, p + 1, (n - 1) as nat);
        lemma_bits_split(data, 8 * p, 8, (8 * (n - 1)) as nat);
        assert(two_to(8) == 256) by {
            reveal_with_fuel(two_to, 9);
        }
        assert(digits.skip(1) =~= byte_digits(data.subrange(p + 1, p + n)));
        assert((8 * n) as nat == 8 + (8 * (n - 1)) as nat);
    }
}

proof fn lemma_packed_number(data: Seq<u8>, bits: nat, i: int, n: nat)
    ensures
        in_base(packed_numbers(data, bits, i, n), two_to(bits)) == bits_from(
            data,
            i * bits,
            bits * n,
        ),
    decreases n,
{
    let digits = packed_numbers(data, bits, i, n);
    if n > 0 {
        lemma_packed_number(data, bits, i + 1, (n - 1) as nat);
        let rest = (bits * (n - 1)) as nat;
        assert(bits * n == bits + rest) by (nonlinear_arith)
            requires
                rest == bits * (n - 1),
        ;
        assert(0 <= bits * (n - 1)) by (nonlinear_arith)
            requires
                n >= 1,
        ;
        lemma_bits_split(data, i * bits, bits, rest);
        assert(i * bits + bits == (i + 1) * bits) by (nonlinear_arith);
        assert(digits.skip(1) =~= packed_numbers(data, bits, i + 1, (n - 1) as nat));
    } else {
        assert(bits * 0 == 0) by (nonlinear_arith);
    }
}

/// Packed numbers are the digits of the number that the bytes stand for: eight of them
/// make up as many bytes as each has bits, the first in the lowest bits.
pub proof fn packed_numbers_make_up_bytes(data: Seq<u8>, bits: nat, q: nat)
    requires
        bits * (q + 1) <= data.len(),
    ensures
        in_base(packed_numbers(data, bits, (8 * q) as int, 8), two_to(bits)) == in_base(
            byte_digits(data.subrange((bits * q) as int, (bits * (q + 1)) as int)),
            256,
        ),
        forall|k: int|
            0 <= k < 8 ==> (#[trigger] packed_numbers(data, bits, (8 * q) as int, 8)[k]) < two_to(
                bits,
            ),
{
    let p = (bits * q) as int;
    assert(bits * (q + 1) == bits * q + bits) by (nonlinear_arith);
    lemma_packed_number(data, bits, (8 * q) as int, 8);
    lemma_bytes_number(data, p, bits);
    assert((8 * q) * bits == 8 * (bits * q) && bits * 8 == 8 * bits) by (nonlinear_arith);
    assert forall|k: int| 0 <= k < 8 implies (#[trigger] packed_numbers(
        data,
        bits,
        (8 * q) as int,
        8,
    )[k]) < two_to(bits) by {
        lemma_bound(data, (8 * q + k) * bits, bits);
    }
}

proof fn lemma_bound(data: Seq<u8>, from: int, n: nat)
    ensures
        bits_from(data, from, n) < two_to(n),
    decreases n,
{
    if n > 0 {
        lemma_bound(data, from + 1, (n - 1) as nat);
    }
}

/// A weight of an evenly spaced format has the lowest value and the step at the start of
/// its block, and its level among the packed numbers behind them.
pub proof fn affine_weights_have_levels(f: QuantFormat, data: Seq<u8>, n: int, b: int, j: int)
    requires
        f == QuantFormat::Q3_K || f == QuantFormat::Q5_0 || f == QuantFormat::Q5_1 || f
            == QuantFormat::Q5_K || f == QuantFormat::Q6_K,
        0 <= b,
        0 <= j < 32,
        32 * b + j < n,
        (4 + 4 * f.spec_bits()) * (b + 1) <= data.len(),
    ensures
        ({
            let bits = f.spec_bits() as nat;
            let at = (4 + 4 * bits) * b;
            let ws = decoded(f.spec_coding(), data, n);
            &&& 32 * b + j < ws.len()
            &&& ws[32 * b + j] is Affine
            &&& ws[32 * b + j]->low == data[at] + 256 * data[at + 1]
            &&& ws[32 * b + j]->step == data[at + 2] + 256 * data[at + 3]
            &&& ws[32 * b + j]->level == packed_at(
                data.subrange(at + 4, at + 4 + 4 * bits),
                j,
                bits,
            )
        }),
{
    let c = f.spec_coding();
    let bits = f.spec_bits() as nat;
    let size = c.spec_size();
    let at = (4 + 4 * bits) * b;
    assert(size == 4 + 4 * bits);
    let i = 32 * b + j;
    let held = data.len() as int / size;
    assert(held >= b + 1) by (nonlinear_arith)
        requires
            held == data.len() as int / size,
            size * (b + 1) <= data.len(),
            size > 0,
    ;
    assert(decoded_len(c, data.len() as int, n) > i);
    assert(i / 32 == b && i % 32 == j);
    assert(b * size == size * b) by (nonlinear_arith);
    assert(decoded(c, data, n)[i] == weight_term(c, data, i));
    lemma_bound(data.subrange(at + 4, at + 4 + 4 * bits), j * bits, bits);
    assert(two_to(bits) <= 64) by {
        reveal_with_fuel(two_to, 7);
    }
}

/// Formats have the bits that their names tell: those of quantized weights behind the
/// letter, those of floating-point numbers at the end.
pub proof fn names_tell_bits(f: QuantFormat)
    ensures
        ({
            let name = f.spec_name();
            let bits = f.spec_bits();
            ||| f is MXFP4 && name[4] as int - '0' as int == bits
            ||| f is FP16 && name[2] as int - '0' as int == bits / 10 && name[3] as int - '0' as int
                == bits % 10
            ||| f is FP32 && name[2] as int - '0' as int == bits / 10 && name[3] as int - '0' as int
                == bits % 10
            ||| name[0] == 'Q' && name[1] as int - '0' as int == bits
        }),
{
    reveal_strlit("Q2_K");
    reveal_strlit("Q3_K");
    reveal_strlit("Q4_0");
    reveal_strlit("Q4_1");
    reveal_strlit("Q4_K");
    reveal_strlit("Q5_0");
    reveal_strlit("Q5_1");
    reveal_strlit("Q5_K");
    reveal_strlit("Q6_K");
    reveal_strlit("Q8_0");
    reveal_strlit("Q8_K");
    reveal_strlit("MXFP4");
    reveal_strlit("FP16");
    reveal_strlit("FP32");
}

/// How many bits a weight has of its own in a coding.
pub open spec fn own_bits(c: WeightCoding) -> int {
    match c {
        WeightCoding::F32 => 32,
        WeightCoding::F16 | WeightCoding::BF16 => 16,
        WeightCoding::Q8_0 => 8,
        WeightCoding::Q4_0 | WeightCoding::Q4_K => 4,
        WeightCoding::Q2_K => 2,
        WeightCoding::Affine3 => 3,
        WeightCoding::Affine5 => 5,
        WeightCoding::Affine6 => 6,
    }
}

/// A format is laid out with the bits that its weights have, and a block has the bits of
/// its weights and some for what they share.
pub proof fn formats_are_laid_out_by_bits(f: QuantFormat)
    ensures
        own_bits(f.spec_coding()) == f.spec_bits(),
        8 * f.spec_coding().spec_size() >= f.spec_coding().spec_len() * f.spec_bits(),
{
}

/// Kinds of cache quantization have the bits that their names tell: first those of a key,
/// then those of a value.
pub proof fn cache_names_tell_bits(t: KvQuantType)
    ensures
        ({
            let name = t.spec_name();
            let (key, val) = (t.spec_key_bits(), t.spec_val_bits());
            ||| t is Unquantized && key == 16 && val == 16
            ||| name.len() == 7 && name[3] as int - '0' as int == key && name[5] as int - '0' as int
                == val
            ||| name.len() == 8 && name[7] as int - '0' as int == key && key == val
        }),
{
    reveal_strlit("none");
    reveal_strlit("tq_3b2b");
    reveal_strlit("tq_3b4b");
    reveal_strlit("tq_4b4b");
    reveal_strlit("block_q4");
    reveal_strlit("block_q6");
}

/// A kind of cache quantization is found by its long name as by its short one, and none by
/// two names of floating-point numbers.
pub proof fn long_cache_names_are_found()
    ensures
        KvQuantType::named("turboquant_3b2b"@) == KvQuantType::named("tq_3b2b"@),
        KvQuantType::named("turboquant_3b4b"@) == KvQuantType::named("tq_3b4b"@),
        KvQuantType::named("turboquant_4b4b"@) == KvQuantType::named("tq_4b4b"@),
        KvQuantType::named("fp16"@) == KvQuantType::named("none"@),
        KvQuantType::named("bf16"@) == KvQuantType::named("none"@),
{
    reveal_strlit("none");
    reveal_strlit("bf16");
    reveal_strlit("fp16");
    reveal_strlit("tq_3b2b");
    reveal_strlit("turboquant_3b2b");
    reveal_strlit("tq_3b4b");
    reveal_strlit("turboquant_3b4b");
    reveal_strlit("tq_4b4b");
    reveal_strlit("turboquant_4b4b");
    let (a, b, c) = ("tq_3b2b"@, "tq_3b4b"@, "tq_4b4b"@);
    let (d, e, f) = ("turboquant_3b2b"@, "turboquant_3b4b"@, "turboquant_4b4b"@);
    assert(a[5] == '2' && b[5] == '4' && c[5] == '4' && a[3] == '3' && b[3] == '3' && c[3] == '4');
    assert(a.len() == 7 && b.len() == 7 && c.len() == 7 && d.len() == 15 && e.len() == 15 && f.len()
        == 15);
    assert("none"@.len() == 4 && "bf16"@.len() == 4 && "fp16"@.len() == 4);
    assert(d[13] == '2' && e[13] == '4' && f[13] == '4' && d[11] == '3' && e[11] == '3' && f[11]
        == '4');
    assert(d != e && d != f && e != f && a != b && a != c && b != c);
}

/// A group size is found by its decimal notation.
pub proof fn group_sizes_are_found(g: GroupSize)
    ensures
        GroupSize::named(decimal(g.spec_value() as nat)) == Some(g),
{
    reveal_strlit("32");
    reveal_strlit("64");
    reveal_strlit("128");
    reveal_strlit("256");
    reveal_with_fuel(decimal, 3);
    assert(decimal(32) =~= "32"@);
    assert(decimal(64) =~= "64"@);
    assert(decimal(128) =~= "128"@);
    assert(decimal(256) =~= "256"@);
    assert("32"@[0] == '3' && "64"@[0] == '6' && "128"@[0] == '1' && "256"@[0] == '2');
}

/// The levels of a codebook stand at even distances and lie around zero: each is as far
/// from the next as any other, and opposite places have opposite levels.
pub proof fn levels_lie_around_zero(bits: u32, i: int)
    requires
        bits < 32,
        0 <= i < two_to(bits as nat),
    ensures
        even_levels(bits).len() == two_to(bits as nat),
        even_levels(bits)[i] == -even_levels(bits)[two_to(bits as nat) - 1 - i],
        i + 1 < two_to(bits as nat) ==> even_levels(bits)[i + 1] - even_levels(bits)[i] == 2,
        -two_to(bits as nat) < even_levels(bits)[i] < two_to(bits as nat),
{
    assert(two_to(31) == 0x8000_0000) by {
        reveal_with_fuel(two_to, 33);
    }
    lemma_two_to_mono(bits as nat, 31);
}

proof fn lemma_two_to_mono(a: nat, b: nat)
    requires
        a <= b,
    ensures
        0 < two_to(a) <= two_to(b),
    decreases b,
{
    if a < b {
        lemma_two_to_mono(a, (b - 1) as nat);
    } else if a > 0 {
        lemma_two_to_mono((a - 1) as nat, (a - 1) as nat);
    }
}

/// Bytes decode to the levels of the codes in them, as many as are asked for where the
/// bytes hold as many.
pub proof fn codes_decode_to_levels(bits: u32, dim: usize, data: Seq<u8>, wanted: nat, i: int)
    requires
        bits == 2 || bits == 3 || bits == 4,
        0 <= i < wanted,
        wanted * bits <= 8 * data.len(),
    ensures
        decoded_levels(codebook_of(bits, dim), data, wanted).len() == wanted,
        packed_at(data, i, bits as nat) < two_to(bits as nat),
        decoded_levels(codebook_of(bits, dim), data, wanted)[i] == 2 * packed_at(
            data,
            i,
            bits as nat,
        ) + 1 - two_to(bits as nat),
        codes_held(bits, data.len()) * bits <= 8 * data.len() < (codes_held(bits, data.len()) + 1)
            * bits,
{
    lemma_bound(data, i * bits, bits as nat);
    assert(two_to(2) == 4 && two_to(3) == 8 && two_to(4) == 16) by {
        reveal_with_fuel(two_to, 5);
    }
    assert(code_at(bits, data, i) == packed_at(data, i, bits as nat));
}

/// A cache takes the bits of a key and a value for each element of every layer and token:
/// sixteen each where it is not quantized, and else those of its kind, in whole bytes.
pub proof fn caches_take_their_bits(kv_quant: KvQuantType, layers: nat, head_dim: nat, seq_len: nat)
    ensures
        ({
            let elements = layers * head_dim * seq_len;
            let bytes = kv_memory(kv_quant, layers, head_dim, seq_len);
            if kv_quant is Unquantized {
                8 * bytes == elements * (16 + 16)
            } else {
                let bits = elements * (kv_quant.spec_key_bits() + kv_quant.spec_val_bits());
                8 * bytes >= bits && 8 * (bytes - 1) < bits
            }
        }),
{
    let elements = layers * head_dim * seq_len;
    let each = kv_quant.spec_key_bits() + kv_quant.spec_val_bits();
    assert(elements * each == elements * (each as nat) && elements * each >= 0)
        by (nonlinear_arith)
        requires
            each >= 0,
    ;
    let bits = elements * (each as nat);
    assert(crate::gguf::types::div_ceil(bits, 8) == (bits + 7) / 8);
    assert(layers * 2 * head_dim * seq_len * 2 == elements * 4) by (nonlinear_arith)
        requires
            elements == layers * head_dim * seq_len,
    ;
}

/// Sixteen times a single-precision number of at least a sixteenth and at most one, where
/// that is whole.
pub open spec fn sixteenths(bits: u32) -> int {
    let significand = 0x80_0000 + bits % 0x80_0000;
    match bits / 0x80_0000 {
        123 => significand / 0x80_0000,
        124 => 2 * significand / 0x80_0000,
        125 => 4 * significand / 0x80_0000,
        126 => 8 * significand / 0x80_0000,
        _ => 16 * significand / 0x80_0000,
    }
}

/// Quantized weights take as many sixteenths of the nominal size as they have bits;
/// floating-point numbers of half the width take a half.
pub proof fn ratios_go_by_bits(f: QuantFormat)
    ensures
        !(f is FP16) && !(f is FP32) ==> sixteenths(f.spec_compression_ratio()) == f.spec_bits(),
        f is FP16 || f is FP32 ==> 2 * sixteenths(f.spec_compression_ratio()) == f.spec_bits(),
        123 <= f.spec_compression_ratio() / 0x80_0000 <= 127,
{
}

/// A codebook that is there is not made again, and a new one comes behind the others.
pub proof fn codebooks_are_made_once(books: Seq<CodebookView>, bits: u32, dim: usize)
    ensures
        with_codebook(books, bits, dim).contains(codebook_of(bits, dim)),
        books.contains(codebook_of(bits, dim)) ==> with_codebook(books, bits, dim) == books,
        !books.contains(codebook_of(bits, dim)) ==> with_codebook(books, bits, dim).len()
            == books.len() + 1,
        with_codebook(books, bits, dim).take(books.len() as int) == books,
{
    let all = with_codebook(books, bits, dim);
    assert(all.take(books.len() as int) =~= books);
    if !books.contains(codebook_of(bits, dim)) {
        assert(all[books.len() as int] == codebook_of(bits, dim));
    }
}

/// A matrix stands at the layer that it was set for. Other layers keep theirs, and layers
/// that are new have zeros.
pub proof fn layers_have_their_rotations(
    all: Seq<RotationView>,
    layer: int,
    rotation: RotationView,
    i: int,
)
    requires
        0 <= layer,
        0 <= i,
    ensures
        ({
            let r = with_rotation(all, layer, rotation);
            &&& r.len() > layer
            &&& r.len() == all.len() || r.len() == layer + 1
            &&& r.len() >= all.len()
            &&& r[layer] == rotation
            &&& i < all.len() && i != layer ==> r[i] == all[i]
            &&& all.len() <= i < layer ==> r[i].dim == rotation.dim && r[i].data.len()
                == rotation.dim * rotation.dim && forall|j: int|
                0 <= j < r[i].data.len() ==> r[i].data[j] == 0
        }),
{
    let d = rotation.dim as int;
    assert(d * d >= 0) by (nonlinear_arith);
}

} // verus!
