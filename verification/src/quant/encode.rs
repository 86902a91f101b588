//! Writing blocks of quantized weights.
//!
//! The scales and the codes of a block are given; the functions here lay them out
//! in bytes. Each has a law by which decoding gives back what was encoded.

use crate::bytes::{put_u16, u16_at, u16_bytes, u16_round_trip};
use crate::quant::blocks::{
    affine_bits, block_term, crumb, pack_q4_k_scales, q4_k_scale, q4_k_min, q4_k_scale_bytes,
    q4_k_scales_round_trip, WeightCoding, WeightTerm,
};
use crate::quant::packing::{
    lemma_zero_bytes, packed_at, read_after_write, two_to, write_keeps_others, write_packed_bits,
};
use vstd::prelude::*;

verus! {

/// Two four-bit codes in one byte.
pub open spec fn nibbles(low: u8, high: u8) -> u8 {
    (low % 16 + high % 16 * 16) as u8
}

/// Four two-bit codes in one byte.
pub open spec fn crumbs(a: u8, b: u8, c: u8, d: u8) -> u8 {
    (a % 4 + b % 4 * 4 + c % 4 * 16 + d % 4 * 64) as u8
}

/// The first half of the codes in low nibbles, the second in high ones.
pub open spec fn nibble_bytes(codes: Seq<u8>) -> Seq<u8> {
    let half = codes.len() / 2;
    Seq::new(half, |i: int| nibbles(codes[i], codes[i + half]))
}

/// Four codes to a byte.
pub open spec fn crumb_bytes(codes: Seq<u8>) -> Seq<u8> {
    Seq::new(
        codes.len() / 4,
        |i: int| crumbs(codes[4 * i], codes[4 * i + 1], codes[4 * i + 2], codes[4 * i + 3]),
    )
}

pub open spec fn q8_0_block(d: u16, codes: Seq<i8>) -> Seq<u8> {
    u16_bytes(d) + Seq::new(codes.len(), |i: int| codes[i] as u8)
}

pub open spec fn q4_0_block(d: u16, codes: Seq<u8>) -> Seq<u8> {
    u16_bytes(d) + nibble_bytes(codes)
}

pub open spec fn q4_k_block(
    d: u16,
    dmin: u16,
    scales: Seq<u8>,
    mins: Seq<u8>,
    codes: Seq<u8>,
) -> Seq<u8> {
    u16_bytes(d) + u16_bytes(dmin) + q4_k_scale_bytes(scales, mins) + nibble_bytes(codes)
}

pub open spec fn q2_k_block(
    d: u16,
    dmin: u16,
    scales: Seq<u8>,
    mins: Seq<u8>,
    codes: Seq<u8>,
) -> Seq<u8> {
    Seq::new(scales.len(), |k: int| nibbles(scales[k], mins[k])) + crumb_bytes(codes) + u16_bytes(d)
        + u16_bytes(dmin)
}

fn put_nibbles(out: &mut Vec<u8>, codes: &Vec<u8>)
    ensures
        final(out)@ == old(out)@ + nibble_bytes(codes@),
{
    let half: usize = codes.len() / 2;
    let mut i: usize = 0;
    assert(out@ =~= old(out)@ + nibble_bytes(codes@).take(0));
    while i < half
        invariant
            i <= half,
            half == codes@.len() / 2,
            codes@.len() <= usize::MAX,
            out@ == old(out)@ + nibble_bytes(codes@).take(i as int),
        decreases half - i,
    {
        out.push(codes[i] % 16 + codes[i + half] % 16 * 16);
        i += 1;
        assert(out@ =~= old(out)@ + nibble_bytes(codes@).take(i as int));
    }
    assert(nibble_bytes(codes@).take(half as int) =~= nibble_bytes(codes@));
}

/// Appends a block of 32 signed eight-bit codes.
pub fn put_q8_0_block(out: &mut Vec<u8>, d: u16, codes: &Vec<i8>)
    requires
        codes@.len() == 32,
    ensures
        final(out)@ == old(out)@ + q8_0_block(d, codes@),
{
    put_u16(out, d);
    let mut i: usize = 0;
    let ghost tail = Seq::new(codes@.len(), |i: int| codes@[i] as u8);
    assert(out@ =~= old(out)@ + u16_bytes(d) + tail.take(0));
    while i < codes.len()
        invariant
            i <= codes@.len(),
            tail == Seq::new(codes@.len(), |i: int| codes@[i] as u8),
            out@ == old(out)@ + u16_bytes(d) + tail.take(i as int),
        decreases codes@.len() - i,
    {
        out.push(codes[i] as u8);
        i += 1;
        assert(out@ =~= old(out)@ + u16_bytes(d) + tail.take(i as int));
    }
    assert(tail.take(i as int) =~= tail);
    assert(out@ =~= old(out)@ + q8_0_block(d, codes@));
}

/// Appends a block of 32 four-bit codes.
pub fn put_q4_0_block(out: &mut Vec<u8>, d: u16, codes: &Vec<u8>)
    requires
        codes@.len() == 32,
    ensures
        final(out)@ == old(out)@ + q4_0_block(d, codes@),
{
    put_u16(out, d);
    put_nibbles(out, codes);
    assert(out@ =~= old(out)@ + q4_0_block(d, codes@));
}

/// Appends a block of 256 four-bit codes in eight groups.
pub fn put_q4_k_block(
    out: &mut Vec<u8>,
    d: u16,
    dmin: u16,
    scales: &Vec<u8>,
    mins: &Vec<u8>,
    codes: &Vec<u8>,
)
    requires
        scales@.len() == 8,
        mins@.len() == 8,
        codes@.len() == 256,
    ensures
        final(out)@ == old(out)@ + q4_k_block(d, dmin, scales@, mins@, codes@),
{
    put_u16(out, d);
    put_u16(out, dmin);
    let mut packed = pack_q4_k_scales(scales, mins);
    out.append(&mut packed);
    put_nibbles(out, codes);
    assert(out@ =~= old(out)@ + q4_k_block(d, dmin, scales@, mins@, codes@));
}

/// Appends a block of 256 two-bit codes in sixteen groups.
pub fn put_q2_k_block(
    out: &mut Vec<u8>,
    d: u16,
    dmin: u16,
    scales: &Vec<u8>,
    mins: &Vec<u8>,
    codes: &Vec<u8>,
)
    requires
        scales@.len() == 16,
        mins@.len() == 16,
        codes@.len() == 256,
    ensures
        final(out)@ == old(out)@ + q2_k_block(d, dmin, scales@, mins@, codes@),
{
    let ghost head = Seq::new(scales@.len(), |k: int| nibbles(scales@[k], mins@[k]));
    let mut k: usize = 0;
    assert(out@ =~= old(out)@ + head.take(0));
    while k < 16
        invariant
            k <= 16,
            scales@.len() == 16,
            mins@.len() == 16,
            head == Seq::new(scales@.len(), |k: int| nibbles(scales@[k], mins@[k])),
            out@ == old(out)@ + head.take(k as int),
        decreases 16 - k,
    {
        out.push(scales[k] % 16 + mins[k] % 16 * 16);
        k += 1;
        assert(out@ =~= old(out)@ + head.take(k as int));
    }
    assert(head.take(16) =~= head);
    let ghost body = crumb_bytes(codes@);
    let mut i: usize = 0;
    assert(out@ =~= old(out)@ + head + body.take(0));
    while i < 64
        invariant
            i <= 64,
            codes@.len() == 256,
            body == crumb_bytes(codes@),
            out@ == old(out)@ + head + body.take(i as int),
        decreases 64 - i,
    {
        let at: usize = 4 * i;
        out.push(
            codes[at] % 4 + codes[at + 1] % 4 * 4 + codes[at + 2] % 4 * 16 + codes[at + 3] % 4 * 64,
        );
        i += 1;
        assert(out@ =~= old(out)@ + head + body.take(i as int));
    }
    assert(body.take(64) =~= body);
    put_u16(out, d);
    put_u16(out, dmin);
    assert(out@ =~= old(out)@ + q2_k_block(d, dmin, scales@, mins@, codes@));
}

/// Appends a block of 32 codes of three, five or six bits.
pub fn put_affine_block(
    out: &mut Vec<u8>,
    coding: WeightCoding,
    low: u16,
    step: u16,
    codes: &Vec<u32>,
)
    requires
        coding == WeightCoding::Affine3 || coding == WeightCoding::Affine5 || coding
            == WeightCoding::Affine6,
        codes@.len() == 32,
        forall|j: int| 0 <= j < 32 ==> #[trigger] codes@[j] < two_to(affine_bits(coding)),
    ensures
        ({
            let from = old(out)@.len() as int;
            let packed = final(out)@.skip(from + 4);
            &&& final(out)@.take(from + 4) == old(out)@ + u16_bytes(low) + u16_bytes(step)
            &&& final(out)@.len() == from + coding.spec_size()
            &&& forall|j: int|
                0 <= j < 32 ==> packed_at(packed, j, affine_bits(coding)) == #[trigger] codes@[j]
        }),
{
    put_u16(out, low);
    put_u16(out, step);
    let bits: u32 = match coding {
        WeightCoding::Affine3 => 3,
        WeightCoding::Affine5 => 5,
        _ => 6,
    };
    let len: usize = 4 * bits as usize;
    let mut packed: Vec<u8> = Vec::new();
    let mut k: usize = 0;
    while k < len
        invariant
            k <= len,
            packed@.len() == k,
            forall|i: int| 0 <= i < k ==> packed@[i] == 0,
        decreases len - k,
    {
        packed.push(0);
        k += 1;
    }
    assert forall|i: int| 0 <= i < 32 implies packed_at(packed@, i, bits as nat) == 0 by {
        lemma_zero_bytes(packed@, i * bits, bits as nat);
    }
    let mut j: usize = 0;
    while j < 32
        invariant
            j <= 32,
            codes@.len() == 32,
            3 <= bits <= 6,
            bits == affine_bits(coding),
            len == 4 * bits,
            packed@.len() == len,
            forall|i: int| 0 <= i < 32 ==> #[trigger] codes@[i] < two_to(bits as nat),
            forall|i: int| 0 <= i < j ==> packed_at(packed@, i, bits as nat) == #[trigger] codes@[i],
            forall|i: int| j <= i < 32 ==> packed_at(packed@, i, bits as nat) == 0,
        decreases 32 - j,
    {
        let ghost before = packed@;
        assert(j * bits + bits <= 32 * bits) by (nonlinear_arith)
            requires
                j < 32,
        ;
        write_packed_bits(&mut packed, j, bits, codes[j]);
        proof {
            read_after_write(before, packed@, j as int, bits as nat, codes@[j as int]);
            assert forall|i: int| 0 <= i < j implies packed_at(packed@, i, bits as nat)
                == #[trigger] codes@[i] by {
                write_keeps_others(before, packed@, j as int, bits as nat, codes@[j as int], i);
            }
            assert forall|i: int| j < i < 32 implies packed_at(packed@, i, bits as nat) == 0 by {
                write_keeps_others(before, packed@, j as int, bits as nat, codes@[j as int], i);
                assert(packed_at(before, i, bits as nat) == 0);
            }
        }
        j += 1;
    }
    let ghost done = packed@;
    out.append(&mut packed);
    assert(out@.skip(old(out)@.len() as int + 4) =~= done);
    assert(out@.take(old(out)@.len() as int + 4) =~= old(out)@ + u16_bytes(low) + u16_bytes(step));
}

/// Decoding gives back the codes and the scale of a block of eight-bit codes.
pub proof fn q8_0_round_trip(before: Seq<u8>, d: u16, codes: Seq<i8>, after: Seq<u8>, j: int)
    requires
        codes.len() == 32,
        0 <= j < 32,
    ensures
        block_term(
            WeightCoding::Q8_0,
            before + q8_0_block(d, codes) + after,
            before.len() as int,
            j,
        ) == (WeightTerm::Product { signed: codes[j], d }),
{
    let rest = Seq::new(32, |i: int| codes[i] as u8);
    let data = before + q8_0_block(d, codes) + after;
    u16_round_trip(before, d, rest + after);
    assert(data =~= before + u16_bytes(d) + (rest + after));
    assert(data[before.len() + 2 + j] == codes[j] as u8);
    let c = codes[j];
    assert((c as u8) as i8 == c) by (bit_vector);
}

proof fn lemma_nibble_bytes(codes: Seq<u8>, j: int)
    requires
        codes.len() % 2 == 0,
        0 <= j < codes.len(),
        codes[j] < 16,
    ensures
        ({
            let half = codes.len() as int / 2;
            let bytes = nibble_bytes(codes);
            if j < half {
                bytes[j] % 16 == codes[j]
            } else {
                bytes[j - half] / 16 == codes[j]
            }
        }),
{
    let half = codes.len() as int / 2;
    let i = if j < half {
        j
    } else {
        j - half
    };
    let (a, b) = (codes[i], codes[i + half]);
    assert((a % 16 + b % 16 * 16) as u8 % 16 == a % 16);
    assert((a % 16 + b % 16 * 16) as u8 / 16 == b % 16);
}

/// Decoding gives back the codes and the scale of a block of four-bit codes, less
/// the offset of eight.
pub proof fn q4_0_round_trip(before: Seq<u8>, d: u16, codes: Seq<u8>, after: Seq<u8>, j: int)
    requires
        codes.len() == 32,
        0 <= j < 32,
        codes[j] < 16,
    ensures
        block_term(
            WeightCoding::Q4_0,
            before + q4_0_block(d, codes) + after,
            before.len() as int,
            j,
        ) == (WeightTerm::Product { signed: (codes[j] - 8) as i8, d }),
{
    let rest = nibble_bytes(codes);
    let data = before + q4_0_block(d, codes) + after;
    u16_round_trip(before, d, rest + after);
    assert(data =~= before + u16_bytes(d) + (rest + after));
    lemma_nibble_bytes(codes, j);
    if j < 16 {
        assert(data[before.len() + 2 + j] == rest[j]);
    } else {
        assert(data[before.len() + 2 + j - 16] == rest[j - 16]);
    }
}

/// Decoding gives back the codes, scales and minima of a block of four-bit codes
/// in groups.
pub proof fn q4_k_round_trip(
    before: Seq<u8>,
    d: u16,
    dmin: u16,
    scales: Seq<u8>,
    mins: Seq<u8>,
    codes: Seq<u8>,
    after: Seq<u8>,
    j: int,
)
    requires
        scales.len() == 8,
        mins.len() == 8,
        forall|k: int| 0 <= k < 8 ==> scales[k] < 64 && mins[k] < 64,
        codes.len() == 256,
        0 <= j < 256,
        codes[j] < 16,
    ensures
        block_term(
            WeightCoding::Q4_K,
            before + q4_k_block(d, dmin, scales, mins, codes) + after,
            before.len() as int,
            j,
        ) == (WeightTerm::Offset {
            d,
            scale: scales[j / 32],
            code: codes[j],
            dmin,
            min: mins[j / 32],
        }),
{
    let packed = q4_k_scale_bytes(scales, mins);
    let rest = nibble_bytes(codes);
    let data = before + q4_k_block(d, dmin, scales, mins, codes) + after;
    let b = before.len() as int;
    u16_round_trip(before, d, u16_bytes(dmin) + packed + rest + after);
    assert(data =~= before + u16_bytes(d) + (u16_bytes(dmin) + packed + rest + after));
    u16_round_trip(before + u16_bytes(d), dmin, packed + rest + after);
    assert(data =~= (before + u16_bytes(d)) + u16_bytes(dmin) + (packed + rest + after));
    q4_k_scales_round_trip(scales, mins);
    assert forall|i: int| 0 <= i < 12 implies data[b + 4 + i] == packed[i] by {}
    assert(q4_k_scale(data, b + 4, j / 32) == q4_k_scale(packed, 0, j / 32));
    assert(q4_k_min(data, b + 4, j / 32) == q4_k_min(packed, 0, j / 32));
    lemma_nibble_bytes(codes, j);
    if j < 128 {
        assert(data[b + 16 + j] == rest[j]);
    } else {
        assert(data[b + 16 + j - 128] == rest[j - 128]);
    }
}

proof fn lemma_crumbs(a: u8, b: u8, c: u8, d: u8)
    requires
        a < 4,
        b < 4,
        c < 4,
        d < 4,
    ensures
        crumb(crumbs(a, b, c, d), 0) == a,
        crumb(crumbs(a, b, c, d), 1) == b,
        crumb(crumbs(a, b, c, d), 2) == c,
        crumb(crumbs(a, b, c, d), 3) == d,
{
}

proof fn lemma_crumb_bytes(codes: Seq<u8>, j: int)
    requires
        codes.len() == 256,
        0 <= j < 256,
        forall|i: int| 0 <= i < 256 ==> codes[i] < 4,
    ensures
        crumb(crumb_bytes(codes)[j / 4], j % 4) == codes[j],
{
    let i = j / 4;
    lemma_crumbs(codes[4 * i], codes[4 * i + 1], codes[4 * i + 2], codes[4 * i + 3]);
    assert(crumb_bytes(codes)[i] == crumbs(
        codes[4 * i],
        codes[4 * i + 1],
        codes[4 * i + 2],
        codes[4 * i + 3],
    ));
    assert(j == 4 * i + j % 4);
}

proof fn lemma_nibble_pair(low: u8, high: u8)
    requires
        low < 16,
        high < 16,
    ensures
        nibbles(low, high) % 16 == low,
        nibbles(low, high) / 16 == high,
{
}

/// Decoding gives back the codes, scales and minima of a block of two-bit codes in
/// groups.
pub proof fn q2_k_round_trip(
    before: Seq<u8>,
    d: u16,
    dmin: u16,
    scales: Seq<u8>,
    mins: Seq<u8>,
    codes: Seq<u8>,
    after: Seq<u8>,
    j: int,
)
    requires
        scales.len() == 16,
        mins.len() == 16,
        forall|k: int| 0 <= k < 16 ==> scales[k] < 16 && mins[k] < 16,
        codes.len() == 256,
        0 <= j < 256,
        forall|i: int| 0 <= i < 256 ==> codes[i] < 4,
    ensures
        block_term(
            WeightCoding::Q2_K,
            before + q2_k_block(d, dmin, scales, mins, codes) + after,
            before.len() as int,
            j,
        ) == (WeightTerm::Offset {
            d,
            scale: scales[j / 16],
            code: codes[j],
            dmin,
            min: mins[j / 16],
        }),
{
    let head = Seq::new(scales.len(), |k: int| nibbles(scales[k], mins[k]));
    let body = crumb_bytes(codes);
    let data = before + q2_k_block(d, dmin, scales, mins, codes) + after;
    let b = before.len() as int;
    u16_round_trip(before + head + body, d, u16_bytes(dmin) + after);
    assert(data =~= (before + head + body) + u16_bytes(d) + (u16_bytes(dmin) + after));
    u16_round_trip(before + head + body + u16_bytes(d), dmin, after);
    assert(data =~= (before + head + body + u16_bytes(d)) + u16_bytes(dmin) + after);
    let k = j / 16;
    assert(data[b + k] == head[k]);
    lemma_nibble_pair(scales[k], mins[k]);
    lemma_crumb_bytes(codes, j);
    assert(data[b + 16 + j / 4] == body[j / 4]);
}

/// Decoding gives back the codes and the scale of an affine block, given the bytes
/// that [`put_affine_block`] appends.
pub proof fn affine_round_trip(
    coding: WeightCoding,
    data: Seq<u8>,
    base: int,
    low: u16,
    step: u16,
    codes: Seq<u32>,
    j: int,
)
    requires
        coding == WeightCoding::Affine3 || coding == WeightCoding::Affine5 || coding
            == WeightCoding::Affine6,
        0 <= base,
        base + coding.spec_size() <= data.len(),
        data.subrange(base, base + 4) == u16_bytes(low) + u16_bytes(step),
        packed_at(data.subrange(base + 4, base + coding.spec_size()), j, affine_bits(coding))
            == codes[j],
    ensures
        block_term(coding, data, base, j) == (WeightTerm::Affine { low, level: codes[j], step }),
{
    let head = u16_bytes(low) + u16_bytes(step);
    u16_round_trip(seq![], low, u16_bytes(step));
    assert(seq![] + u16_bytes(low) + u16_bytes(step) =~= head);
    u16_round_trip(u16_bytes(low), step, seq![]);
    assert(u16_bytes(low) + u16_bytes(step) + seq![] =~= head);
    let start = data.subrange(base, base + 4);
    assert(start[0] == data[base] && start[1] == data[base + 1] && start[2] == data[base + 2]
        && start[3] == data[base + 3]);
    assert(u16_at(data, base) == u16_at(head, 0));
    assert(u16_at(data, base + 2) == u16_at(head, 2));
}

} // verus!
