//! Numbers of a few bits each, packed one behind the other into bytes.

use crate::gguf::types::{blocks_for, div_ceil};
use vstd::prelude::*;

verus! {

/// Bit `k` of packed bytes, counted from the lowest bit of the first byte. Beyond
/// the bytes every bit is zero.
pub open spec fn bit_at(data: Seq<u8>, k: int) -> bool {
    0 <= k && k / 8 < data.len() && (data[k / 8] >> ((k % 8) as u8)) & 1 == 1
}

/// Bit `b` of a number.
pub open spec fn bit_of(value: u32, b: int) -> bool {
    (value >> (b as u32)) & 1 == 1
}

/// The number whose `n` bits start at bit `from`, the lowest first.
pub open spec fn bits_from(data: Seq<u8>, from: int, n: nat) -> nat
    decreases n,
{
    if n == 0 {
        0
    } else {
        (if bit_at(data, from) {
            1nat
        } else {
            0nat
        }) + 2 * bits_from(data, from + 1, (n - 1) as nat)
    }
}

/// The `index`-th number of `bits` bits.
pub open spec fn packed_at(data: Seq<u8>, index: int, bits: nat) -> nat {
    bits_from(data, index * bits, bits)
}

/// Two to the power of `n`.
pub open spec fn two_to(n: nat) -> nat
    decreases n,
{
    if n == 0 {
        1
    } else {
        2 * two_to((n - 1) as nat)
    }
}

/// What writing `value` at bit `from` does: its set bits are set, and no other bit
/// changes.
pub open spec fn written(before: Seq<u8>, after: Seq<u8>, from: int, bits: int, value: u32) -> bool {
    &&& after.len() == before.len()
    &&& forall|k: int|
        #![trigger bit_at(after, k)]
        bit_at(after, k) == (bit_at(before, k) || (from <= k < from + bits && bit_of(
            value,
            k - from,
        )))
}

proof fn lemma_set_bit(x: u8, j: u8, i: u8)
    requires
        j < 8,
        i < 8,
    ensures
        ((x | (1u8 << j)) >> i) & 1 == if i == j {
            1
        } else {
            (x >> i) & 1
        },
{
    assert(((x | (1u8 << j)) >> i) & 1 == if i == j {
        1
    } else {
        (x >> i) & 1
    }) by (bit_vector)
        requires
            j < 8,
            i < 8,
    ;
}

proof fn lemma_bits_bound(data: Seq<u8>, from: int, n: nat)
    ensures
        bits_from(data, from, n) < two_to(n),
    decreases n,
{
    if n > 0 {
        lemma_bits_bound(data, from + 1, (n - 1) as nat);
    }
}

proof fn lemma_two_to_32(n: nat)
    requires
        n <= 32,
    ensures
        two_to(n) <= 0x1_0000_0000,
    decreases 32 - n,
{
    if n == 32 {
        reveal_with_fuel(two_to, 33);
    } else {
        lemma_two_to_32(n + 1);
    }
}

/// Bits that agree give the same number.
pub proof fn lemma_same_bits(a: Seq<u8>, b: Seq<u8>, from: int, n: nat)
    requires
        forall|k: int| from <= k < from + n ==> bit_at(a, k) == bit_at(b, k),
    ensures
        bits_from(a, from, n) == bits_from(b, from, n),
    decreases n,
{
    if n > 0 {
        lemma_same_bits(a, b, from + 1, (n - 1) as nat);
    }
}

/// Bits that are those of a number give that number.
pub proof fn lemma_bits_are_value(data: Seq<u8>, from: int, n: nat, value: u32)
    requires
        n <= 32,
        value < two_to(n),
        forall|k: int| from <= k < from + n ==> bit_at(data, k) == bit_of(value, k - from),
    ensures
        bits_from(data, from, n) == value,
    decreases n,
{
    if n > 0 {
        let half = value >> 1;
        assert(value == (value & 1) + 2 * (value >> 1)) by (bit_vector);
        assert((value & 1) == 0 || (value & 1) == 1) by (bit_vector);
        assert((value >> 0u32) & 1 == value & 1) by (bit_vector);
        assert(bit_at(data, from) == bit_of(value, 0));
        assert forall|k: int| from + 1 <= k < from + n implies bit_at(data, k) == bit_of(
            half,
            k - (from + 1),
        ) by {
            let b = (k - from - 1) as u32;
            assert(((value >> 1) >> b) & 1 == (value >> ((b + 1) as u32)) & 1) by (bit_vector)
                requires
                    b < 31,
            ;
            assert(bit_at(data, k) == bit_of(value, k - from));
        }
        lemma_bits_are_value(data, from + 1, (n - 1) as nat, half);
    }
}

/// A number written over zero bits is read back.
pub proof fn read_after_write(
    before: Seq<u8>,
    after: Seq<u8>,
    index: int,
    bits: nat,
    value: u32,
)
    requires
        bits <= 32,
        value < two_to(bits),
        written(before, after, index * bits, bits as int, value),
        packed_at(before, index, bits) == 0,
    ensures
        packed_at(after, index, bits) == value,
{
    lemma_zero_bits(before, index * bits, bits);
    lemma_bits_are_value(after, index * bits, bits, value);
}

/// Bits that give zero are all zero.
pub proof fn lemma_zero_bits(data: Seq<u8>, from: int, n: nat)
    requires
        bits_from(data, from, n) == 0,
    ensures
        forall|k: int| from <= k < from + n ==> !bit_at(data, k),
    decreases n,
{
    if n > 0 {
        lemma_zero_bits(data, from + 1, (n - 1) as nat);
    }
}

/// Writing a number leaves the numbers at other places as they were.
pub proof fn write_keeps_others(
    before: Seq<u8>,
    after: Seq<u8>,
    index: int,
    bits: nat,
    value: u32,
    other: int,
)
    requires
        written(before, after, index * bits, bits as int, value),
        other != index,
    ensures
        packed_at(after, other, bits) == packed_at(before, other, bits),
{
    assert(other * bits + bits <= index * bits || index * bits + bits <= other * bits)
        by (nonlinear_arith)
        requires
            other != index,
            bits >= 0,
    ;
    lemma_same_bits(after, before, other * bits, bits);
}

/// Zero bytes hold zeros.
pub proof fn lemma_zero_bytes(data: Seq<u8>, from: int, n: nat)
    requires
        forall|i: int| 0 <= i < data.len() ==> data[i] == 0,
    ensures
        bits_from(data, from, n) == 0,
        forall|k: int| !bit_at(data, k),
    decreases n,
{
    assert forall|k: int| !bit_at(data, k) by {
        let j = (k % 8) as u8;
        assert((0u8 >> j) & 1 == 0) by (bit_vector);
    }
    if n > 0 {
        lemma_zero_bytes(data, from + 1, (n - 1) as nat);
    }
}

/// Sets the bits of a number at its place. Bits that are set already stay set.
pub fn write_packed_bits(data: &mut Vec<u8>, index: usize, bits: u32, value: u32)
    requires
        bits <= 32,
        index * bits + bits <= usize::MAX,
        forall|b: int|
            0 <= b < bits && #[trigger] bit_of(value, b) ==> (index * bits + b) / 8 < old(
                data,
            )@.len(),
    ensures
        written(old(data)@, final(data)@, index * bits, bits as int, value),
{
    let from: usize = index * bits as usize;
    let mut b: u32 = 0;
    while b < bits
        invariant
            b <= bits <= 32,
            from == index * bits,
            from + bits <= usize::MAX,
            forall|b: int|
                0 <= b < bits && #[trigger] bit_of(value, b) ==> (index * bits + b) / 8 < old(
                    data,
                )@.len(),
            written(old(data)@, data@, from as int, b as int, value),
        decreases bits - b,
    {
        let ghost before = data@;
        if (value >> b) & 1 == 1 {
            assert(bit_of(value, b as int));
            let k: usize = from + b as usize;
            let j: u8 = (k % 8) as u8;
            let x: u8 = data[k / 8];
            data.set(k / 8, x | (1u8 << j));
            assert forall|q: int|
                #![trigger bit_at(data@, q)]
                bit_at(data@, q) == (bit_at(before, q) || q == k) by {
                if q >= 0 && q / 8 == k / 8 {
                    lemma_set_bit(x, j, (q % 8) as u8);
                }
            }
        }
        b += 1;
        assert forall|q: int|
            #![trigger bit_at(data@, q)]
            bit_at(data@, q) == (bit_at(old(data)@, q) || (from <= q < from + b && bit_of(
                value,
                q - from,
            ))) by {
            assert(bit_at(before, q) == bit_at(before, q));
        }
    }
}

/// The number at a place. Bits beyond the bytes count as zero.
pub fn read_packed_bits(data: &[u8], index: usize, bits: u32) -> (r: u32)
    requires
        bits <= 32,
        index * bits + bits <= usize::MAX,
    ensures
        r == packed_at(data@, index as int, bits as nat),
{
    let from: usize = index * bits as usize;
    let mut b: u32 = bits;
    let mut value: u32 = 0;
    while b > 0
        invariant
            b <= bits <= 32,
            from == index * bits,
            from + bits <= usize::MAX,
            value == bits_from(data@, from + b, (bits - b) as nat),
        decreases b,
    {
        b -= 1;
        let k: usize = from + b as usize;
        let j: u8 = (k % 8) as u8;
        let bit: u32 = if k / 8 < data.len() {
            ((data[k / 8] >> j) & 1) as u32
        } else {
            0
        };
        proof {
            let x = data@[k as int / 8];
            assert((x >> j) & 1 == 0 || (x >> j) & 1 == 1) by (bit_vector);
            lemma_bits_bound(data@, from + b, (bits - b) as nat);
            lemma_two_to_32((bits - b) as nat);
            assert(bits_from(data@, from + b, (bits - b) as nat) == bit + 2 * value);
        }
        value = bit + 2 * value;
    }
    value
}

/// That many zero bytes.
pub fn zero_bytes(n: usize) -> (r: Vec<u8>)
    ensures
        r@ == Seq::new(n as nat, |i: int| 0u8),
{
    let mut out: Vec<u8> = Vec::new();
    let mut i: usize = 0;
    while i < n
        invariant
            i <= n,
            out@ == Seq::new(i as nat, |i: int| 0u8),
        decreases n - i,
    {
        out.push(0);
        i += 1;
        assert(out@ =~= Seq::new(i as nat, |i: int| 0u8));
    }
    out
}

/// The bytes hold the codes one behind the other, and zero bits after the last: as few
/// bytes as that takes.
pub open spec fn packs(data: Seq<u8>, codes: Seq<u32>, bits: nat) -> bool {
    &&& data.len() == div_ceil(codes.len() * bits, 8)
    &&& forall|i: int| 0 <= i < codes.len() ==> packed_at(data, i, bits) == #[trigger] codes[i]
    &&& forall|k: int| k >= codes.len() * bits ==> !#[trigger] bit_at(data, k)
}

/// Packs codes of a few bits each into bytes.
pub fn pack_codes(codes: &Vec<u32>, bits: u32) -> (r: Vec<u8>)
    requires
        bits <= 32,
        codes@.len() * bits <= usize::MAX,
        forall|i: int| 0 <= i < codes@.len() ==> #[trigger] codes@[i] < two_to(bits as nat),
    ensures
        packs(r@, codes@, bits as nat),
{
    let n: usize = codes.len();
    let bytes: usize = blocks_for(n * bits as usize, 8);
    let mut packed = zero_bytes(bytes);
    proof {
        lemma_zero_bytes(packed@, 0, 0);
        assert forall|i: int| packed_at(packed@, i, bits as nat) == 0 by {
            lemma_zero_bytes(packed@, i * bits, bits as nat);
        }
    }
    let mut j: usize = 0;
    while j < n
        invariant
            j <= n,
            n == codes@.len(),
            bits <= 32,
            codes@.len() * bits <= usize::MAX,
            bytes == div_ceil((codes@.len() * bits) as nat, 8),
            packed@.len() == bytes,
            forall|i: int| 0 <= i < n ==> #[trigger] codes@[i] < two_to(bits as nat),
            forall|i: int| 0 <= i < j ==> packed_at(packed@, i, bits as nat) == #[trigger] codes@[i],
            forall|i: int| j <= i < n ==> packed_at(packed@, i, bits as nat) == 0,
            forall|k: int| k >= j * bits ==> !#[trigger] bit_at(packed@, k),
        decreases n - j,
    {
        let ghost before = packed@;
        assert(j * bits + bits <= n * bits) by (nonlinear_arith)
            requires
                j < n,
        ;
        assert(j * bits + bits == (j + 1) * bits) by (nonlinear_arith);
        write_packed_bits(&mut packed, j, bits, codes[j]);
        proof {
            read_after_write(before, packed@, j as int, bits as nat, codes@[j as int]);
            assert forall|i: int| 0 <= i < j implies packed_at(packed@, i, bits as nat)
                == #[trigger] codes@[i] by {
                write_keeps_others(before, packed@, j as int, bits as nat, codes@[j as int], i);
            }
            assert forall|i: int| j < i < n implies packed_at(packed@, i, bits as nat) == 0 by {
                write_keeps_others(before, packed@, j as int, bits as nat, codes@[j as int], i);
                assert(packed_at(before, i, bits as nat) == 0);
            }
            assert forall|k: int| k >= (j + 1) * bits implies !#[trigger] bit_at(packed@, k) by {
                assert(!bit_at(before, k));
            }
        }
        j += 1;
    }
    packed
}

} // verus!
