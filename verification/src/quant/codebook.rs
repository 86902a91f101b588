//! Codebooks: levels between minus one and one, and codes that stand for them.

use crate::quant::packing::{pack_codes, packed_at, packs, read_packed_bits, two_to};
use vstd::prelude::*;

verus! {

/// Evenly spaced levels. A level is held as a whole number of parts, of which
/// `two_to(bits)` make one.
#[derive(Debug)]
pub struct Codebook {
    pub bits: u32,
    pub dim: usize,
    pub levels: Vec<i64>,
}

/// A codebook with its levels as a sequence.
#[verifier::ext_equal]
pub struct CodebookView {
    pub bits: u32,
    pub dim: usize,
    pub levels: Seq<i64>,
}

impl View for Codebook {
    type V = CodebookView;

    open spec fn view(&self) -> CodebookView {
        CodebookView { bits: self.bits, dim: self.dim, levels: self.levels@ }
    }
}

/// The levels of a codebook: level `i` of `n` lies at `(2 i + 1 - n) / n`, in the
/// middle of the `i`-th of `n` equal parts of the range from minus one to one.
pub open spec fn even_levels(bits: u32) -> Seq<i64> {
    let n = two_to(bits as nat);
    Seq::new(n, |i: int| (2 * i + 1 - n) as i64)
}

/// The codebook of a size.
pub open spec fn codebook_of(bits: u32, dim: usize) -> CodebookView {
    CodebookView { bits, dim, levels: even_levels(bits) }
}

/// Codes are packed.
pub open spec fn is_packed(bits: u32) -> bool {
    bits == 2 || bits == 3 || bits == 4
}

/// What codes become: packed bits, or one byte for each code.
pub open spec fn encodes(bits: u32, codes: Seq<u32>, data: Seq<u8>) -> bool {
    if is_packed(bits) {
        packs(data, codes, bits as nat)
    } else {
        data == Seq::new(codes.len(), |i: int| codes[i] as u8)
    }
}

/// The code at a place.
pub open spec fn code_at(bits: u32, data: Seq<u8>, i: int) -> nat {
    if is_packed(bits) {
        packed_at(data, i, bits as nat)
    } else {
        data[i] as nat
    }
}

/// The level of a code: zero where there is none.
pub open spec fn level_of(levels: Seq<i64>, code: nat) -> i64 {
    if code < levels.len() {
        levels[code as int]
    } else {
        0
    }
}

/// The codes that bytes hold.
pub open spec fn codes_held(bits: u32, bytes: nat) -> nat {
    if bits == 2 {
        bytes * 4
    } else if bits == 3 {
        bytes * 8 / 3
    } else if bits == 4 {
        bytes * 2
    } else {
        bytes
    }
}

/// How many levels are decoded where `wanted` are asked for. Of three-bit codes there
/// are as many, and zero codes are read past the end; of others there are no more than
/// the bytes hold.
pub open spec fn decoded_count(bits: u32, bytes: nat, wanted: nat) -> nat {
    if bits == 3 {
        wanted
    } else if wanted > codes_held(bits, bytes) {
        codes_held(bits, bytes)
    } else {
        wanted
    }
}

/// The levels that bytes stand for.
pub open spec fn decoded_levels(c: CodebookView, data: Seq<u8>, wanted: nat) -> Seq<i64> {
    Seq::new(
        decoded_count(c.bits, data.len(), wanted),
        |i: int| level_of(c.levels, code_at(c.bits, data, i)),
    )
}

proof fn lemma_small_powers()
    ensures
        two_to(2) == 4,
        two_to(3) == 8,
        two_to(4) == 16,
        two_to(31) == 0x8000_0000,
{
    reveal_with_fuel(two_to, 33);
}

proof fn lemma_two_to_mono(a: nat, b: nat)
    requires
        a <= b,
    ensures
        0 < two_to(a) <= two_to(b),
    decreases b,
{
    if a < b {
        lemma_two_to_mono(a, (b - 1) as nat);
    } else if a > 0 {
        lemma_two_to_mono((a - 1) as nat, (a - 1) as nat);
    }
}

/// The bits of the greatest single-precision number.
pub const GREATEST_BITS: u32 = 0x7f7f_ffff;

/// The place of the least of the first `n` distances, and the distance: the first such
/// place, and the first of all where no distance is below the greatest number. Distances
/// are not negative, so their bits are ordered as they are.
pub open spec fn nearest(distances: Seq<u32>, n: int) -> (int, u32)
    decreases n,
{
    if n <= 0 {
        (0, GREATEST_BITS)
    } else {
        let before = nearest(distances, n - 1);
        if distances[n - 1] < before.1 {
            (n - 1, distances[n - 1])
        } else {
            before
        }
    }
}

/// No distance is less than that of the place that is found, and none as small stands
/// ahead of it, where some distance is below the greatest number.
pub proof fn nearest_is_nearest(distances: Seq<u32>, n: int)
    requires
        0 <= n <= distances.len(),
    ensures
        ({
            let (place, least) = nearest(distances, n);
            &&& least <= GREATEST_BITS
            &&& forall|j: int| 0 <= j < n ==> least <= #[trigger] distances[j]
            &&& least < GREATEST_BITS ==> 0 <= place < n && distances[place] == least
            &&& least < GREATEST_BITS ==> forall|j: int|
                0 <= j < place ==> #[trigger] distances[j] > least
            &&& least == GREATEST_BITS ==> place == 0
        }),
    decreases n,
{
    if n > 0 {
        nearest_is_nearest(distances, n - 1);
    }
}

/// The place of the nearest level, given the distance of each as the bits of a number
/// that is not negative.
pub fn find_closest(distances: &Vec<u32>) -> (r: usize)
    ensures
        r == nearest(distances@, distances@.len() as int).0,
{
    let mut best: usize = 0;
    let mut least: u32 = GREATEST_BITS;
    let mut i: usize = 0;
    while i < distances.len()
        invariant
            i <= distances@.len(),
            (best as int, least) == nearest(distances@, i as int),
        decreases distances@.len() - i,
    {
        if distances[i] < least {
            least = distances[i];
            best = i;
        }
        i += 1;
    }
    best
}

impl Codebook {
    pub fn new(bits: u32, dim: usize) -> (r: Self)
        requires
            bits < 32,
        ensures
            r@ == codebook_of(bits, dim),
    {
        let mut n: u32 = 1;
        let mut b: u32 = 0;
        while b < bits
            invariant
                b <= bits < 32,
                n == two_to(b as nat),
            decreases bits - b,
        {
            proof {
                lemma_small_powers();
                lemma_two_to_mono((b + 1) as nat, 31);
            }
            n = n * 2;
            b += 1;
        }
        proof {
            lemma_small_powers();
            lemma_two_to_mono(bits as nat, 31);
        }
        let mut levels: Vec<i64> = Vec::new();
        let mut i: u32 = 0;
        while i < n
            invariant
                i <= n <= 0x8000_0000,
                n == two_to(bits as nat),
                levels@ == even_levels(bits).take(i as int),
            decreases n - i,
        {
            levels.push(2 * (i as i64) + 1 - n as i64);
            i += 1;
            assert(levels@ =~= even_levels(bits).take(i as int));
        }
        assert(levels@ =~= even_levels(bits));
        Codebook { bits, dim, levels }
    }

    /// Turns codes, the places of levels, into bytes.
    pub fn encode(&self, codes: &Vec<u32>) -> (r: Vec<u8>)
        requires
            codes@.len() * 4 <= usize::MAX,
            is_packed(self.bits) ==> forall|i: int|
                0 <= i < codes@.len() ==> #[trigger] codes@[i] < two_to(self.bits as nat),
        ensures
            encodes(self.bits, codes@, r@),
    {
        if self.bits == 2 || self.bits == 3 || self.bits == 4 {
            return pack_codes(codes, self.bits);
        }
        let mut out: Vec<u8> = Vec::new();
        let mut i: usize = 0;
        while i < codes.len()
            invariant
                i <= codes@.len(),
                out@ == Seq::new(i as nat, |i: int| codes@[i] as u8),
            decreases codes@.len() - i,
        {
            out.push(#[verifier::truncate] (codes[i] as u8));
            i += 1;
            assert(out@ =~= Seq::new(i as nat, |i: int| codes@[i] as u8));
        }
        out
    }

    /// The levels of all the codes that bytes hold.
    pub fn decode(&self, data: &[u8]) -> (r: Vec<i64>)
        requires
            data@.len() * 8 <= usize::MAX,
        ensures
            r@ == decoded_levels(self@, data@, codes_held(self.bits, data@.len())),
    {
        let wanted: usize = if self.bits == 2 {
            data.len() * 4
        } else if self.bits == 3 {
            data.len() * 8 / 3
        } else if self.bits == 4 {
            data.len() * 2
        } else {
            data.len()
        };
        self.decode_exact(data, wanted)
    }

    /// The levels of that many codes.
    pub fn decode_exact(&self, data: &[u8], output_len: usize) -> (r: Vec<i64>)
        requires
            data@.len() * 8 <= usize::MAX,
            self.bits == 3 ==> output_len * 3 <= usize::MAX,
        ensures
            r@ == decoded_levels(self@, data@, output_len as nat),
    {
        let held: usize = if self.bits == 2 {
            data.len() * 4
        } else if self.bits == 4 {
            data.len() * 2
        } else {
            data.len()
        };
        let count: usize = if self.bits == 3 {
            output_len
        } else if output_len > held {
            held
        } else {
            output_len
        };
        let ghost all = decoded_levels(self@, data@, output_len as nat);
        let mut values: Vec<i64> = Vec::new();
        let mut i: usize = 0;
        while i < count
            invariant
                i <= count,
                count == decoded_count(self.bits, data@.len(), output_len as nat),
                data@.len() * 8 <= usize::MAX,
                self.bits == 3 ==> output_len * 3 <= usize::MAX,
                all == decoded_levels(self@, data@, output_len as nat),
                values@ == all.take(i as int),
            decreases count - i,
        {
            let code: usize = if self.bits == 2 || self.bits == 3 || self.bits == 4 {
                read_packed_bits(data, i, self.bits) as usize
            } else {
                data[i] as usize
            };
            values.push(
                if code < self.levels.len() {
                    self.levels[code]
                } else {
                    0
                },
            );
            i += 1;
            assert(values@ =~= all.take(i as int));
        }
        assert(values@ =~= all);
        values
    }
}

/// Codes that are turned into bytes and back give their levels.
pub proof fn codes_round_trip(bits: u32, dim: usize, codes: Seq<u32>, data: Seq<u8>)
    requires
        bits <= 8,
        encodes(bits, codes, data),
        forall|i: int| 0 <= i < codes.len() ==> #[trigger] codes[i] < two_to(bits as nat),
    ensures
        decoded_levels(codebook_of(bits, dim), data, codes.len()) == Seq::new(
            codes.len(),
            |i: int| even_levels(bits)[codes[i] as int],
        ),
{
    let c = codebook_of(bits, dim);
    let n = codes.len();
    assert(two_to(8) == 256) by {
        reveal_with_fuel(two_to, 9);
    }
    lemma_two_to_mono(bits as nat, 8);
    assert(decoded_count(bits, data.len(), n) == n) by {
        if is_packed(bits) {
            assert(n * 2 == 2 * n && n * 4 == 4 * n);
        }
    }
    assert forall|i: int| 0 <= i < n implies code_at(bits, data, i) == codes[i] by {
        if !is_packed(bits) {
            assert(codes[i] < two_to(bits as nat));
        }
    }
    assert(decoded_levels(c, data, n) =~= Seq::new(n, |i: int| even_levels(bits)[codes[i] as int]));
}

} // verus!
