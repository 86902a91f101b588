//! The key-value cache of a layer.
//!
//! A cache holds one vector of keys and one of values for each of the last tokens.
//! Vectors are kept as the bits of single-precision numbers, or as codes of a few
//! bits each with a lowest value and a step.

use crate::gguf::types::{blocks_for, div_ceil};
use crate::quant::formats::{KvQuantType, ONE_BITS};
use crate::quant::packing::{
    lemma_zero_bytes, pack_codes, packed_at, read_packed_bits, two_to, zero_bytes,
};
use vstd::prelude::*;

verus! {

/// A vector of keys or values, as a cache takes it. Floating-point numbers are held
/// by their bits.
#[derive(Debug)]
pub enum KvVector {
    /// The elements themselves.
    Float(Vec<u32>),
    /// Element `i` is `low + codes[i] * step`.
    Quantized { low: u32, step: u32, codes: Vec<u32> },
}

/// A vector of keys or values.
#[verifier::ext_equal]
pub enum RowView {
    Float(Seq<u32>),
    Quantized { low: u32, step: u32, codes: Seq<u32> },
}

impl View for KvVector {
    type V = RowView;

    open spec fn view(&self) -> RowView {
        match self {
            KvVector::Float(v) => RowView::Float(v@),
            KvVector::Quantized { low, step, codes } => RowView::Quantized {
                low: *low,
                step: *step,
                codes: codes@,
            },
        }
    }
}

/// One element of a cache.
#[derive(Debug, Clone, Copy, PartialEq, Eq, Structural)]
pub enum KvTerm {
    /// The element itself.
    Value(u32),
    /// `low + level * step`.
    Affine { low: u32, level: u32, step: u32 },
}

impl RowView {
    /// Element `dim` of a vector.
    pub open spec fn term(self, dim: int) -> KvTerm {
        match self {
            RowView::Float(v) => KvTerm::Value(v[dim]),
            RowView::Quantized { low, step, codes } => KvTerm::Affine {
                low,
                level: codes[dim],
                step,
            },
        }
    }

    /// The vector has that many elements, and codes of that many bits.
    pub open spec fn fits(self, quantized: bool, head_dim: int, bits: u32) -> bool {
        match self {
            RowView::Float(v) => !quantized && v.len() == head_dim,
            RowView::Quantized { low, step, codes } => {
                &&& quantized
                &&& codes.len() == head_dim
                &&& forall|i: int|
                    0 <= i < codes.len() ==> #[trigger] codes[i] < two_to(bits as nat)
            },
        }
    }
}

/// A vector of zeros.
pub open spec fn zero_row(quantized: bool, head_dim: int) -> RowView {
    if quantized {
        RowView::Quantized {
            low: 0,
            step: ONE_BITS,
            codes: Seq::new(head_dim as nat, |i: int| 0u32),
        }
    } else {
        RowView::Float(Seq::new(head_dim as nat, |i: int| 0u32))
    }
}

/// The first `n` rows moved one place to the front, with a row of zeros behind them.
pub open spec fn moved_up(rows: Seq<RowView>, n: int, zero: RowView) -> Seq<RowView> {
    rows.remove(0).insert(n - 1, zero)
}

/// The rows after a shift. Codes of a single row are left where they are.
pub open spec fn shifted(rows: Seq<RowView>, n: int, quantized: bool, head_dim: int) -> Seq<RowView> {
    if quantized && n <= 1 {
        rows
    } else {
        moved_up(rows, n, zero_row(quantized, head_dim))
    }
}

/// Codes of a few bits each, packed, for a number of tokens.
#[derive(Debug)]
pub struct PackedKvBuffer {
    data: Vec<Vec<u8>>,
    mins: Vec<u32>,
    scales: Vec<u32>,
    bits: u32,
    head_dim: usize,
    bytes_per_token: usize,
}

/// The codes in packed bytes.
pub open spec fn codes_in(data: Seq<u8>, bits: u32, head_dim: usize) -> Seq<u32> {
    Seq::new(head_dim as nat, |d: int| packed_at(data, d, bits as nat) as u32)
}

impl View for PackedKvBuffer {
    type V = Seq<RowView>;

    closed spec fn view(&self) -> Seq<RowView> {
        Seq::new(
            self.data@.len(),
            |p: int|
                RowView::Quantized {
                    low: self.mins@[p],
                    step: self.scales@[p],
                    codes: codes_in(self.data@[p]@, self.bits, self.head_dim),
                },
        )
    }
}

impl PackedKvBuffer {
    /// Rows have the bytes that their codes take, and each has a lowest value and a
    /// step.
    pub closed spec fn wf(&self) -> bool {
        &&& self.bits < 32
        &&& self.head_dim * self.bits <= usize::MAX
        &&& self.bytes_per_token == div_ceil((self.head_dim * self.bits) as nat, 8)
        &&& self.mins@.len() == self.data@.len()
        &&& self.scales@.len() == self.data@.len()
        &&& forall|p: int|
            0 <= p < self.data@.len() ==> (#[trigger] self.data@[p])@.len() == self.bytes_per_token
    }

    /// The bits of a code.
    pub closed spec fn spec_bits(&self) -> u32 {
        self.bits
    }

    /// The elements of a vector.
    pub closed spec fn dim(&self) -> usize {
        self.head_dim
    }

    proof fn lemma_zero_row(&self, p: int)
        requires
            self.wf(),
            0 <= p < self.data@.len(),
            forall|i: int| 0 <= i < self.data@[p]@.len() ==> self.data@[p]@[i] == 0,
            self.mins@[p] == 0,
            self.scales@[p] == ONE_BITS,
        ensures
            self@[p] == zero_row(true, self.dim() as int),
    {
        let codes = codes_in(self.data@[p]@, self.bits, self.head_dim);
        assert forall|d: int| 0 <= d < self.head_dim implies codes[d] == 0 by {
            lemma_zero_bytes(self.data@[p]@, d * self.bits, self.bits as nat);
        }
        assert(codes =~= Seq::new(self.head_dim as nat, |i: int| 0u32));
    }

    pub fn new(bits: u32, head_dim: usize, max_seq_len: usize) -> (r: Self)
        requires
            bits < 32,
            head_dim * bits <= usize::MAX,
        ensures
            r.wf(),
            r.spec_bits() == bits,
            r.dim() == head_dim,
            r@ == Seq::new(max_seq_len as nat, |p: int| zero_row(true, head_dim as int)),
    {
        let bytes_per_token: usize = blocks_for(head_dim * bits as usize, 8);
        let mut r = PackedKvBuffer {
            data: Vec::new(),
            mins: Vec::new(),
            scales: Vec::new(),
            bits,
            head_dim,
            bytes_per_token,
        };
        let mut p: usize = 0;
        while p < max_seq_len
            invariant
                p <= max_seq_len,
                r.wf(),
                r.bits == bits,
                r.head_dim == head_dim,
                r.data@.len() == p,
                forall|q: int| 0 <= q < p ==> #[trigger] r@[q] == zero_row(true, head_dim as int),
            decreases max_seq_len - p,
        {
            let ghost before = r;
            r.data.push(zero_bytes(r.bytes_per_token));
            r.mins.push(0);
            r.scales.push(ONE_BITS);
            proof {
                r.lemma_zero_row(p as int);
                assert forall|q: int| 0 <= q < p implies #[trigger] r@[q] == before@[q] by {}
            }
            p += 1;
        }
        assert(r@ =~= Seq::new(max_seq_len as nat, |p: int| zero_row(true, head_dim as int)));
        r
    }

    /// Stores the codes of a token.
    pub fn add(&mut self, position: usize, low: u32, step: u32, codes: &Vec<u32>)
        requires
            old(self).wf(),
            position < old(self)@.len(),
            (RowView::Quantized { low, step, codes: codes@ }).fits(
                true,
                old(self).dim() as int,
                old(self).spec_bits(),
            ),
        ensures
            final(self).wf(),
            final(self).spec_bits() == old(self).spec_bits(),
            final(self).dim() == old(self).dim(),
            final(self)@ == old(self)@.update(
                position as int,
                RowView::Quantized { low, step, codes: codes@ },
            ),
    {
        let packed = pack_codes(codes, self.bits);
        self.mins.set(position, low);
        self.scales.set(position, step);
        self.data.set(position, packed);
        assert(codes_in(packed@, self.bits, self.head_dim) =~= codes@);
        assert(self@ =~= old(self)@.update(
            position as int,
            RowView::Quantized { low, step, codes: codes@ },
        ));
    }

    /// One stored element.
    pub fn value_at(&self, position: usize, dim: usize) -> (r: KvTerm)
        requires
            self.wf(),
            position < self@.len(),
            dim < self.dim(),
        ensures
            r == self@[position as int].term(dim as int),
    {
        assert(dim * self.bits + self.bits <= self.head_dim * self.bits) by (nonlinear_arith)
            requires
                dim < self.head_dim,
        ;
        let level: u32 = read_packed_bits(self.data[position].as_slice(), dim, self.bits);
        KvTerm::Affine { low: self.mins[position], level, step: self.scales[position] }
    }

    /// The elements of the first `seq_len` tokens, token by token.
    pub fn get_all(&self, seq_len: usize) -> (r: Vec<KvTerm>)
        requires
            self.wf(),
            seq_len <= self@.len(),
            seq_len * self.dim() <= usize::MAX,
        ensures
            r@ == all_terms(self@.take(seq_len as int), self.dim() as int),
    {
        let mut out: Vec<KvTerm> = Vec::new();
        let mut p: usize = 0;
        let ghost dim = self.dim() as int;
        assert(out@ =~= all_terms(self@.take(0), dim));
        while p < seq_len
            invariant
                p <= seq_len <= self@.len(),
                self.wf(),
                dim == self.dim(),
                out@ == all_terms(self@.take(p as int), dim),
            decreases seq_len - p,
        {
            let ghost before = out@;
            let mut d: usize = 0;
            assert(out@ =~= before + row_terms(self@[p as int], 0));
            while d < self.head_dim
                invariant
                    d <= self.head_dim,
                    p < seq_len <= self@.len(),
                    self.wf(),
                    out@ == before + row_terms(self@[p as int], d as int),
                decreases self.head_dim - d,
            {
                out.push(self.value_at(p, d));
                d += 1;
                assert(out@ =~= before + row_terms(self@[p as int], d as int));
            }
            assert(self@.take(p + 1).drop_last() =~= self@.take(p as int));
            p += 1;
        }
        out
    }

    /// Moves the first `seq_len` rows one place to the front.
    pub fn shift_left(&mut self, seq_len: usize)
        requires
            old(self).wf(),
            seq_len <= old(self)@.len(),
        ensures
            final(self).wf(),
            final(self).spec_bits() == old(self).spec_bits(),
            final(self).dim() == old(self).dim(),
            final(self)@ == shifted(old(self)@, seq_len as int, true, old(self).dim() as int),
    {
        if seq_len <= 1 {
            return;
        }
        let ghost before = self@;
        let _ = self.data.remove(0);
        let _ = self.mins.remove(0);
        let _ = self.scales.remove(0);
        self.data.insert(seq_len - 1, zero_bytes(self.bytes_per_token));
        self.mins.insert(seq_len - 1, 0);
        self.scales.insert(seq_len - 1, ONE_BITS);
        assert(self.wf());
        proof {
            self.lemma_zero_row(seq_len - 1);
        }
        assert(self@ =~= shifted(before, seq_len as int, true, self.dim() as int));
    }

    /// Sets every row to zeros.
    pub fn clear(&mut self)
        requires
            old(self).wf(),
        ensures
            final(self).wf(),
            final(self).spec_bits() == old(self).spec_bits(),
            final(self).dim() == old(self).dim(),
            final(self)@ == Seq::new(
                old(self)@.len(),
                |p: int| zero_row(true, old(self).dim() as int),
            ),
    {
        let n: usize = self.data.len();
        let mut p: usize = 0;
        while p < n
            invariant
                p <= n,
                n == self.data@.len(),
                n == old(self)@.len(),
                self.wf(),
                self.bits == old(self).bits,
                self.head_dim == old(self).head_dim,
                forall|q: int|
                    0 <= q < p ==> #[trigger] self@[q] == zero_row(true, self.head_dim as int),
            decreases n - p,
        {
            let ghost before = *self;
            self.data.set(p, zero_bytes(self.bytes_per_token));
            self.mins.set(p, 0);
            self.scales.set(p, ONE_BITS);
            proof {
                self.lemma_zero_row(p as int);
                assert forall|q: int| 0 <= q < p implies #[trigger] self@[q] == before@[q] by {}
            }
            p += 1;
        }
        assert(self@ =~= Seq::new(n as nat, |p: int| zero_row(true, old(self).dim() as int)));
    }

    /// The bytes that the buffer takes: its packed codes, and four each for the lowest
    /// value and the step of a row.
    pub fn memory_usage(&self) -> (r: usize)
        requires
            self.wf(),
            div_ceil((self.dim() * self.spec_bits()) as nat, 8) * self@.len() + 8 * self@.len()
                <= usize::MAX,
        ensures
            r == div_ceil((self.dim() * self.spec_bits()) as nat, 8) * self@.len() + 8
                * self@.len(),
    {
        self.bytes_per_token * self.data.len() + self.mins.len() * 4 + self.scales.len() * 4
    }
}

/// The first `n` elements of a row.
pub open spec fn row_terms(row: RowView, n: int) -> Seq<KvTerm> {
    Seq::new(n as nat, |d: int| row.term(d))
}

/// The elements of rows, row by row.
pub open spec fn all_terms(rows: Seq<RowView>, dim: int) -> Seq<KvTerm>
    decreases rows.len(),
{
    if rows.len() == 0 {
        seq![]
    } else {
        all_terms(rows.drop_last(), dim) + row_terms(rows.last(), dim)
    }
}


/// The vectors of one stream, keys or values.
#[derive(Debug)]
pub enum KvCacheBuffer {
    /// One vector for each token.
    Float(Vec<Vec<u32>>),
    Quantized(PackedKvBuffer),
}

impl View for KvCacheBuffer {
    type V = Seq<RowView>;

    open spec fn view(&self) -> Seq<RowView> {
        match self {
            KvCacheBuffer::Float(data) => Seq::new(
                data@.len(),
                |p: int| RowView::Float(data@[p]@),
            ),
            KvCacheBuffer::Quantized(buffer) => buffer@,
        }
    }
}

fn zero_floats(n: usize) -> (r: Vec<u32>)
    ensures
        r@ == Seq::new(n as nat, |i: int| 0u32),
{
    let mut out: Vec<u32> = Vec::new();
    let mut i: usize = 0;
    while i < n
        invariant
            i <= n,
            out@ == Seq::new(i as nat, |j: int| 0u32),
        decreases n - i,
    {
        out.push(0);
        i += 1;
        assert(out@ =~= Seq::new(i as nat, |j: int| 0u32));
    }
    out
}

fn zero_rows(n: usize, head_dim: usize) -> (r: Vec<Vec<u32>>)
    ensures
        r@.len() == n,
        forall|p: int| 0 <= p < n ==> (#[trigger] r@[p])@ == Seq::new(head_dim as nat, |i: int| 0u32),
{
    let mut out: Vec<Vec<u32>> = Vec::new();
    let mut p: usize = 0;
    while p < n
        invariant
            p <= n,
            out@.len() == p,
            forall|q: int|
                0 <= q < p ==> (#[trigger] out@[q])@ == Seq::new(head_dim as nat, |i: int| 0u32),
        decreases n - p,
    {
        out.push(zero_floats(head_dim));
        p += 1;
    }
    out
}

impl KvCacheBuffer {
    pub open spec fn quantized(&self) -> bool {
        self is Quantized
    }

    /// The bits of a code.
    pub open spec fn code_bits(&self) -> u32 {
        match self {
            KvCacheBuffer::Float(_) => 0,
            KvCacheBuffer::Quantized(buffer) => buffer.spec_bits(),
        }
    }

    /// The buffer holds vectors of `head_dim` elements.
    pub open spec fn wf(&self, head_dim: usize) -> bool {
        match self {
            KvCacheBuffer::Float(data) => forall|p: int|
                0 <= p < data@.len() ==> (#[trigger] data@[p])@.len() == head_dim,
            KvCacheBuffer::Quantized(buffer) => buffer.wf() && buffer.dim() == head_dim,
        }
    }

    fn new(bits: u32, head_dim: usize, max_seq_len: usize, quantized: bool) -> (r: Self)
        requires
            quantized ==> bits < 32 && head_dim * bits <= usize::MAX,
        ensures
            r.wf(head_dim),
            r.quantized() == quantized,
            quantized ==> r.code_bits() == bits,
            r@ == Seq::new(max_seq_len as nat, |p: int| zero_row(quantized, head_dim as int)),
    {
        if quantized {
            KvCacheBuffer::Quantized(PackedKvBuffer::new(bits, head_dim, max_seq_len))
        } else {
            let r = KvCacheBuffer::Float(zero_rows(max_seq_len, head_dim));
            assert(r@ =~= Seq::new(max_seq_len as nat, |p: int| zero_row(false, head_dim as int)));
            r
        }
    }

    fn add(&mut self, position: usize, vector: KvVector, head_dim: usize)
        requires
            old(self).wf(head_dim),
            position < old(self)@.len(),
            vector@.fits(old(self).quantized(), head_dim as int, old(self).code_bits()),
        ensures
            final(self).wf(head_dim),
            final(self).quantized() == old(self).quantized(),
            final(self).code_bits() == old(self).code_bits(),
            final(self)@ == old(self)@.update(position as int, vector@),
    {
        let ghost before = self@;
        let ghost row = vector@;
        match self {
            KvCacheBuffer::Float(data) => match vector {
                KvVector::Float(values) => {
                    data.set(position, values);
                },
                KvVector::Quantized { low, step, codes } => {},
            },
            KvCacheBuffer::Quantized(buffer) => match vector {
                KvVector::Float(values) => {},
                KvVector::Quantized { low, step, codes } => {
                    buffer.add(position, low, step, &codes);
                },
            },
        }
        assert(self@ =~= before.update(position as int, row));
    }

    fn value_at(&self, position: usize, dim: usize, head_dim: usize) -> (r: KvTerm)
        requires
            self.wf(head_dim),
            position < self@.len(),
            dim < head_dim,
        ensures
            r == self@[position as int].term(dim as int),
    {
        match self {
            KvCacheBuffer::Float(data) => KvTerm::Value(data[position][dim]),
            KvCacheBuffer::Quantized(buffer) => buffer.value_at(position, dim),
        }
    }

    fn get_all(&self, seq_len: usize, head_dim: usize) -> (r: Vec<KvTerm>)
        requires
            self.wf(head_dim),
            seq_len <= self@.len(),
            seq_len * head_dim <= usize::MAX,
        ensures
            r@ == all_terms(self@.take(seq_len as int), head_dim as int),
    {
        match self {
            KvCacheBuffer::Quantized(buffer) => buffer.get_all(seq_len),
            KvCacheBuffer::Float(data) => {
                let mut out: Vec<KvTerm> = Vec::new();
                let mut p: usize = 0;
                assert(out@ =~= all_terms(self@.take(0), head_dim as int));
                while p < seq_len
                    invariant
                        p <= seq_len <= self@.len(),
                        self.wf(head_dim),
                        *self == KvCacheBuffer::Float(*data),
                        out@ == all_terms(self@.take(p as int), head_dim as int),
                    decreases seq_len - p,
                {
                    let ghost before = out@;
                    let mut d: usize = 0;
                    assert(out@ =~= before + row_terms(self@[p as int], 0));
                    while d < head_dim
                        invariant
                            d <= head_dim,
                            p < seq_len <= self@.len(),
                            self.wf(head_dim),
                            *self == KvCacheBuffer::Float(*data),
                            out@ == before + row_terms(self@[p as int], d as int),
                        decreases head_dim - d,
                    {
                        out.push(KvTerm::Value(data[p][d]));
                        d += 1;
                        assert(out@ =~= before + row_terms(self@[p as int], d as int));
                    }
                    assert(self@.take(p + 1).drop_last() =~= self@.take(p as int));
                    p += 1;
                }
                out
            },
        }
    }

    fn shift_left(&mut self, seq_len: usize, head_dim: usize)
        requires
            old(self).wf(head_dim),
            1 <= seq_len <= old(self)@.len(),
        ensures
            final(self).wf(head_dim),
            final(self).quantized() == old(self).quantized(),
            final(self).code_bits() == old(self).code_bits(),
            final(self)@ == shifted(
                old(self)@,
                seq_len as int,
                old(self).quantized(),
                head_dim as int,
            ),
    {
        let ghost before = self@;
        match self {
            KvCacheBuffer::Float(data) => {
                let _ = data.remove(0);
                data.insert(seq_len - 1, zero_floats(head_dim));
                assert(self@ =~= shifted(before, seq_len as int, false, head_dim as int));
            },
            KvCacheBuffer::Quantized(buffer) => {
                buffer.shift_left(seq_len);
            },
        }
    }

    fn clear(&mut self, head_dim: usize)
        requires
            old(self).wf(head_dim),
        ensures
            final(self).wf(head_dim),
            final(self).quantized() == old(self).quantized(),
            final(self).code_bits() == old(self).code_bits(),
            final(self)@ == Seq::new(
                old(self)@.len(),
                |p: int| zero_row(old(self).quantized(), head_dim as int),
            ),
    {
        let ghost n = self@.len();
        match self {
            KvCacheBuffer::Float(data) => {
                *data = zero_rows(data.len(), head_dim);
                assert(self@ =~= Seq::new(n, |p: int| zero_row(false, head_dim as int)));
            },
            KvCacheBuffer::Quantized(buffer) => {
                buffer.clear();
            },
        }
    }

    /// The bytes that a stream of that many vectors takes.
    pub open spec fn bytes(&self, head_dim: usize) -> nat {
        if self.quantized() {
            div_ceil((head_dim * self.code_bits()) as nat, 8) * self@.len() + 8 * self@.len()
        } else {
            self@.len() * (head_dim as nat) * 4
        }
    }

    fn memory_usage(&self, head_dim: usize) -> (r: usize)
        requires
            self.wf(head_dim),
            self.bytes(head_dim) <= usize::MAX,
        ensures
            r == self.bytes(head_dim),
    {
        match self {
            KvCacheBuffer::Float(data) => {
                assert(data@.len() * head_dim * 4 <= usize::MAX);
                assert(data@.len() * head_dim >= 0) by (nonlinear_arith);
                data.len() * head_dim * 4
            },
            KvCacheBuffer::Quantized(buffer) => buffer.memory_usage(),
        }
    }

    fn is_quantized(&self) -> (r: bool)
        ensures
            r == self.quantized(),
    {
        match self {
            KvCacheBuffer::Float(_) => false,
            KvCacheBuffer::Quantized(_) => true,
        }
    }
}

/// The keys and values of one layer.
#[derive(Debug)]
pub struct KvCache {
    pub keys: KvCacheBuffer,
    pub values: KvCacheBuffer,
    pub seq_len: usize,
    pub max_seq_len: usize,
    pub head_dim: usize,
    pub quant_type: KvQuantType,
}

/// The keys or the values that a cache holds after one more: the oldest leaves a full
/// cache.
pub open spec fn slid(window: Seq<RowView>, row: RowView, capacity: int) -> Seq<RowView> {
    if window.len() >= capacity {
        window.skip(1).push(row)
    } else {
        window.push(row)
    }
}

impl KvCache {
    /// The two streams have room for `max_seq_len` vectors, of which `seq_len` are
    /// held, in the form that the kind of quantization gives.
    pub open spec fn wf(&self) -> bool {
        &&& self.keys.wf(self.head_dim)
        &&& self.values.wf(self.head_dim)
        &&& self.keys@.len() == self.max_seq_len
        &&& self.values@.len() == self.max_seq_len
        &&& self.seq_len <= self.max_seq_len
        &&& self.keys.quantized() == !(self.quant_type is Unquantized)
        &&& self.values.quantized() == !(self.quant_type is Unquantized)
        &&& self.keys.quantized() ==> self.keys.code_bits() == self.quant_type.spec_key_bits()
            && self.values.code_bits() == self.quant_type.spec_val_bits()
    }

    /// The keys that are held, oldest first.
    pub open spec fn key_window(&self) -> Seq<RowView> {
        self.keys@.take(self.seq_len as int)
    }

    /// The values that are held, oldest first.
    pub open spec fn value_window(&self) -> Seq<RowView> {
        self.values@.take(self.seq_len as int)
    }

    /// A vector in the form in which this cache holds keys.
    pub open spec fn takes_key(&self, row: RowView) -> bool {
        row.fits(self.keys.quantized(), self.head_dim as int, self.keys.code_bits())
    }

    /// A vector in the form in which this cache holds values.
    pub open spec fn takes_value(&self, row: RowView) -> bool {
        row.fits(self.values.quantized(), self.head_dim as int, self.values.code_bits())
    }

    pub fn new(head_dim: usize, max_seq_len: usize, quant_type: KvQuantType) -> (r: Self)
        requires
            quant_type is Unquantized || head_dim * quant_type.spec_key_bits() <= usize::MAX,
            quant_type is Unquantized || head_dim * quant_type.spec_val_bits() <= usize::MAX,
        ensures
            r.wf(),
            r.seq_len == 0,
            r.max_seq_len == max_seq_len,
            r.head_dim == head_dim,
            r.quant_type == quant_type,
            r.key_window() == Seq::<RowView>::empty(),
            r.value_window() == Seq::<RowView>::empty(),
    {
        let quantized = !matches!(quant_type, KvQuantType::Unquantized);
        let r = KvCache {
            keys: KvCacheBuffer::new(quant_type.key_bits(), head_dim, max_seq_len, quantized),
            values: KvCacheBuffer::new(quant_type.val_bits(), head_dim, max_seq_len, quantized),
            seq_len: 0,
            max_seq_len,
            head_dim,
            quant_type,
        };
        assert(r.key_window() =~= Seq::empty());
        assert(r.value_window() =~= Seq::empty());
        r
    }

    /// Adds the key and the value of a token. A full cache loses its oldest token.
    pub fn add(&mut self, key: KvVector, value: KvVector)
        requires
            old(self).wf(),
            old(self).max_seq_len > 0,
            old(self).takes_key(key@),
            old(self).takes_value(value@),
        ensures
            final(self).wf(),
            final(self).max_seq_len == old(self).max_seq_len,
            final(self).head_dim == old(self).head_dim,
            final(self).quant_type == old(self).quant_type,
            final(self).key_window() == slid(
                old(self).key_window(),
                key@,
                old(self).max_seq_len as int,
            ),
            final(self).value_window() == slid(
                old(self).value_window(),
                value@,
                old(self).max_seq_len as int,
            ),
            final(self).seq_len == final(self).key_window().len(),
    {
        let ghost before = *self;
        if self.seq_len >= self.max_seq_len {
            self.shift();
        }
        self.keys.add(self.seq_len, key, self.head_dim);
        self.values.add(self.seq_len, value, self.head_dim);
        self.seq_len += 1;
        assert(self.key_window() =~= slid(before.key_window(), key@, self.max_seq_len as int));
        assert(self.value_window() =~= slid(before.value_window(), value@, self.max_seq_len as int));
    }

    /// Drops the oldest token.
    fn shift(&mut self)
        requires
            old(self).wf(),
            old(self).seq_len > 0,
        ensures
            final(self).wf(),
            final(self).max_seq_len == old(self).max_seq_len,
            final(self).head_dim == old(self).head_dim,
            final(self).quant_type == old(self).quant_type,
            final(self).seq_len == old(self).seq_len - 1,
            final(self).keys.code_bits() == old(self).keys.code_bits(),
            final(self).values.code_bits() == old(self).values.code_bits(),
            final(self).key_window() == old(self).key_window().skip(1),
            final(self).value_window() == old(self).value_window().skip(1),
    {
        let ghost before = *self;
        self.keys.shift_left(self.seq_len, self.head_dim);
        self.values.shift_left(self.seq_len, self.head_dim);
        self.seq_len -= 1;
        assert(self.key_window() =~= before.key_window().skip(1));
        assert(self.value_window() =~= before.value_window().skip(1));
    }

    /// The elements of the keys and of the values, token by token.
    pub fn get_all(&self) -> (r: (Vec<KvTerm>, Vec<KvTerm>))
        requires
            self.wf(),
            self.seq_len * self.head_dim <= usize::MAX,
        ensures
            r.0@ == all_terms(self.key_window(), self.head_dim as int),
            r.1@ == all_terms(self.value_window(), self.head_dim as int),
    {
        (
            self.keys.get_all(self.seq_len, self.head_dim),
            self.values.get_all(self.seq_len, self.head_dim),
        )
    }

    /// Element `dim` of the key at a position.
    pub fn key_at(&self, position: usize, dim: usize) -> (r: KvTerm)
        requires
            self.wf(),
            position < self.seq_len,
            dim < self.head_dim,
        ensures
            r == self.key_window()[position as int].term(dim as int),
    {
        self.keys.value_at(position, dim, self.head_dim)
    }

    /// Element `dim` of the value at a position.
    pub fn value_at(&self, position: usize, dim: usize) -> (r: KvTerm)
        requires
            self.wf(),
            position < self.seq_len,
            dim < self.head_dim,
        ensures
            r == self.value_window()[position as int].term(dim as int),
    {
        self.values.value_at(position, dim, self.head_dim)
    }

    /// Drops every token.
    pub fn clear(&mut self)
        requires
            old(self).wf(),
        ensures
            final(self).wf(),
            final(self).seq_len == 0,
            final(self).max_seq_len == old(self).max_seq_len,
            final(self).head_dim == old(self).head_dim,
            final(self).quant_type == old(self).quant_type,
            final(self).key_window() == Seq::<RowView>::empty(),
            final(self).value_window() == Seq::<RowView>::empty(),
    {
        self.keys.clear(self.head_dim);
        self.values.clear(self.head_dim);
        self.seq_len = 0;
        assert(self.key_window() =~= Seq::empty());
        assert(self.value_window() =~= Seq::empty());
    }

    /// The bytes that the cache takes, full or not.
    pub fn memory_usage(&self) -> (r: usize)
        requires
            self.wf(),
            self.keys.bytes(self.head_dim) + self.values.bytes(self.head_dim) <= usize::MAX,
        ensures
            r == self.keys.bytes(self.head_dim) + self.values.bytes(self.head_dim),
    {
        self.keys.memory_usage(self.head_dim) + self.values.memory_usage(self.head_dim)
    }

    pub fn is_quantized(&self) -> (r: bool)
        requires
            self.wf(),
        ensures
            r == !(self.quant_type is Unquantized),
    {
        self.keys.is_quantized() || self.values.is_quantized()
    }
}

/// A window after a run of additions.
pub open spec fn slid_all(window: Seq<RowView>, rows: Seq<RowView>, capacity: int) -> Seq<RowView>
    decreases rows.len(),
{
    if rows.len() == 0 {
        window
    } else {
        slid(slid_all(window, rows.drop_last(), capacity), rows.last(), capacity)
    }
}

/// A cache that held nothing holds the last of the vectors that were added to it, in
/// their order, as many as it has room for.
pub proof fn cache_keeps_latest(rows: Seq<RowView>, capacity: int)
    requires
        capacity > 0,
    ensures
        rows.len() <= capacity ==> slid_all(seq![], rows, capacity) == rows,
        rows.len() > capacity ==> slid_all(seq![], rows, capacity) == rows.skip(
            rows.len() - capacity,
        ),
    decreases rows.len(),
{
    if rows.len() > 0 {
        cache_keeps_latest(rows.drop_last(), capacity);
        if rows.len() <= capacity {
            assert(rows.drop_last().push(rows.last()) =~= rows);
        } else {
            let kept = slid_all(seq![], rows.drop_last(), capacity);
            assert(kept.len() == capacity);
            assert(kept.skip(1).push(rows.last()) =~= rows.skip(rows.len() - capacity));
        }
    } else {
        assert(slid_all(seq![], rows, capacity) =~= rows);
    }
}

/// The last vector added to a cache is the last that it holds.
pub proof fn added_is_last(window: Seq<RowView>, row: RowView, capacity: int)
    requires
        capacity > 0,
        window.len() <= capacity,
    ensures
        slid(window, row, capacity).last() == row,
        slid(window, row, capacity).len() <= capacity,
{
}

/// An element of a vector is the number that stands there, or the level that its code
/// gives.
pub proof fn vectors_hold_elements(v: Seq<u32>, low: u32, step: u32, codes: Seq<u32>, d: int)
    ensures
        RowView::Float(v).term(d) == KvTerm::Value(v[d]),
        (RowView::Quantized { low, step, codes }).term(d) == (KvTerm::Affine {
            low,
            level: codes[d],
            step,
        }),
{
}

/// A vector fits a cache of its form whose vectors have as many elements, where every code
/// has no more than the bits of the cache.
pub proof fn vectors_of_the_form_fit(v: Seq<u32>, low: u32, step: u32, codes: Seq<u32>, bits: u32)
    ensures
        RowView::Float(v).fits(false, v.len() as int, bits),
        !RowView::Float(v).fits(true, v.len() as int, bits),
        (RowView::Quantized { low, step, codes }).fits(true, codes.len() as int, bits) <==> (forall|
            i: int,
        |
            0 <= i < codes.len() ==> (#[trigger] codes[i]) < two_to(bits as nat)),
        !(RowView::Quantized { low, step, codes }).fits(false, codes.len() as int, bits),
{
}

/// The bytes that hold a number of bits: the fewest that do.
pub open spec fn whole_bytes(bits: int) -> int {
    choose|n: int| #![trigger 8 * n] 8 * n >= bits && 8 * n < bits + 8
}

/// A stream of numbers takes four bytes for each; one of codes takes whole bytes for the
/// bits of a vector, and eight more for its lowest value and its step.
pub proof fn streams_take_their_bytes(b: KvCacheBuffer, head_dim: usize)
    ensures
        !b.quantized() ==> b.bytes(head_dim) == 4 * (b@.len() * head_dim),
        b.quantized() ==> b.bytes(head_dim) == b@.len() * (whole_bytes(head_dim * b.code_bits()) + 8),
{
    let n = b@.len() as int;
    if b.quantized() {
        assert(head_dim * b.code_bits() >= 0) by (nonlinear_arith);
        let total = (head_dim * b.code_bits()) as nat;
        let row = div_ceil(total, 8) as int;
        assert(8 * row >= total && 8 * row < total + 8);
        assert(whole_bytes(total as int) == row);
        assert(n * (row + 8) == row * n + 8 * n) by (nonlinear_arith);
    } else {
        assert(n * (head_dim as int) * 4 == 4 * (n * head_dim)) by (nonlinear_arith);
    }
}

} // verus!
