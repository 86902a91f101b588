//! The formats in use, with the codebooks and rotations of a quantized cache.

use crate::gguf::types::{blocks_for, div_ceil};
use crate::quant::blocks::{decode_weights, decoded, decoded_len, WeightTerm};
use crate::quant::codebook::{codebook_of, decoded_levels, encodes, Codebook, CodebookView};
use crate::quant::formats::{GroupSize, KvQuantType, QuantFormat, ONE_BITS};
use crate::quant::packing::two_to;
use vstd::prelude::*;

verus! {

/// The scale and the offset of a group. Floating-point numbers are held by their bits.
#[derive(Debug, Clone, Copy, PartialEq, Eq, Structural)]
pub struct QuantParams {
    pub scale: u32,
    pub delta: u32,
}

impl QuantParams {
    pub fn new(scale: u32, delta: u32) -> (r: Self)
        ensures
            r == (QuantParams { scale, delta }),
    {
        QuantParams { scale, delta }
    }

    /// A scale of one and an offset of zero.
    pub fn identity() -> (r: Self)
        ensures
            r == (QuantParams { scale: ONE_BITS, delta: 0 }),
    {
        QuantParams { scale: ONE_BITS, delta: 0 }
    }
}

/// A square matrix, row by row, of the bits of single-precision numbers.
#[derive(Debug)]
pub struct RotationMatrix {
    pub dim: usize,
    pub data: Vec<u32>,
}

/// A matrix with its elements as a sequence.
#[verifier::ext_equal]
pub struct RotationView {
    pub dim: usize,
    pub data: Seq<u32>,
}

impl View for RotationMatrix {
    type V = RotationView;

    open spec fn view(&self) -> RotationView {
        RotationView { dim: self.dim, data: self.data@ }
    }
}

/// A matrix of zeros.
pub open spec fn zero_rotation(dim: usize) -> RotationView {
    RotationView { dim, data: Seq::new((dim * dim) as nat, |i: int| 0u32) }
}

/// The matrices of a list.
pub open spec fn rotation_views(v: Seq<RotationMatrix>) -> Seq<RotationView> {
    Seq::new(v.len(), |i: int| v[i]@)
}

impl RotationMatrix {
    /// A matrix of zeros.
    pub fn new(dim: usize) -> (r: Self)
        requires
            dim * dim <= usize::MAX,
        ensures
            r@ == zero_rotation(dim),
    {
        let n: usize = dim * dim;
        let mut data: Vec<u32> = Vec::new();
        let mut i: usize = 0;
        while i < n
            invariant
                i <= n,
                data@ == Seq::new(i as nat, |i: int| 0u32),
            decreases n - i,
        {
            data.push(0);
            i += 1;
            assert(data@ =~= Seq::new(i as nat, |i: int| 0u32));
        }
        RotationMatrix { dim, data }
    }
}

/// The formats in use.
#[derive(Debug)]
pub struct QuantEngine {
    pub weight_format: QuantFormat,
    pub kv_quant: KvQuantType,
    pub group_size: GroupSize,
    /// One matrix for each layer.
    pub rotations: Vec<RotationMatrix>,
    /// The codebooks that were made, one for each number of bits and size.
    pub codebooks: Vec<Codebook>,
}

/// The codebooks of a list.
pub open spec fn codebook_views(v: Seq<Codebook>) -> Seq<CodebookView> {
    Seq::new(v.len(), |i: int| v[i]@)
}

/// The codebooks that are made at the start.
pub open spec fn first_codebooks() -> Seq<CodebookView> {
    seq![
        codebook_of(2, 128),
        codebook_of(2, 256),
        codebook_of(3, 128),
        codebook_of(3, 256),
        codebook_of(4, 128),
        codebook_of(4, 256),
    ]
}

/// The codebooks once there is one of a size.
pub open spec fn with_codebook(books: Seq<CodebookView>, bits: u32, dim: usize) -> Seq<CodebookView> {
    if books.contains(codebook_of(bits, dim)) {
        books
    } else {
        books.push(codebook_of(bits, dim))
    }
}

/// The matrices once one is set at a place. Places on the way there get zeros.
pub open spec fn with_rotation(all: Seq<RotationView>, layer: int, rotation: RotationView) -> Seq<
    RotationView,
> {
    Seq::new(
        if layer < all.len() {
            all.len()
        } else {
            (layer + 1) as nat
        },
        |i: int|
            if i == layer {
                rotation
            } else if i < all.len() {
                all[i]
            } else {
                zero_rotation(rotation.dim)
            },
    )
}

/// The bytes that a quantized cache takes.
pub open spec fn kv_memory(kv_quant: KvQuantType, layers: nat, head_dim: nat, seq_len: nat) -> nat {
    if kv_quant is Unquantized {
        layers * 2 * head_dim * seq_len * 2
    } else {
        div_ceil(
            layers * head_dim * seq_len * ((kv_quant.spec_key_bits() + kv_quant.spec_val_bits())
                as nat),
            8,
        )
    }
}

/// No product on the way to the bytes of a cache is too large.
pub open spec fn kv_memory_fits(kv_quant: KvQuantType, layers: nat, head_dim: nat, seq_len: nat) -> bool {
    if kv_quant is Unquantized {
        &&& layers * 2 <= usize::MAX
        &&& layers * 2 * head_dim <= usize::MAX
        &&& layers * 2 * head_dim * seq_len <= usize::MAX
        &&& layers * 2 * head_dim * seq_len * 2 <= usize::MAX
    } else {
        &&& layers * head_dim <= usize::MAX
        &&& layers * head_dim * seq_len <= usize::MAX
        &&& layers * head_dim * seq_len * ((kv_quant.spec_key_bits() + kv_quant.spec_val_bits())
            as nat) <= usize::MAX
    }
}

impl QuantEngine {
    /// Every codebook is the one of its size.
    pub open spec fn wf(&self) -> bool {
        forall|i: int|
            0 <= i < self.codebooks@.len() ==> (#[trigger] self.codebooks@[i])@ == codebook_of(
                self.codebooks@[i].bits,
                self.codebooks@[i].dim,
            )
    }

    /// The size of a cached vector: that of the first rotation, or else a usual one.
    pub open spec fn kv_dim(&self) -> usize {
        if self.rotations@.len() > 0 {
            self.rotations@[0].dim
        } else {
            256
        }
    }

    pub fn new(weight_format: QuantFormat, kv_quant: KvQuantType) -> (r: Self)
        ensures
            r.wf(),
            r.weight_format == weight_format,
            r.kv_quant == kv_quant,
            r.group_size == GroupSize::N256,
            rotation_views(r.rotations@) == Seq::<RotationView>::empty(),
            codebook_views(r.codebooks@) == first_codebooks(),
    {
        let mut codebooks: Vec<Codebook> = Vec::new();
        codebooks.push(Codebook::new(2, 128));
        codebooks.push(Codebook::new(2, 256));
        codebooks.push(Codebook::new(3, 128));
        codebooks.push(Codebook::new(3, 256));
        codebooks.push(Codebook::new(4, 128));
        codebooks.push(Codebook::new(4, 256));
        assert(codebook_views(codebooks@) =~= first_codebooks());
        let r = QuantEngine {
            weight_format,
            kv_quant,
            group_size: GroupSize::N256,
            rotations: Vec::new(),
            codebooks,
        };
        assert(rotation_views(r.rotations@) =~= Seq::empty());
        r
    }

    /// Sets the matrix of a layer.
    pub fn add_rotation(&mut self, layer: usize, rotation: RotationMatrix)
        requires
            rotation.dim * rotation.dim <= usize::MAX,
            layer < usize::MAX,
        ensures
            rotation_views(final(self).rotations@) == with_rotation(
                rotation_views(old(self).rotations@),
                layer as int,
                rotation@,
            ),
            *final(self) == (QuantEngine { rotations: final(self).rotations, ..*old(self) }),
    {
        let ghost before = rotation_views(self.rotations@);
        while self.rotations.len() <= layer
            invariant
                rotation.dim * rotation.dim <= usize::MAX,
                layer < usize::MAX,
                before == rotation_views(old(self).rotations@),
                before.len() <= self.rotations@.len(),
                self.rotations@.len() <= layer + 1 || self.rotations@.len() == before.len(),
                forall|i: int|
                    0 <= i < self.rotations@.len() ==> (#[trigger] self.rotations@[i])@ == (if i
                        < before.len() {
                        before[i]
                    } else {
                        zero_rotation(rotation.dim)
                    }),
                *self == (QuantEngine { rotations: self.rotations, ..*old(self) }),
            decreases layer + 1 - self.rotations@.len(),
        {
            self.rotations.push(RotationMatrix::new(rotation.dim));
        }
        let ghost grown = self.rotations@;
        self.rotations.set(layer, rotation);
        assert forall|i: int| 0 <= i < self.rotations@.len() implies rotation_views(
            self.rotations@,
        )[i] == with_rotation(before, layer as int, rotation@)[i] by {
            if i != layer {
                assert(self.rotations@[i] == grown[i]);
            }
        }
        assert(rotation_views(self.rotations@) =~= with_rotation(before, layer as int, rotation@));
    }

    /// The place of the codebook of a size.
    fn find_codebook(&self, bits: u32, dim: usize) -> (r: Option<usize>)
        requires
            self.wf(),
        ensures
            match r {
                Some(i) => i < self.codebooks@.len() && self.codebooks@[i as int]@ == codebook_of(
                    bits,
                    dim,
                ),
                None => !codebook_views(self.codebooks@).contains(codebook_of(bits, dim)),
            },
    {
        let mut i: usize = 0;
        while i < self.codebooks.len()
            invariant
                i <= self.codebooks@.len(),
                self.wf(),
                forall|j: int|
                    0 <= j < i ==> (#[trigger] self.codebooks@[j])@ != codebook_of(bits, dim),
            decreases self.codebooks@.len() - i,
        {
            if self.codebooks[i].bits == bits && self.codebooks[i].dim == dim {
                return Some(i);
            }
            i += 1;
        }
        assert forall|j: int| 0 <= j < codebook_views(self.codebooks@).len() implies codebook_views(
            self.codebooks@,
        )[j] != codebook_of(bits, dim) by {
            assert(self.codebooks@[j]@ != codebook_of(bits, dim));
        }
        None
    }

    /// The place of the codebook of a size, which is made if there is none.
    pub fn get_codebook(&mut self, bits: u32, dim: usize) -> (r: usize)
        requires
            old(self).wf(),
            bits < 32,
        ensures
            final(self).wf(),
            r < final(self).codebooks@.len(),
            final(self).codebooks@[r as int]@ == codebook_of(bits, dim),
            codebook_views(final(self).codebooks@) == with_codebook(
                codebook_views(old(self).codebooks@),
                bits,
                dim,
            ),
            *final(self) == (QuantEngine { codebooks: final(self).codebooks, ..*old(self) }),
    {
        let ghost before = codebook_views(self.codebooks@);
        match self.find_codebook(bits, dim) {
            Some(i) => {
                assert(before[i as int] == codebook_of(bits, dim));
                i
            },
            None => {
                let i: usize = self.codebooks.len();
                self.codebooks.push(Codebook::new(bits, dim));
                assert(codebook_views(self.codebooks@) =~= before.push(codebook_of(bits, dim)));
                i
            },
        }
    }

    /// The weights that bytes of the format in use stand for.
    pub fn dequantize(&self, data: &[u8], output_len: usize) -> (r: Vec<WeightTerm>)
        requires
            decoded_len(self.weight_format.spec_coding(), data@.len() as int, output_len as int)
                <= usize::MAX,
        ensures
            r@ == decoded(self.weight_format.spec_coding(), data@, output_len as int),
    {
        decode_weights(self.weight_format.coding(), data, output_len)
    }

    /// Turns the codes of a key and of a value into bytes, with the codebooks of their
    /// sizes. Keys are rotated before they are given codes.
    pub fn turboquant_kv(&mut self, keys: &Vec<u32>, values: &Vec<u32>) -> (r: (Vec<u8>, Vec<u8>))
        requires
            old(self).wf(),
            keys@.len() * 4 <= usize::MAX,
            values@.len() * 4 <= usize::MAX,
            forall|i: int|
                0 <= i < keys@.len() ==> #[trigger] keys@[i] < two_to(
                    old(self).kv_quant.spec_key_bits() as nat,
                ),
            forall|i: int|
                0 <= i < values@.len() ==> #[trigger] values@[i] < two_to(
                    old(self).kv_quant.spec_val_bits() as nat,
                ),
        ensures
            final(self).wf(),
            encodes(old(self).kv_quant.spec_key_bits(), keys@, r.0@),
            encodes(old(self).kv_quant.spec_val_bits(), values@, r.1@),
            codebook_views(final(self).codebooks@) == with_codebook(
                with_codebook(
                    codebook_views(old(self).codebooks@),
                    old(self).kv_quant.spec_key_bits(),
                    keys@.len() as usize,
                ),
                old(self).kv_quant.spec_val_bits(),
                values@.len() as usize,
            ),
            *final(self) == (QuantEngine { codebooks: final(self).codebooks, ..*old(self) }),
    {
        let key_bits: u32 = self.kv_quant.key_bits();
        let val_bits: u32 = self.kv_quant.val_bits();
        let key_book: usize = self.get_codebook(key_bits, keys.len());
        let key_bytes = self.codebooks[key_book].encode(keys);
        let val_book: usize = self.get_codebook(val_bits, values.len());
        (key_bytes, self.codebooks[val_book].encode(values))
    }

    /// The levels of the keys and of the values that bytes stand for. The keys are
    /// still rotated.
    pub fn turboquant_dequant_kv(&self, quant_keys: &[u8], quant_values: &[u8]) -> (r: (
        Vec<i64>,
        Vec<i64>,
    ))
        requires
            self.wf(),
            quant_keys@.len() * 8 <= usize::MAX,
            quant_values@.len() * 8 <= usize::MAX,
            self.kv_dim() * 3 <= usize::MAX,
            codebook_views(self.codebooks@).contains(
                codebook_of(self.kv_quant.spec_key_bits(), self.kv_dim()),
            ),
            codebook_views(self.codebooks@).contains(
                codebook_of(self.kv_quant.spec_val_bits(), self.kv_dim()),
            ),
        ensures
            r.0@ == decoded_levels(
                codebook_of(self.kv_quant.spec_key_bits(), self.kv_dim()),
                quant_keys@,
                self.kv_dim() as nat,
            ),
            r.1@ == decoded_levels(
                codebook_of(self.kv_quant.spec_val_bits(), self.kv_dim()),
                quant_values@,
                self.kv_dim() as nat,
            ),
    {
        let dim: usize = if self.rotations.len() > 0 {
            self.rotations[0].dim
        } else {
            256
        };
        let key_book: usize = self.find_codebook(self.kv_quant.key_bits(), dim).unwrap();
        let val_book: usize = self.find_codebook(self.kv_quant.val_bits(), dim).unwrap();
        (
            self.codebooks[key_book].decode_exact(quant_keys, dim),
            self.codebooks[val_book].decode_exact(quant_values, dim),
        )
    }

    /// Whether there are codebooks for the size of the cached vectors.
    pub fn has_codebooks(&self) -> (r: bool)
        requires
            self.wf(),
        ensures
            r == (codebook_views(self.codebooks@).contains(
                codebook_of(self.kv_quant.spec_key_bits(), self.kv_dim()),
            ) && codebook_views(self.codebooks@).contains(
                codebook_of(self.kv_quant.spec_val_bits(), self.kv_dim()),
            )),
    {
        let dim: usize = if self.rotations.len() > 0 {
            self.rotations[0].dim
        } else {
            256
        };
        let keys = self.find_codebook(self.kv_quant.key_bits(), dim);
        let values = self.find_codebook(self.kv_quant.val_bits(), dim);
        proof {
            if keys is Some {
                assert(codebook_views(self.codebooks@)[keys->0 as int] == codebook_of(
                    self.kv_quant.spec_key_bits(),
                    dim,
                ));
            }
            if values is Some {
                assert(codebook_views(self.codebooks@)[values->0 as int] == codebook_of(
                    self.kv_quant.spec_val_bits(),
                    dim,
                ));
            }
        }
        keys.is_some() && values.is_some()
    }

    /// The bytes that a cache of that many tokens takes.
    pub fn kv_cache_memory(&self, num_layers: usize, head_dim: usize, seq_len: usize) -> (r: usize)
        requires
            kv_memory_fits(self.kv_quant, num_layers as nat, head_dim as nat, seq_len as nat),
        ensures
            r == kv_memory(
                self.kv_quant,
                num_layers as nat,
                head_dim as nat,
                seq_len as nat,
            ),
    {
        match self.kv_quant {
            KvQuantType::Unquantized => num_layers * 2 * head_dim * seq_len * 2,
            _ => {
                let key_bits: u32 = self.kv_quant.key_bits();
                let val_bits: u32 = self.kv_quant.val_bits();
                let bits: usize = key_bits as usize + val_bits as usize;
                blocks_for(num_layers * head_dim * seq_len * bits, 8)
            },
        }
    }
}

impl Default for QuantEngine {
    fn default() -> (r: Self)
        ensures
            r.wf(),
            r.weight_format == QuantFormat::Q4_K,
            r.kv_quant == KvQuantType::TurboQuant3b2b,
            r.group_size == GroupSize::N256,
            rotation_views(r.rotations@) == Seq::<RotationView>::empty(),
            codebook_views(r.codebooks@) == first_codebooks(),
    {
        QuantEngine::new(QuantFormat::Q4_K, KvQuantType::TurboQuant3b2b)
    }
}

/// Cached vectors have the size of the first rotation, whatever the others have.
pub proof fn vectors_have_the_size_of_the_first_rotation(a: QuantEngine, b: QuantEngine)
    requires
        a.rotations@.len() > 0,
        b.rotations@.len() > 0,
    ensures
        a.kv_dim() == a.rotations@[0]@.dim,
        a.rotations@[0] == b.rotations@[0] ==> a.kv_dim() == b.kv_dim(),
{
}

} // verus!
