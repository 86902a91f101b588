//! Tensor descriptions and model metadata.

use crate::gguf::types::{GgufByteOrder, GgufDataType};
use crate::gguf::value::{GgufValue, ValueView};
use crate::names::NameMap;
use crate::text::str_eq;
use vstd::prelude::*;

verus! {

/// Where a tensor is and what it holds.
#[derive(Debug)]
pub struct TensorInfo {
    pub name: String,
    pub n_dims: u32,
    pub shape: Vec<u64>,
    pub data_type: GgufDataType,
    pub offset: u64,
    pub stride: Vec<usize>,
}

/// A tensor description with its name and lists as sequences.
#[verifier::ext_equal]
pub struct TensorView {
    pub name: Seq<char>,
    pub n_dims: u32,
    pub shape: Seq<u64>,
    pub data_type: GgufDataType,
    pub offset: u64,
    pub stride: Seq<usize>,
}

impl View for TensorInfo {
    type V = TensorView;

    open spec fn view(&self) -> TensorView {
        TensorView {
            name: self.name@,
            n_dims: self.n_dims,
            shape: self.shape@,
            data_type: self.data_type,
            offset: self.offset,
            stride: self.stride@,
        }
    }
}

/// The descriptions of a list of tensors.
pub open spec fn tensor_views(v: Seq<TensorInfo>) -> Seq<TensorView> {
    Seq::new(v.len(), |i: int| v[i]@)
}

/// The product of a shape's dimensions.
pub open spec fn shape_product(shape: Seq<u64>) -> nat
    decreases shape.len(),
{
    if shape.len() == 0 {
        1
    } else {
        shape_product(shape.drop_last()) * (shape.last() as usize as nat)
    }
}

/// No product of leading dimensions is too large for a `usize`.
pub open spec fn shape_fits(shape: Seq<u64>) -> bool {
    forall|n: int| 0 <= n <= shape.len() ==> #[trigger] shape_product(shape.take(n)) <= usize::MAX
}

/// The number of elements of a shape, unless a product of leading dimensions is
/// too large.
pub fn checked_elements(shape: &Vec<u64>) -> (r: Option<usize>)
    ensures
        r is Some <==> shape_fits(shape@),
        r matches Some(n) ==> n == shape_product(shape@),
{
    let mut product: usize = 1;
    let mut i: usize = 0;
    while i < shape.len()
        invariant
            i <= shape@.len(),
            product == shape_product(shape@.take(i as int)),
            forall|n: int|
                0 <= n <= i ==> #[trigger] shape_product(shape@.take(n)) <= usize::MAX,
        decreases shape@.len() - i,
    {
        let ghost next = shape@.take(i + 1);
        assert(next.drop_last() =~= shape@.take(i as int));
        match product.checked_mul(shape[i] as usize) {
            Some(p) => {
                product = p;
            },
            None => {
                assert(shape_product(next) > usize::MAX);
                return None;
            },
        }
        i += 1;
    }
    assert(shape@.take(i as int) =~= shape@);
    Some(product)
}

impl Clone for TensorInfo {
    fn clone(&self) -> (r: Self)
        ensures
            r@ == self@,
    {
        let r = TensorInfo {
            name: self.name.clone(),
            n_dims: self.n_dims,
            shape: self.shape.clone(),
            data_type: self.data_type,
            offset: self.offset,
            stride: self.stride.clone(),
        };
        assert(r@ =~= self@);
        r
    }
}

impl TensorInfo {
    pub fn num_elements(&self) -> (r: usize)
        requires
            shape_fits(self.shape@),
        ensures
            r == shape_product(self.shape@),
    {
        checked_elements(&self.shape).unwrap()
    }

    /// The bytes that the tensor's data takes.
    pub fn data_size(&self) -> (r: usize)
        requires
            shape_fits(self.shape@),
            self.data_type.spec_bytes(shape_product(self.shape@)) <= usize::MAX,
        ensures
            r == self.data_type.spec_bytes(shape_product(self.shape@)),
    {
        self.data_type.bytes_per_element(self.num_elements())
    }

    /// The bytes that the tensor's data takes, unless a size on the way there is
    /// too large.
    pub fn checked_data_size(&self) -> (r: Option<usize>)
        ensures
            r is Some <==> shape_fits(self.shape@) && self.data_type.spec_bytes(
                shape_product(self.shape@),
            ) <= usize::MAX,
            r matches Some(n) ==> n == self.data_type.spec_bytes(shape_product(self.shape@)),
    {
        match checked_elements(&self.shape) {
            Some(n) => self.data_type.checked_bytes(n),
            None => None,
        }
    }
}

/// Everything that a file says ahead of its tensor data.
#[derive(Debug)]
pub struct ModelMetadata {
    pub version: u32,
    pub tensor_count: u64,
    pub kv_count: u64,
    pub byte_order: GgufByteOrder,
    pub alignment: usize,
    pub tensor_data_offset: u64,
    pub metadata: NameMap<GgufValue>,
    pub tensors: Vec<TensorInfo>,
}

/// Model metadata with its collections as mathematical values.
#[verifier::ext_equal]
pub struct MetadataView {
    pub version: u32,
    pub tensor_count: u64,
    pub kv_count: u64,
    pub alignment: usize,
    pub tensor_data_offset: u64,
    pub metadata: Map<Seq<char>, ValueView>,
    pub tensors: Seq<TensorView>,
}

impl View for ModelMetadata {
    type V = MetadataView;

    open spec fn view(&self) -> MetadataView {
        MetadataView {
            version: self.version,
            tensor_count: self.tensor_count,
            kv_count: self.kv_count,
            alignment: self.alignment,
            tensor_data_offset: self.tensor_data_offset,
            metadata: self.metadata@,
            tensors: tensor_views(self.tensors@),
        }
    }
}

/// Copies a metadata map.
pub fn copy_metadata(m: &NameMap<GgufValue>) -> (r: NameMap<GgufValue>)
    ensures
        r@ == m@,
        r.names() == m.names(),
{
    assert forall|a: GgufValue, b: GgufValue| #[trigger] cloned(a, b) implies a@ == b@ by {}
    m.clone()
}

/// Copies a list of tensor descriptions.
pub fn copy_tensors(v: &Vec<TensorInfo>) -> (r: Vec<TensorInfo>)
    ensures
        tensor_views(r@) == tensor_views(v@),
{
    let r = v.clone();
    assert forall|i: int| 0 <= i < v@.len() implies r@[i]@ == v@[i]@ by {
        assert(cloned(v@[i], r@[i]));
    }
    assert(tensor_views(r@) =~= tensor_views(v@));
    r
}

impl Clone for ModelMetadata {
    fn clone(&self) -> (r: Self)
        ensures
            r@ == self@,
    {
        ModelMetadata {
            version: self.version,
            tensor_count: self.tensor_count,
            kv_count: self.kv_count,
            byte_order: self.byte_order,
            alignment: self.alignment,
            tensor_data_offset: self.tensor_data_offset,
            metadata: copy_metadata(&self.metadata),
            tensors: copy_tensors(&self.tensors),
        }
    }
}

/// The text stored under a key.
pub open spec fn lookup_str(m: Map<Seq<char>, ValueView>, key: Seq<char>) -> Option<Seq<char>> {
    if m.contains_key(key) && m[key] is String {
        Some(m[key]->String_0)
    } else {
        None
    }
}

/// The bits of the 32-bit floating-point value stored under a key.
pub open spec fn lookup_f32(m: Map<Seq<char>, ValueView>, key: Seq<char>) -> Option<u32> {
    if m.contains_key(key) && m[key] is F32 {
        Some(m[key]->F32_0)
    } else {
        None
    }
}

/// The 32-bit signed integer stored under a key.
pub open spec fn lookup_i32(m: Map<Seq<char>, ValueView>, key: Seq<char>) -> Option<i32> {
    if m.contains_key(key) && m[key] is I32 {
        Some(m[key]->I32_0)
    } else {
        None
    }
}

/// The size stored under a key, in one of the four integer types that a size may
/// have. The unsigned ones are cut to the width of a `usize`; of the signed ones
/// only a value that a `usize` can hold counts.
pub open spec fn lookup_usize(m: Map<Seq<char>, ValueView>, key: Seq<char>) -> Option<usize> {
    if m.contains_key(key) {
        value_as_usize(m[key])
    } else {
        None
    }
}

/// A value read as a size.
pub open spec fn value_as_usize(v: ValueView) -> Option<usize> {
    match v {
        ValueView::U64(v) => Some(v as usize),
        ValueView::U32(v) => Some(v as usize),
        ValueView::I64(v) => if 0 <= v <= usize::MAX {
            Some(v as usize)
        } else {
            None
        },
        ValueView::I32(v) => if 0 <= v <= usize::MAX {
            Some(v as usize)
        } else {
            None
        },
        _ => None,
    }
}

/// Same text, or both absent.
pub open spec fn same_text(r: Option<&str>, t: Option<Seq<char>>) -> bool {
    match (r, t) {
        (Some(s), Some(t)) => s@ == t,
        (None, None) => true,
        _ => false,
    }
}

/// The first of two that is there.
pub open spec fn first_of<T>(a: Option<T>, b: Option<T>) -> Option<T> {
    if a is Some {
        a
    } else {
        b
    }
}

impl ModelMetadata {
    pub fn get_str(&self, key: &str) -> (r: Option<&str>)
        ensures
            same_text(r, lookup_str(self.metadata@, key@)),
    {
        match self.metadata.get(key) {
            Some(v) => v.as_str(),
            None => None,
        }
    }

    /// The bits of a 32-bit floating-point value.
    pub fn get_f32(&self, key: &str) -> (r: Option<u32>)
        ensures
            r == lookup_f32(self.metadata@, key@),
    {
        match self.metadata.get(key) {
            Some(v) => v.as_f32(),
            None => None,
        }
    }

    pub fn get_i32(&self, key: &str) -> (r: Option<i32>)
        ensures
            r == lookup_i32(self.metadata@, key@),
    {
        match self.metadata.get(key) {
            Some(v) => v.as_i32(),
            None => None,
        }
    }

    /// A size, in whichever of four integer types it is stored.
    pub fn get_usize(&self, key: &str) -> (r: Option<usize>)
        ensures
            r == lookup_usize(self.metadata@, key@),
    {
        match self.metadata.get(key) {
            Some(GgufValue::U64(v)) => Some(*v as usize),
            Some(GgufValue::U32(v)) => Some(*v as usize),
            Some(GgufValue::I64(v)) => if 0 <= *v && *v as u64 <= usize::MAX as u64 {
                Some(*v as usize)
            } else {
                None
            },
            Some(GgufValue::I32(v)) => if 0 <= *v && *v as u64 <= usize::MAX as u64 {
                Some(*v as usize)
            } else {
                None
            },
            _ => None,
        }
    }

    /// The model architecture.
    pub fn architecture(&self) -> (r: Option<&str>)
        ensures
            same_text(r, lookup_str(self.metadata@, "general.architecture"@)),
    {
        self.get_str("general.architecture")
    }

    /// The model name.
    pub fn name(&self) -> (r: Option<&str>)
        ensures
            same_text(
                r,
                first_of(
                    lookup_str(self.metadata@, "general.name"@),
                    lookup_str(self.metadata@, "llama.vocab_size"@),
                ),
            ),
    {
        match self.get_str("general.name") {
            Some(s) => Some(s),
            None => self.get_str("llama.vocab_size"),
        }
    }

    /// The context length.
    pub fn context_length(&self) -> (r: Option<usize>)
        ensures
            r == lookup_usize(self.metadata@, "llama.context_length"@),
    {
        self.get_usize("llama.context_length")
    }

    /// The number of attention heads.
    pub fn num_attention_heads(&self) -> (r: Option<usize>)
        ensures
            r == lookup_usize(self.metadata@, "llama.attention.head_count"@),
    {
        self.get_usize("llama.attention.head_count")
    }

    /// The number of key heads, for grouped-query attention.
    pub fn num_key_value_heads(&self) -> (r: Option<usize>)
        ensures
            r == lookup_usize(self.metadata@, "llama.attention.head_count_kv"@),
    {
        self.get_usize("llama.attention.head_count_kv")
    }

    /// The number of layers.
    pub fn num_layers(&self) -> (r: Option<usize>)
        ensures
            r == lookup_usize(self.metadata@, "llama.block_count"@),
    {
        self.get_usize("llama.block_count")
    }

    /// The hidden size.
    pub fn hidden_size(&self) -> (r: Option<usize>)
        ensures
            r == lookup_usize(self.metadata@, "llama.embedding_length"@),
    {
        self.get_usize("llama.embedding_length")
    }

    /// The size of the feed-forward layer.
    pub fn feed_forward_size(&self) -> (r: Option<usize>)
        ensures
            r == lookup_usize(self.metadata@, "llama.feed_forward_length"@),
    {
        self.get_usize("llama.feed_forward_length")
    }

    /// The number of rotary dimensions.
    pub fn rope_dim(&self) -> (r: Option<usize>)
        ensures
            r == lookup_usize(self.metadata@, "llama.rope.dimension_count"@),
    {
        self.get_usize("llama.rope.dimension_count")
    }

    /// The vocabulary size.
    pub fn vocab_size(&self) -> (r: Option<usize>)
        ensures
            r == lookup_usize(self.metadata@, "llama.vocab_size"@),
    {
        self.get_usize("llama.vocab_size")
    }

    /// The bits of the rotary frequency base; one million where none is stored.
    pub fn rope_freq_base(&self) -> (r: u32)
        ensures
            r == match lookup_f32(self.metadata@, "llama.rope.freq_base"@) {
                Some(bits) => bits,
                None => 0x4974_2400,
            },
    {
        match self.get_f32("llama.rope.freq_base") {
            Some(bits) => bits,
            None => 0x4974_2400,
        }
    }

    /// The quantization format of the weights.
    pub fn quant_format(&self) -> (r: Option<&str>)
        ensures
            same_text(
                r,
                first_of(
                    lookup_str(self.metadata@, "general.quantization_version"@),
                    lookup_str(self.metadata@, "llama.quantization_version"@),
                ),
            ),
    {
        match self.get_str("general.quantization_version") {
            Some(s) => Some(s),
            None => self.get_str("llama.quantization_version"),
        }
    }

    /// The first tensor with a name.
    pub fn get_tensor(&self, name: &str) -> (r: Option<&TensorInfo>)
        ensures
            match r {
                Some(t) => exists|i: int|
                    {
                        &&& 0 <= i < self.tensors@.len()
                        &&& #[trigger] self.tensors@[i] == *t
                        &&& t.name@ == name@
                        &&& forall|j: int| 0 <= j < i ==> (#[trigger] self.tensors@[j]).name@ != name@
                    },
                None => forall|j: int|
                    0 <= j < self.tensors@.len() ==> (#[trigger] self.tensors@[j]).name@ != name@,
            },
    {
        let mut i: usize = 0;
        while i < self.tensors.len()
            invariant
                i <= self.tensors@.len(),
                forall|j: int| 0 <= j < i ==> (#[trigger] self.tensors@[j]).name@ != name@,
            decreases self.tensors@.len() - i,
        {
            if str_eq(self.tensors[i].name.as_str(), name) {
                return Some(&self.tensors[i]);
            }
            i += 1;
        }
        None
    }

    /// Where a tensor's data starts in the file.
    pub fn absolute_tensor_offset(&self, tensor: &TensorInfo) -> (r: u64)
        requires
            self.tensor_data_offset + tensor.offset <= u64::MAX,
        ensures
            r == self.tensor_data_offset + tensor.offset,
    {
        self.tensor_data_offset + tensor.offset
    }
}

} // verus!
