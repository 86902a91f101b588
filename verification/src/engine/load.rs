//! What is taken from a model file: sizes, caches, and which tensors are loaded.

use crate::engine::arch::ModelArch;
use crate::engine::config::InferenceConfig;
use crate::engine::kv::{KvCache, RowView};
use crate::engine::tensors::dequantizable;
use crate::gguf::metadata::{
    lookup_f32, lookup_str, lookup_usize, shape_fits, shape_product, tensor_views, ModelMetadata,
    TensorInfo, TensorView,
};
use crate::gguf::types::{div_ceil, GgufDataType};
use crate::gguf::value::ValueView;
use crate::memory::block::MemRegion;
use crate::memory::model::{can_count, lemma_counted, PoolView};
use crate::memory::size::{format_size, size_text};
use crate::memory::unified::{kv_name, new_unified, unified_wf, UnifiedMemory, UnifiedView};
use crate::quant::formats::{KvQuantType, QuantFormat};
use crate::text::{decimal, decimal_string};
use vstd::prelude::*;

verus! {

/// The value that is there, or else another.
pub open spec fn or_else(v: Option<usize>, other: usize) -> usize {
    match v {
        Some(n) => n,
        None => other,
    }
}

/// The sizes of a model.
#[derive(Debug, Clone, Copy, PartialEq, Eq, Structural)]
pub struct ModelDims {
    pub num_layers: usize,
    pub hidden_size: usize,
    pub ff_dim: usize,
    pub num_heads: usize,
    pub num_kv_heads: usize,
    pub vocab_size: usize,
    pub context_length: usize,
    /// The bits of the base of the rotary frequencies.
    pub rope_freq_base: u32,
}

/// The sizes that metadata states, and common ones for what it does not.
pub open spec fn stated_dims(m: Map<Seq<char>, ValueView>) -> ModelDims {
    let num_heads = or_else(lookup_usize(m, "llama.attention.head_count"@), 32);
    ModelDims {
        num_layers: or_else(lookup_usize(m, "llama.block_count"@), 32),
        hidden_size: or_else(lookup_usize(m, "llama.embedding_length"@), 4096),
        ff_dim: or_else(lookup_usize(m, "llama.feed_forward_length"@), 11008),
        num_heads,
        num_kv_heads: or_else(lookup_usize(m, "llama.attention.head_count_kv"@), num_heads),
        vocab_size: or_else(lookup_usize(m, "llama.vocab_size"@), 32000),
        context_length: or_else(lookup_usize(m, "llama.context_length"@), 4096),
        rope_freq_base: match lookup_f32(m, "llama.rope.freq_base"@) {
            Some(bits) => bits,
            None => 0x4974_2400,
        },
    }
}

/// The bytes that the memory pool counts for each element of a cache: two whole
/// numbers where it is not quantized, else the codes and their range.
pub open spec fn kv_bytes_per_dim(kv_quant: KvQuantType) -> nat {
    if kv_quant is Unquantized {
        8
    } else {
        div_ceil((kv_quant.spec_key_bits() + kv_quant.spec_val_bits()) as nat, 8) + 8
    }
}

fn kv_bytes_for(kv_quant: KvQuantType) -> (r: usize)
    ensures
        r == kv_bytes_per_dim(kv_quant),
        8 <= r <= 16,
{
    match kv_quant {
        KvQuantType::Unquantized => 8,
        _ => {
            let bits: u32 = kv_quant.key_bits() + kv_quant.val_bits();
            let bytes: u32 = (bits + 7) / 8;
            proof {
                assert(bytes == div_ceil(bits as nat, 8));
            }
            bytes as usize + 8
        },
    }
}

impl ModelDims {
    /// The size of one head.
    pub open spec fn head_dim(self) -> usize {
        self.hidden_size / self.num_heads
    }

    /// The size of a cached vector.
    pub open spec fn kv_dim(self) -> nat {
        (self.num_kv_heads * self.head_dim()) as nat
    }

    /// The bytes that the memory pool counts for one layer's cache.
    pub open spec fn kv_layer_bytes(self, kv_quant: KvQuantType) -> nat {
        self.context_length as nat * self.kv_dim() * kv_bytes_per_dim(kv_quant)
    }

    /// There are heads, and no size is too large to be counted.
    pub open spec fn fits(self, kv_quant: KvQuantType) -> bool {
        &&& self.num_heads > 0
        &&& self.kv_dim() <= usize::MAX
        &&& self.kv_dim() * kv_quant.spec_key_bits() <= usize::MAX
        &&& self.kv_dim() * kv_quant.spec_val_bits() <= usize::MAX
        &&& self.context_length as nat * self.kv_dim() <= usize::MAX
        &&& self.kv_layer_bytes(kv_quant) <= usize::MAX
        &&& self.num_layers as nat * self.kv_layer_bytes(kv_quant) <= usize::MAX
    }

    /// Whether there are heads and every size can be counted.
    pub fn can_load(&self, kv_quant: KvQuantType) -> (r: bool)
        ensures
            r == self.fits(kv_quant),
    {
        if self.num_heads == 0 {
            return false;
        }
        let head_dim: usize = self.hidden_size / self.num_heads;
        let kv_dim: usize = match self.num_kv_heads.checked_mul(head_dim) {
            Some(n) => n,
            None => {
                return false;
            },
        };
        let key_bits: usize = kv_quant.key_bits() as usize;
        let val_bits: usize = kv_quant.val_bits() as usize;
        if kv_dim.checked_mul(key_bits).is_none() || kv_dim.checked_mul(val_bits).is_none() {
            return false;
        }
        let elements: usize = match self.context_length.checked_mul(kv_dim) {
            Some(n) => n,
            None => {
                return false;
            },
        };
        let bytes: usize = match elements.checked_mul(kv_bytes_for(kv_quant)) {
            Some(n) => n,
            None => {
                return false;
            },
        };
        self.num_layers.checked_mul(bytes).is_some()
    }
}

/// The sizes that metadata states, and common ones for what it does not.
pub fn model_dims(metadata: &ModelMetadata) -> (r: ModelDims)
    ensures
        r == stated_dims(metadata.metadata@),
{
    let num_heads: usize = match metadata.num_attention_heads() {
        Some(n) => n,
        None => 32,
    };
    ModelDims {
        num_layers: match metadata.num_layers() {
            Some(n) => n,
            None => 32,
        },
        hidden_size: match metadata.hidden_size() {
            Some(n) => n,
            None => 4096,
        },
        ff_dim: match metadata.feed_forward_size() {
            Some(n) => n,
            None => 11008,
        },
        num_heads,
        num_kv_heads: match metadata.num_key_value_heads() {
            Some(n) => n,
            None => num_heads,
        },
        vocab_size: match metadata.vocab_size() {
            Some(n) => n,
            None => 32000,
        },
        context_length: match metadata.context_length() {
            Some(n) => n,
            None => 4096,
        },
        rope_freq_base: metadata.rope_freq_base(),
    }
}

/// The quantization that a tensor of a type stands for, if it stands for one.
pub open spec fn format_of(t: GgufDataType) -> Option<QuantFormat> {
    match t {
        GgufDataType::F32 => Some(QuantFormat::FP32),
        GgufDataType::F16 | GgufDataType::BF16 => Some(QuantFormat::FP16),
        GgufDataType::Q4_0 => Some(QuantFormat::Q4_0),
        GgufDataType::Q4_1 => Some(QuantFormat::Q4_1),
        GgufDataType::Q4_K => Some(QuantFormat::Q4_K),
        GgufDataType::Q5_0 => Some(QuantFormat::Q5_0),
        GgufDataType::Q5_1 => Some(QuantFormat::Q5_1),
        GgufDataType::Q5_K => Some(QuantFormat::Q5_K),
        GgufDataType::Q6_K => Some(QuantFormat::Q6_K),
        GgufDataType::Q8_0 => Some(QuantFormat::Q8_0),
        GgufDataType::Q8_K => Some(QuantFormat::Q8_K),
        GgufDataType::Q2_K => Some(QuantFormat::Q2_K),
        GgufDataType::Q3_K => Some(QuantFormat::Q3_K),
        _ => None,
    }
}

/// The quantization of the first tensor, from place `i` on, that stands for one.
pub open spec fn detected_format(tensors: Seq<TensorView>, i: int) -> Option<QuantFormat>
    decreases tensors.len() - i,
{
    if i < 0 || i >= tensors.len() {
        None
    } else if format_of(tensors[i].data_type) is Some {
        format_of(tensors[i].data_type)
    } else {
        detected_format(tensors, i + 1)
    }
}

fn quant_format_of(t: GgufDataType) -> (r: Option<QuantFormat>)
    ensures
        r == format_of(t),
{
    match t {
        GgufDataType::F32 => Some(QuantFormat::FP32),
        GgufDataType::F16 | GgufDataType::BF16 => Some(QuantFormat::FP16),
        GgufDataType::Q4_0 => Some(QuantFormat::Q4_0),
        GgufDataType::Q4_1 => Some(QuantFormat::Q4_1),
        GgufDataType::Q4_K => Some(QuantFormat::Q4_K),
        GgufDataType::Q5_0 => Some(QuantFormat::Q5_0),
        GgufDataType::Q5_1 => Some(QuantFormat::Q5_1),
        GgufDataType::Q5_K => Some(QuantFormat::Q5_K),
        GgufDataType::Q6_K => Some(QuantFormat::Q6_K),
        GgufDataType::Q8_0 => Some(QuantFormat::Q8_0),
        GgufDataType::Q8_K => Some(QuantFormat::Q8_K),
        GgufDataType::Q2_K => Some(QuantFormat::Q2_K),
        GgufDataType::Q3_K => Some(QuantFormat::Q3_K),
        _ => None,
    }
}

/// The quantization of the weights, going by the first tensor that stands for one.
pub fn detect_weight_quant(metadata: &ModelMetadata) -> (r: Option<QuantFormat>)
    ensures
        r == detected_format(metadata@.tensors, 0),
{
    let ghost all = metadata@.tensors;
    let mut i: usize = 0;
    while i < metadata.tensors.len()
        invariant
            i <= metadata.tensors@.len(),
            all == tensor_views(metadata.tensors@),
            detected_format(all, 0) == detected_format(all, i as int),
        decreases metadata.tensors@.len() - i,
    {
        let format = quant_format_of(metadata.tensors[i].data_type);
        assert(all[i as int] == metadata.tensors@[i as int]@);
        if format.is_some() {
            return format;
        }
        i += 1;
    }
    None
}

/// What becomes of a tensor.
#[derive(Debug, Clone, Copy, PartialEq, Eq, Structural)]
pub enum TensorChoice {
    /// Its data is read and turned into numbers.
    Load,
    /// It has no elements, or more than are loaded.
    SkipSize,
    /// Its type cannot be turned into numbers.
    SkipType,
}

/// The most elements of a tensor that is loaded.
pub const MAX_TENSOR_ELEMENTS: usize = 10_000_000;

/// What becomes of a tensor: it is loaded if it has elements, not too many, and its
/// type can be turned into numbers.
pub open spec fn choice_for(t: TensorView) -> TensorChoice {
    let elements = shape_product(t.shape);
    if elements == 0 || elements > MAX_TENSOR_ELEMENTS {
        TensorChoice::SkipSize
    } else if !dequantizable(t.data_type) {
        TensorChoice::SkipType
    } else {
        TensorChoice::Load
    }
}

/// What becomes of each tensor.
pub open spec fn choices_for(tensors: Seq<TensorView>) -> Seq<TensorChoice> {
    Seq::new(tensors.len(), |i: int| choice_for(tensors[i]))
}

/// How many of the tensors are not loaded.
pub open spec fn skipped_among(choices: Seq<TensorChoice>) -> nat
    decreases choices.len(),
{
    if choices.len() == 0 {
        0
    } else if choices.last() is Load {
        skipped_among(choices.drop_last())
    } else {
        skipped_among(choices.drop_last()) + 1
    }
}

/// What becomes of a tensor.
pub fn tensor_choice(tensor: &TensorInfo) -> (r: TensorChoice)
    requires
        shape_fits(tensor.shape@),
    ensures
        r == choice_for(tensor@),
{
    let elements: usize = tensor.num_elements();
    if elements == 0 || elements > MAX_TENSOR_ELEMENTS {
        return TensorChoice::SkipSize;
    }
    let supported = matches!(
        tensor.data_type,
        GgufDataType::F32 | GgufDataType::F16 | GgufDataType::BF16 | GgufDataType::Q8_0
            | GgufDataType::Q4_0 | GgufDataType::Q4_K | GgufDataType::Q2_K
    );
    if !supported {
        return TensorChoice::SkipType;
    }
    TensorChoice::Load
}

/// A cache pool after the caches of the first layers were allocated.
pub open spec fn reserved(p: PoolView, layers: nat, bytes: usize) -> PoolView
    decreases layers,
{
    if layers == 0 {
        p
    } else {
        reserved(p, (layers - 1) as nat, bytes).allocated(
            kv_name((layers - 1) as usize),
            bytes,
            MemRegion::Unified,
        ).0
    }
}

/// What is taken from a model file besides the sizes.
#[derive(Debug)]
pub struct LoadPlan {
    pub arch: ModelArch,
    pub weight_format: QuantFormat,
    /// What becomes of each tensor, in their order.
    pub choices: Vec<TensorChoice>,
    /// How many tensors are not loaded.
    pub skipped: usize,
    /// The pools, with the caches accounted for.
    pub memory: UnifiedMemory,
}

/// Inference on a model: its settings, sizes and caches.
#[derive(Debug)]
pub struct InferenceEngine {
    pub kv_caches: Vec<KvCache>,
    pub config: InferenceConfig,
    pub vocab_size: usize,
    pub num_layers: usize,
    pub num_heads: usize,
    pub num_kv_heads: usize,
    pub head_dim: usize,
    pub hidden_size: usize,
    pub ff_dim: usize,
}

/// A cache is empty and has the sizes of the model.
pub open spec fn fresh_cache(c: KvCache, kv_dim: nat, context: usize, kv_quant: KvQuantType) -> bool {
    &&& c.wf()
    &&& c.seq_len == 0
    &&& c.head_dim == kv_dim
    &&& c.max_seq_len == context
    &&& c.quant_type == kv_quant
    &&& c.key_window() == Seq::<RowView>::empty()
    &&& c.value_window() == Seq::<RowView>::empty()
}

/// The name of the architecture in metadata.
pub open spec fn stated_arch(m: Map<Seq<char>, ValueView>) -> Seq<char> {
    match lookup_str(m, "general.architecture"@) {
        Some(s) => s,
        None => "unknown"@,
    }
}

fn reserve_caches(memory: &mut UnifiedMemory, dims: &ModelDims, kv_quant: KvQuantType)
    requires
        dims.fits(kv_quant),
        old(memory)@ == new_unified(),
        unified_wf(old(memory)@),
    ensures
        unified_wf(final(memory)@),
        final(memory)@ == (UnifiedView {
            kv_cache: reserved(
                new_unified().kv_cache,
                dims.num_layers as nat,
                dims.kv_layer_bytes(kv_quant) as usize,
            ),
            ..new_unified()
        }),
{
    let head_dim: usize = dims.hidden_size / dims.num_heads;
    let bytes_per_dim: usize = kv_bytes_for(kv_quant);
    let ghost bytes = dims.kv_layer_bytes(kv_quant);
    let ghost start = memory@.kv_cache;
    let ghost all = dims.num_layers as nat;
    let mut layer: usize = 0;
    assert(can_count(memory@.kv_cache, all, all * bytes));
    while layer < dims.num_layers
        invariant
            layer <= dims.num_layers,
            all == dims.num_layers,
            dims.fits(kv_quant),
            head_dim == dims.head_dim(),
            bytes_per_dim == kv_bytes_per_dim(kv_quant),
            bytes == dims.kv_layer_bytes(kv_quant),
            unified_wf(memory@),
            start == new_unified().kv_cache,
            memory@ == (UnifiedView {
                kv_cache: reserved(start, layer as nat, bytes as usize),
                ..new_unified()
            }),
            can_count(memory@.kv_cache, (all - layer) as nat, ((all - layer) * bytes) as nat),
        decreases dims.num_layers - layer,
    {
        let kv_dim: usize = dims.num_kv_heads * head_dim;
        proof {
            let rest = (all - layer - 1) as nat;
            assert((all - layer) * bytes == rest * bytes + bytes) by (nonlinear_arith)
                requires
                    rest == all - layer - 1,
            ;
            lemma_counted(
                memory@.kv_cache,
                kv_name(layer),
                bytes as usize,
                MemRegion::Unified,
                rest,
                rest * bytes,
            );
            assert(dims.context_length as nat * dims.kv_dim() * kv_bytes_per_dim(kv_quant)
                == dims.context_length * kv_dim * bytes_per_dim);
            assert(rest * bytes >= 0) by (nonlinear_arith);
        }
        let _ = memory.allocate_kv_cache(layer, dims.context_length, kv_dim, bytes_per_dim);
        layer += 1;
    }
}

fn make_caches(dims: &ModelDims, kv_quant: KvQuantType) -> (r: Vec<KvCache>)
    requires
        dims.fits(kv_quant),
    ensures
        r@.len() == dims.num_layers,
        forall|i: int|
            0 <= i < r@.len() ==> fresh_cache(
                #[trigger] r@[i],
                dims.kv_dim(),
                dims.context_length,
                kv_quant,
            ),
{
    let head_dim: usize = dims.hidden_size / dims.num_heads;
    let mut caches: Vec<KvCache> = Vec::new();
    let mut layer: usize = 0;
    while layer < dims.num_layers
        invariant
            layer <= dims.num_layers,
            dims.fits(kv_quant),
            head_dim == dims.head_dim(),
            caches@.len() == layer,
            forall|i: int|
                0 <= i < layer ==> fresh_cache(
                    #[trigger] caches@[i],
                    dims.kv_dim(),
                    dims.context_length,
                    kv_quant,
                ),
        decreases dims.num_layers - layer,
    {
        let kv_dim: usize = dims.num_kv_heads * head_dim;
        caches.push(KvCache::new(kv_dim, dims.context_length, kv_quant));
        layer += 1;
    }
    caches
}

fn choose_tensors(tensors: &Vec<TensorInfo>) -> (r: (Vec<TensorChoice>, usize))
    requires
        forall|i: int| 0 <= i < tensors@.len() ==> shape_fits((#[trigger] tensors@[i]).shape@),
    ensures
        r.0@ == choices_for(tensor_views(tensors@)),
        r.1 == skipped_among(r.0@),
{
    let ghost all = choices_for(tensor_views(tensors@));
    let mut choices: Vec<TensorChoice> = Vec::new();
    let mut skipped: usize = 0;
    let mut i: usize = 0;
    while i < tensors.len()
        invariant
            i <= tensors@.len(),
            all == choices_for(tensor_views(tensors@)),
            choices@ == all.take(i as int),
            skipped == skipped_among(choices@),
            skipped <= i,
            forall|i: int| 0 <= i < tensors@.len() ==> shape_fits((#[trigger] tensors@[i]).shape@),
        decreases tensors@.len() - i,
    {
        let ghost before = choices@;
        let choice = tensor_choice(&tensors[i]);
        if !matches!(choice, TensorChoice::Load) {
            skipped += 1;
        }
        choices.push(choice);
        assert(choices@.drop_last() =~= before);
        assert(choices@.last() == choice);
        i += 1;
        assert(choices@ =~= all.take(i as int));
    }
    assert(choices@ =~= all);
    (choices, skipped)
}

/// The bytes of the first `n` caches.
pub open spec fn cache_bytes(caches: Seq<KvCache>, n: int) -> nat
    decreases n,
{
    if n <= 0 {
        0
    } else {
        cache_bytes(caches, n - 1) + caches[n - 1].keys.bytes(caches[n - 1].head_dim)
            + caches[n - 1].values.bytes(caches[n - 1].head_dim)
    }
}

proof fn lemma_cache_bytes(caches: Seq<KvCache>, n: int, m: int)
    requires
        0 <= n <= m,
    ensures
        cache_bytes(caches, n) <= cache_bytes(caches, m),
    decreases m,
{
    if n < m {
        lemma_cache_bytes(caches, n, m - 1);
    }
}

impl InferenceEngine {
    /// An engine without a model.
    pub fn new(config: InferenceConfig) -> (r: Self)
        ensures
            r.kv_caches@.len() == 0,
            r.config == config,
            r.vocab_size == 0,
            r.num_layers == 0,
            r.num_heads == 0,
            r.num_kv_heads == 0,
            r.head_dim == 0,
            r.hidden_size == 0,
            r.ff_dim == 0,
    {
        InferenceEngine {
            kv_caches: Vec::new(),
            config,
            vocab_size: 0,
            num_layers: 0,
            num_heads: 0,
            num_kv_heads: 0,
            head_dim: 0,
            hidden_size: 0,
            ff_dim: 0,
        }
    }

    /// Takes the sizes of a model, makes its caches, and decides which tensors are
    /// loaded.
    pub fn load_model(&mut self, metadata: &ModelMetadata) -> (r: LoadPlan)
        requires
            stated_dims(metadata.metadata@).fits(old(self).config.kv_quant),
            forall|i: int|
                0 <= i < metadata.tensors@.len() ==> shape_fits(
                    (#[trigger] metadata.tensors@[i]).shape@,
                ),
        ensures
            ({
                let dims = stated_dims(metadata.metadata@);
                let kv_quant = old(self).config.kv_quant;
                let format = match detected_format(metadata@.tensors, 0) {
                    Some(f) => f,
                    None => QuantFormat::Q4_K,
                };
                &&& final(self).vocab_size == dims.vocab_size
                &&& final(self).num_layers == dims.num_layers
                &&& final(self).num_heads == dims.num_heads
                &&& final(self).num_kv_heads == dims.num_kv_heads
                &&& final(self).head_dim == dims.head_dim()
                &&& final(self).hidden_size == dims.hidden_size
                &&& final(self).ff_dim == dims.ff_dim
                &&& final(self).config == (InferenceConfig {
                    max_seq_len: dims.context_length,
                    rope_freq_base: dims.rope_freq_base,
                    weight_format: format,
                    ..old(self).config
                })
                &&& final(self).kv_caches@.len() == dims.num_layers
                &&& forall|i: int|
                    0 <= i < final(self).kv_caches@.len() ==> fresh_cache(
                        #[trigger] final(self).kv_caches@[i],
                        dims.kv_dim(),
                        dims.context_length,
                        kv_quant,
                    )
                &&& r.arch@ == stated_arch(metadata.metadata@)
                &&& r.arch is Unknown <==> !ModelArch::is_known(stated_arch(metadata.metadata@))
                &&& r.weight_format == format
                &&& r.choices@ == choices_for(metadata@.tensors)
                &&& r.skipped == skipped_among(r.choices@)
                &&& r.memory@ == (UnifiedView {
                    kv_cache: reserved(
                        new_unified().kv_cache,
                        dims.num_layers as nat,
                        dims.kv_layer_bytes(kv_quant) as usize,
                    ),
                    ..new_unified()
                })
                &&& unified_wf(r.memory@)
            }),
    {
        let dims = model_dims(metadata);
        let kv_quant = self.config.kv_quant;
        let arch = match metadata.architecture() {
            Some(name) => ModelArch::from_str(name),
            None => ModelArch::from_str("unknown"),
        };
        let weight_format = match detect_weight_quant(metadata) {
            Some(f) => f,
            None => QuantFormat::Q4_K,
        };
        let mut memory = UnifiedMemory::new();
        reserve_caches(&mut memory, &dims, kv_quant);
        let (choices, skipped) = choose_tensors(&metadata.tensors);
        self.kv_caches = make_caches(&dims, kv_quant);
        self.config.max_seq_len = dims.context_length;
        self.config.rope_freq_base = dims.rope_freq_base;
        self.config.weight_format = weight_format;
        self.vocab_size = dims.vocab_size;
        self.num_layers = dims.num_layers;
        self.num_heads = dims.num_heads;
        self.num_kv_heads = dims.num_kv_heads;
        self.head_dim = dims.hidden_size / dims.num_heads;
        self.hidden_size = dims.hidden_size;
        self.ff_dim = dims.ff_dim;
        LoadPlan { arch, weight_format, choices, skipped, memory }
    }

    /// Empties every cache.
    pub fn clear_caches(&mut self)
        requires
            forall|i: int| 0 <= i < old(self).kv_caches@.len() ==> (#[trigger] old(
                self,
            ).kv_caches@[i]).wf(),
        ensures
            final(self).kv_caches@.len() == old(self).kv_caches@.len(),
            forall|i: int|
                0 <= i < final(self).kv_caches@.len() ==> fresh_cache(
                    #[trigger] final(self).kv_caches@[i],
                    old(self).kv_caches@[i].head_dim as nat,
                    old(self).kv_caches@[i].max_seq_len,
                    old(self).kv_caches@[i].quant_type,
                ),
            *final(self) == (InferenceEngine {
                kv_caches: final(self).kv_caches,
                ..*old(self)
            }),
    {
        let n: usize = self.kv_caches.len();
        let mut i: usize = 0;
        while i < n
            invariant
                i <= n,
                n == self.kv_caches@.len(),
                n == old(self).kv_caches@.len(),
                *self == (InferenceEngine { kv_caches: self.kv_caches, ..*old(self) }),
                forall|j: int| i <= j < n ==> #[trigger] self.kv_caches@[j] == old(self).kv_caches@[j],
                forall|j: int| 0 <= j < n ==> (#[trigger] old(self).kv_caches@[j]).wf(),
                forall|j: int|
                    0 <= j < i ==> fresh_cache(
                        #[trigger] self.kv_caches@[j],
                        old(self).kv_caches@[j].head_dim as nat,
                        old(self).kv_caches@[j].max_seq_len,
                        old(self).kv_caches@[j].quant_type,
                    ),
            decreases n - i,
        {
            assert(self.kv_caches@[i as int] == old(self).kv_caches@[i as int]);
            self.kv_caches[i].clear();
            i += 1;
        }
    }

    /// The bytes of all caches.
    pub fn kv_memory(&self) -> (r: usize)
        requires
            forall|i: int| 0 <= i < self.kv_caches@.len() ==> (#[trigger] self.kv_caches@[i]).wf(),
            cache_bytes(self.kv_caches@, self.kv_caches@.len() as int) <= usize::MAX,
        ensures
            r == cache_bytes(self.kv_caches@, self.kv_caches@.len() as int),
    {
        let mut total: usize = 0;
        let mut i: usize = 0;
        while i < self.kv_caches.len()
            invariant
                i <= self.kv_caches@.len(),
                total == cache_bytes(self.kv_caches@, i as int),
                cache_bytes(self.kv_caches@, self.kv_caches@.len() as int) <= usize::MAX,
                forall|i: int|
                    0 <= i < self.kv_caches@.len() ==> (#[trigger] self.kv_caches@[i]).wf(),
            decreases self.kv_caches@.len() - i,
        {
            proof {
                lemma_cache_bytes(self.kv_caches@, i + 1, self.kv_caches@.len() as int);
            }
            total = total + self.kv_caches[i].memory_usage();
            i += 1;
        }
        total
    }

    /// The description of a loaded model. The base of the rotary frequencies is written
    /// out by the caller.
    pub open spec fn model_text(self, arch: Seq<char>, rope_base: Seq<char>) -> Seq<char> {
        "Architecture: "@ + arch + "\nLayers: "@ + decimal(self.num_layers as nat) + "\nHeads: "@
            + decimal(self.num_heads as nat) + " (Q: "@ + decimal(self.num_heads as nat)
            + ") (KV: "@ + decimal(self.num_kv_heads as nat) + ")\nHidden: "@ + decimal(
            self.hidden_size as nat,
        ) + "\nFFN: "@ + decimal(self.ff_dim as nat) + "\nVocab: "@ + decimal(
            self.vocab_size as nat,
        ) + "\nRope base: "@ + rope_base
    }

    fn describe_model(&self, arch: &str, rope_base: &str) -> (r: String)
        ensures
            r@ == self.model_text(arch@, rope_base@),
    {
        let mut out = "Architecture: ".to_string();
        out.append(arch);
        out.append("\nLayers: ");
        out.append(decimal_string(self.num_layers as u64).as_str());
        out.append("\nHeads: ");
        out.append(decimal_string(self.num_heads as u64).as_str());
        out.append(" (Q: ");
        out.append(decimal_string(self.num_heads as u64).as_str());
        out.append(") (KV: ");
        out.append(decimal_string(self.num_kv_heads as u64).as_str());
        out.append(")\nHidden: ");
        out.append(decimal_string(self.hidden_size as u64).as_str());
        out.append("\nFFN: ");
        out.append(decimal_string(self.ff_dim as u64).as_str());
        out.append("\nVocab: ");
        out.append(decimal_string(self.vocab_size as u64).as_str());
        out.append("\nRope base: ");
        out.append(rope_base);
        out
    }

    /// What the engine says of itself: the model with its base of the rotary
    /// frequencies written out, if one is loaded, then the backend and the settings.
    pub fn info(&self, model: Option<(&ModelArch, &str)>, backend: &str) -> (r: String)
        requires
            forall|i: int| 0 <= i < self.kv_caches@.len() ==> (#[trigger] self.kv_caches@[i]).wf(),
            cache_bytes(self.kv_caches@, self.kv_caches@.len() as int) <= usize::MAX,
        ensures
            r@ == (match model {
                Some((arch, rope_base)) => self.model_text(arch@, rope_base@),
                None => "No model loaded"@,
            }) + "\n\nBackend: "@ + backend@ + "\nKV Quant: "@ + self.config.kv_quant.spec_name()
                + "\nWeight Quant: "@ + self.config.weight_format.spec_name() + "\nMax seq len: "@
                + decimal(self.config.max_seq_len as nat) + "\nKV cache memory: "@ + size_text(
                cache_bytes(self.kv_caches@, self.kv_caches@.len() as int),
            ),
    {
        let mut out = match model {
            Some((arch, rope_base)) => self.describe_model(arch.name(), rope_base),
            None => "No model loaded".to_string(),
        };
        out.append("\n\nBackend: ");
        out.append(backend);
        out.append("\nKV Quant: ");
        out.append(self.config.kv_quant.name());
        out.append("\nWeight Quant: ");
        out.append(self.config.weight_format.name());
        out.append("\nMax seq len: ");
        out.append(decimal_string(self.config.max_seq_len as u64).as_str());
        out.append("\nKV cache memory: ");
        out.append(format_size(self.kv_memory()).as_str());
        out
    }
}

} // verus!
