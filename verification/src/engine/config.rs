//! How inference runs and how text is generated. Floating-point settings are held by
//! their bits.

use crate::backend::kind::BackendType;
use crate::engine::generation::token_lists;
use crate::quant::formats::{KvQuantType, QuantFormat, ONE_BITS};
use vstd::prelude::*;

verus! {

/// How inference runs.
#[derive(Debug, Clone, Copy, PartialEq, Eq, Structural)]
pub struct InferenceConfig {
    /// The longest sequence.
    pub max_seq_len: usize,
    /// The number of sequences at a time.
    pub batch_size: usize,
    /// How the key-value cache is quantized.
    pub kv_quant: KvQuantType,
    /// How the weights are quantized.
    pub weight_format: QuantFormat,
    pub backend: BackendType,
    /// The base of the rotary frequencies.
    pub rope_freq_base: u32,
    /// What keeps the norm from dividing by zero.
    pub rms_norm_eps: u32,
}

impl InferenceConfig {
    /// The settings where nothing else is said: a base of a million and an epsilon of a
    /// hundred-thousandth among them.
    pub open spec fn spec_default(backend: BackendType) -> InferenceConfig {
        InferenceConfig {
            max_seq_len: 4096,
            batch_size: 1,
            kv_quant: KvQuantType::TurboQuant3b2b,
            weight_format: QuantFormat::Q4_K,
            backend,
            rope_freq_base: 0x4974_2400,
            rms_norm_eps: 0x3727_c5ac,
        }
    }

    /// The settings where nothing else is said, on a backend.
    pub fn default_on(backend: BackendType) -> (r: Self)
        ensures
            r == Self::spec_default(backend),
    {
        InferenceConfig {
            max_seq_len: 4096,
            batch_size: 1,
            kv_quant: KvQuantType::TurboQuant3b2b,
            weight_format: QuantFormat::Q4_K,
            backend,
            rope_freq_base: 0x4974_2400,
            rms_norm_eps: 0x3727_c5ac,
        }
    }
}

/// How text is generated.
#[derive(Debug)]
pub struct GenerationConfig {
    pub max_tokens: usize,
    pub temperature: u32,
    pub top_p: u32,
    pub top_k: usize,
    pub repetition_penalty: u32,
    pub seed: Option<u64>,
    pub stop_sequences: Vec<Vec<u32>>,
}

/// The seed of the random numbers where none is given.
pub const DEFAULT_SEED: u64 = 0x5eed_5eed;

impl Default for GenerationConfig {
    fn default() -> (r: Self)
        ensures
            r.max_tokens == 128,
            r.temperature == 0,
            r.top_p == ONE_BITS,
            r.top_k == 0,
            r.repetition_penalty == ONE_BITS,
            r.seed is None,
            token_lists(r.stop_sequences@) == Seq::<Seq<u32>>::empty(),
    {
        let r = GenerationConfig {
            max_tokens: 128,
            temperature: 0,
            top_p: ONE_BITS,
            top_k: 0,
            repetition_penalty: ONE_BITS,
            seed: None,
            stop_sequences: Vec::new(),
        };
        assert(token_lists(r.stop_sequences@) =~= Seq::empty());
        r
    }
}

impl GenerationConfig {
    /// The seed of the random numbers.
    pub fn seed_or_default(&self) -> (r: u64)
        ensures
            r == (match self.seed {
                Some(s) => s,
                None => DEFAULT_SEED,
            }),
    {
        match self.seed {
            Some(s) => s,
            None => DEFAULT_SEED,
        }
    }
}

/// The sizes and the number of experts of a mixture-of-experts layer.
#[derive(Debug, Clone, Copy, PartialEq, Eq, Structural)]
pub struct MoeDispatchConfig {
    pub top_k: usize,
    pub hidden_size: usize,
    pub ff_dim: usize,
}

} // verus!
