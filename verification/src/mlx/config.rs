//! The sizes that a model's own configuration file gives.

use vstd::prelude::*;

verus! {

/// What a model's configuration says of it. Floating-point numbers are held by their
/// bits.
#[derive(Debug)]
pub struct MlxModelConfig {
    pub model_type: Option<String>,
    pub hidden_size: Option<usize>,
    pub num_hidden_layers: Option<usize>,
    pub num_attention_heads: Option<usize>,
    pub num_key_value_heads: Option<usize>,
    pub intermediate_size: Option<usize>,
    pub vocab_size: Option<usize>,
    pub max_position_embeddings: Option<usize>,
    pub rms_norm_eps: Option<u32>,
    pub rope_theta: Option<u32>,
}

} // verus!
