use nexus::backend::BackendType;
use nexus::engine::generation::matched_stop_len;
use nexus::engine::load::{detect_weight_quant, model_dims, tensor_choice};
use nexus::engine::moe::{dispatch_routes, route_token};
use nexus::engine::sampling::{
    best_places, candidate_order, drawn_token, finite_places, greedy_token, is_at_most, is_finite,
    is_less, nucleus_size, penalty_for, ranked_places, ranks_below, repeated, settled_token,
    Penalty,
};
use nexus::engine::tensors::{
    attention_roles, bad_embedding, check_matvec, embedding_names, embedding_row,
    feed_forward_roles, find_layer_tensors, find_tensor, kv_head, layer_tensor_names,
    missing_tensor, output_head_names, output_norm_names, synthetic_embedding, MatvecError,
};
use nexus::engine::{
    Generation, GenerationConfig, InferenceConfig, InferenceEngine, KvCache, KvTerm, KvVector,
    ModelArch, MoeDispatchConfig, MoeError, PackedKvBuffer, Speculation, SpeculativeStats,
    TensorChoice,
};
use nexus::gguf::{GgufByteOrder, GgufDataType, GgufValue, ModelMetadata, TensorInfo};
use nexus::names::NameMap;
use nexus::quant::formats::ONE_BITS;
use nexus::quant::{KvQuantType, QuantFormat};

fn default_config() -> InferenceConfig {
    InferenceConfig::default_on(BackendType::detect(false))
}

fn bits(values: &[f32]) -> Vec<u32> {
    values.iter().map(|v| v.to_bits()).collect()
}

fn float_row(values: &[f32]) -> KvVector {
    KvVector::Float(bits(values))
}

fn quantized_row(values: &[f32], code_bits: u32) -> KvVector {
    let top = ((1u32 << code_bits) - 1) as f32;
    let low = values.iter().copied().fold(f32::INFINITY, f32::min);
    let high = values.iter().copied().fold(f32::NEG_INFINITY, f32::max);
    let step = if high - low > 1e-8 { (high - low) / top } else { 1.0 };
    KvVector::Quantized {
        low: low.to_bits(),
        step: step.to_bits(),
        codes: values.iter().map(|v| ((v - low) / step).round().clamp(0.0, top) as u32).collect(),
    }
}

fn term_value(term: &KvTerm) -> f32 {
    match *term {
        KvTerm::Value(v) => f32::from_bits(v),
        KvTerm::Affine { low, level, step } => {
            f32::from_bits(low) + level as f32 * f32::from_bits(step)
        }
    }
}

#[test]
fn test_engine_creation() {
    let engine = InferenceEngine::new(default_config());
    assert!(engine.kv_caches.is_empty());
    assert_eq!(engine.config.max_seq_len, 4096);
}

#[test]
fn test_kv_cache() {
    let mut cache = KvCache::new(8, 4, KvQuantType::Unquantized);

    let key = vec![1.0f32; 8];
    let value = vec![2.0f32; 8];

    cache.add(float_row(&key), float_row(&value));
    assert_eq!(cache.seq_len, 1);

    cache.add(float_row(&key), float_row(&value));
    assert_eq!(cache.seq_len, 2);

    let (keys, values) = cache.get_all();
    assert_eq!(keys.len(), 16);
    assert_eq!(values.len(), 16);
    assert!(keys.iter().all(|t| term_value(t) == 1.0));
    assert!(values.iter().all(|t| term_value(t) == 2.0));
}

#[test]
fn test_kv_cache_clear() {
    let mut cache = KvCache::new(8, 4, KvQuantType::Unquantized);
    cache.add(float_row(&[1.0; 8]), float_row(&[2.0; 8]));
    cache.clear();
    assert_eq!(cache.seq_len, 0);
}

#[test]
fn test_kv_cache_memory() {
    let cache_fp16 = KvCache::new(64, 1024, KvQuantType::Unquantized);
    let cache_tq = KvCache::new(64, 1024, KvQuantType::TurboQuant3b2b);

    assert!(!cache_fp16.is_quantized());
    assert!(cache_tq.is_quantized());
    assert!(cache_fp16.memory_usage() > cache_tq.memory_usage());
    assert_eq!(cache_fp16.memory_usage(), 2 * 64 * 1024 * 4);
    assert_eq!(cache_tq.memory_usage(), 1024 * (24 + 8) + 1024 * (16 + 8));
}

#[test]
fn test_quantized_kv_cache_roundtrip() {
    let mut cache = KvCache::new(8, 4, KvQuantType::TurboQuant4b4b);
    let key = vec![-1.0, -0.5, -0.25, 0.0, 0.25, 0.5, 0.75, 1.0];
    let value = vec![1.0, 0.75, 0.5, 0.25, 0.0, -0.25, -0.5, -1.0];

    cache.add(quantized_row(&key, 4), quantized_row(&value, 4));
    let (keys, values) = cache.get_all();

    assert_eq!(keys.len(), 8);
    assert_eq!(values.len(), 8);
    for (actual, expected) in keys.iter().zip(key.iter()) {
        assert!((term_value(actual) - expected).abs() <= 0.15);
    }
    for (actual, expected) in values.iter().zip(value.iter()) {
        assert!((term_value(actual) - expected).abs() <= 0.15);
    }
}

#[test]
fn test_model_arch() {
    assert_eq!(ModelArch::from_str("llama"), ModelArch::Llama);
    assert_eq!(ModelArch::from_str("mistral"), ModelArch::Mistral);
    assert_eq!(
        ModelArch::from_str("unknown_model"),
        ModelArch::Unknown("unknown_model".to_string())
    );
}

#[test]
fn test_inference_config_defaults() {
    let config = default_config();
    assert_eq!(config.max_seq_len, 4096);
    assert_eq!(config.batch_size, 1);
    assert_eq!(config.kv_quant, KvQuantType::TurboQuant3b2b);
}

#[test]
fn test_kv_cache_shift() {
    let mut cache = KvCache::new(4, 3, KvQuantType::Unquantized);

    cache.add(float_row(&[1.0; 4]), float_row(&[2.0; 4]));
    cache.add(float_row(&[3.0; 4]), float_row(&[4.0; 4]));
    cache.add(float_row(&[5.0; 4]), float_row(&[6.0; 4]));

    assert_eq!(cache.seq_len, 3);

    cache.add(float_row(&[7.0; 4]), float_row(&[8.0; 4]));
    assert_eq!(cache.seq_len, 3);
    assert_eq!(term_value(&cache.key_at(0, 0)), 3.0);
    assert_eq!(term_value(&cache.key_at(2, 3)), 7.0);
    assert_eq!(term_value(&cache.value_at(1, 1)), 6.0);
}

#[test]
fn test_greedy_sampling_picks_largest_logit() {
    let config = GenerationConfig { temperature: 0.0f32.to_bits(), ..Default::default() };
    let token = settled_token(&bits(&[0.1, 3.0, 1.0]), config.temperature);
    assert_eq!(token, Some(1));
}

#[test]
fn test_stop_sequence_match() {
    let output = vec![1, 2, 3, 4];
    let stop = vec![vec![3, 4]];
    assert_eq!(matched_stop_len(&output, 1, &stop), Some(2));
}

#[test]
fn test_route_moe_experts_selects_top_k() {
    let routes =
        InferenceEngine::route_moe_experts(&bits(&[0.1, 3.0, 1.0, 2.0, 0.5, 0.2]), 2, 3, 2);
    assert_eq!(routes.len(), 2);
    assert_eq!(routes[0][0].expert, 1);
    assert_eq!(routes[0][1].expert, 2);
    let logits: Vec<f32> = routes[0].iter().map(|r| f32::from_bits(r.logit)).collect();
    let top = logits[0];
    let total: f32 = logits.iter().map(|l| (l - top).exp()).sum();
    let sum: f32 = logits.iter().map(|l| (l - top).exp() / total).sum();
    assert!((sum - 1.0).abs() < 1e-6);
    assert_eq!(logits, vec![3.0, 1.0]);
}

fn tiny_logits(token: u32) -> Vec<u32> {
    let embedding = [1.0f32, 0.0, 0.0, 1.0, 0.5, 0.5];
    let head = [0.0f32, 0.0, 1.0, 0.0, 0.0, 1.0];
    let row = &embedding[token as usize * 2..token as usize * 2 + 2];
    let norm = (row.iter().map(|x| x * x).sum::<f32>() / 2.0 + 1e-5).sqrt();
    (0..3).map(|r| ((head[r * 2] * row[0] + head[r * 2 + 1] * row[1]) / norm).to_bits()).collect()
}

fn generate(
    prompt: &[u32],
    max_tokens: usize,
    stops: &Vec<Vec<u32>>,
    draft: &[u32],
) -> (Vec<u32>, SpeculativeStats) {
    let mut run = Generation::new(prompt, max_tokens, stops, draft);
    while run.wants_token() {
        let output = run.output();
        let token = greedy_token(&tiny_logits(output[output.len() - 1]));
        run.accept(token);
    }
    (run.output(), run.stats())
}

#[test]
fn test_speculative_generation_verifies_draft_tokens() {
    let (output, stats) = generate(&[0], 2, &Vec::new(), &[1, 1]);

    assert_eq!(output, vec![0, 1, 2]);
    assert_eq!(stats, SpeculativeStats { accepted: 1, rejected: 1 });
}

#[test]
fn test_speculative_generation_uses_draft_engine() {
    let mut run = Speculation::new(&[0], 2, &Vec::new(), 2);
    while let Some(budget) = run.draft_budget() {
        let output = run.output();
        let (proposed, _) = generate(&output, budget, &Vec::new(), &[]);
        let (draft, verify) = run.draft(&proposed);
        let (verified, step) = generate(&output, verify, &Vec::new(), &draft);
        run.finish_round(verified, step);
    }
    let (output, stats) = (run.output(), run.stats());

    assert_eq!(output, vec![0, 1, 2]);
    assert_eq!(stats.accepted, 2);
    assert_eq!(stats.rejected, 0);
}

#[test]
fn drafts_change_no_output() {
    let plain = generate(&[0], 4, &Vec::new(), &[]).0;
    for draft in [vec![], vec![1], vec![2, 2, 2, 2], vec![1, 2, 2, 2]] {
        assert_eq!(generate(&[0], 4, &Vec::new(), &draft).0, plain);
    }
    assert_eq!(plain, vec![0, 1, 2, 2, 2]);
}

#[test]
fn a_stop_sequence_is_cut_off() {
    let stops = vec![vec![9, 9], vec![2, 2]];
    let (output, _) = generate(&[0], 10, &stops, &[]);
    assert_eq!(output, vec![0, 1]);
    assert_eq!(matched_stop_len(&vec![1, 2], 1, &vec![vec![1, 2]]), None);
    assert_eq!(matched_stop_len(&vec![1, 2], 0, &vec![vec![]]), None);
    let mut run = Generation::new(&[5], 3, &vec![vec![7]], &[]);
    assert_eq!(run.accept(6), Some(1));
    assert_eq!(run.accept(7), None);
    assert!(!run.wants_token());
    assert_eq!(run.output(), vec![5, 6]);
}

#[test]
fn dispatch_routes_to_the_best_experts() {
    let config = MoeDispatchConfig { top_k: 1, hidden_size: 2, ff_dim: 2 };
    let routes = dispatch_routes(2, 2, 2, 2, &bits(&[0.0, 4.0]), config).unwrap();
    assert_eq!(routes.len(), 1);
    assert_eq!(routes[0].expert, 1);
    let unaligned = dispatch_routes(2, 1, 2, 2, &bits(&[0.0, 4.0]), config).unwrap_err();
    assert_eq!(unaligned, MoeError::UnalignedExperts);
    let shape = dispatch_routes(2, 2, 2, 3, &bits(&[0.0, 4.0]), config).unwrap_err();
    assert_eq!(shape, MoeError::HiddenShape { got: 3, expected: 2 });
    assert!(shape.message().contains('3'));
    let none = dispatch_routes(2, 2, 2, 2, &bits(&[0.0]), config).unwrap_err();
    assert_eq!(none, MoeError::NoRoutes);
    assert!(route_token(&bits(&[1.0, 2.0]), 0).is_empty());
}

#[test]
fn caches_keep_the_latest_tokens() {
    for kind in [KvQuantType::Unquantized, KvQuantType::BlockQ4] {
        let mut cache = KvCache::new(2, 3, kind);
        for i in 0..7 {
            let row = [i as f32, i as f32 + 15.0];
            let (key, value) = if kind == KvQuantType::Unquantized {
                (float_row(&row), float_row(&row))
            } else {
                (quantized_row(&row, 4), quantized_row(&row, 4))
            };
            cache.add(key, value);
        }
        assert_eq!(cache.seq_len, 3);
        for place in 0..3 {
            assert_eq!(term_value(&cache.key_at(place, 0)), 4.0 + place as f32);
            assert_eq!(term_value(&cache.value_at(place, 1)), 19.0 + place as f32);
        }
    }
}

#[test]
fn packed_buffers_hold_codes() {
    let mut buffer = PackedKvBuffer::new(3, 5, 2);
    buffer.add(1, 7, 8, &vec![1, 2, 3, 4, 7]);
    assert_eq!(buffer.value_at(1, 4), KvTerm::Affine { low: 7, level: 7, step: 8 });
    assert_eq!(buffer.value_at(0, 0), KvTerm::Affine { low: 0, level: 0, step: ONE_BITS });
    assert_eq!(buffer.get_all(2).len(), 10);
    buffer.shift_left(2);
    assert_eq!(buffer.value_at(0, 3), KvTerm::Affine { low: 7, level: 4, step: 8 });
    buffer.clear();
    assert_eq!(buffer.value_at(0, 3), KvTerm::Affine { low: 0, level: 0, step: ONE_BITS });
    assert_eq!(buffer.memory_usage(), 2 * 2 + 2 * 8);
    assert_eq!(f32::from_bits(ONE_BITS), 1.0);
}

#[test]
fn ranks_are_those_of_the_total_order() {
    let samples = [
        0.0f32,
        -0.0,
        1.0,
        -1.0,
        f32::MIN_POSITIVE,
        -f32::MIN_POSITIVE,
        f32::MAX,
        f32::MIN,
        f32::INFINITY,
        f32::NEG_INFINITY,
        f32::NAN,
        -f32::NAN,
        3.5,
        1e-40,
    ];
    for a in samples {
        assert_eq!(is_finite(a.to_bits()), a.is_finite());
        for b in samples {
            assert_eq!(is_at_most(a.to_bits(), b.to_bits()), a <= b, "{} and {}", a, b);
            assert_eq!(is_less(a.to_bits(), b.to_bits()), a < b, "{} and {}", a, b);
            assert_eq!(
                ranks_below(a.to_bits(), b.to_bits()),
                a.total_cmp(&b) == std::cmp::Ordering::Less,
                "{} and {}",
                a,
                b
            );
        }
    }
}

#[test]
fn greedy_choices() {
    assert_eq!(greedy_token(&bits(&[1.0, 5.0, 5.0, f32::NAN])), 2);
    assert_eq!(settled_token(&bits(&[f32::NAN, f32::NAN]), 0.7f32.to_bits()), Some(0));
    assert_eq!(settled_token(&bits(&[1.0, 2.0]), 0.7f32.to_bits()), None);
    assert_eq!(settled_token(&bits(&[1.0, 2.0]), (-1.0f32).to_bits()), Some(1));
    assert_eq!(finite_places(&bits(&[1.0, f32::NAN, 2.0, f32::INFINITY])), vec![0, 2]);
    assert_eq!(repeated(&vec![0, 2, 5], &[5, 9]), vec![false, false, true]);
    assert_eq!(ranked_places(&bits(&[0.5, 2.0, 1.0])), vec![1, 2, 0]);
    assert_eq!(candidate_order(&bits(&[0.5, 2.0, 1.0]), 2), vec![1, 2]);
    assert_eq!(candidate_order(&bits(&[0.5, 2.0, 1.0]), 0), vec![1, 2, 0]);
    assert_eq!(best_places(&bits(&[0.5, 2.0, 1.0]), 2), vec![1, 2]);
}

#[test]
fn settings_where_nothing_is_said() {
    let config = GenerationConfig::default();
    assert_eq!(config.max_tokens, 128);
    assert_eq!(f32::from_bits(config.temperature), 0.0);
    assert_eq!(f32::from_bits(config.top_p), 1.0);
    assert_eq!(config.top_k, 0);
    assert_eq!(f32::from_bits(config.repetition_penalty), 1.0);
    assert_eq!(config.seed_or_default(), 0x5eed_5eed);
    assert_eq!(f32::from_bits(default_config().rope_freq_base), 1_000_000.0);
    assert_eq!(f32::from_bits(default_config().rms_norm_eps), 1e-5);
    assert_eq!(default_config().weight_format, QuantFormat::Q4_K);
}

#[test]
fn names_of_layer_tensors() {
    assert_eq!(
        layer_tensor_names(12, "attn_q"),
        vec![
            "blk.12.attn_q.weight",
            "model.layers.12.self_attn.q_proj.weight",
            "layers.12.self_attn.q_proj.weight"
        ]
    );
    assert_eq!(layer_tensor_names(0, "odd")[1], "model.layers.0.odd.weight");
    assert_eq!(embedding_names()[0], "token_embd.weight");
    assert_eq!(output_norm_names()[2], "model.norm.weight");
    assert_eq!(output_head_names()[0], "output.weight");
    let wanted = vec!["a".to_string(), "b".to_string()];
    assert_eq!(missing_tensor(&wanted), "Missing tensor: a or b");
    assert_eq!(find_tensor(&wanted, &vec!["c".to_string(), "b".to_string()]), Ok(1));
    assert_eq!(
        find_tensor(&wanted, &vec!["c".to_string()]),
        Err("Missing tensor: a or b".to_string())
    );
}

#[test]
fn shapes_are_checked() {
    assert_eq!(check_matvec(6, 2, 3, 3), Ok(()));
    let input = check_matvec(6, 2, 3, 4).unwrap_err();
    assert_eq!(input, MatvecError::InputShape { got: 4, expected: 3 });
    let weight = check_matvec(5, 2, 3, 3).unwrap_err();
    assert_eq!(weight, MatvecError::WeightTooSmall { got: 5, expected: 6 });
    assert!(weight.message().contains('6'));
    assert!(input.message().contains('4'));
    assert_eq!(embedding_row(1, 8, 4), Some(4));
    assert_eq!(embedding_row(3, 8, 4), Some(4));
    assert_eq!(embedding_row(0, 3, 4), None);
    assert!(!bad_embedding().is_empty());
    assert_eq!(kv_head(5, 8, 2), 1);
    assert_eq!(kv_head(3, 8, 2), 0);
}

fn model_metadata() -> ModelMetadata {
    let mut metadata = ModelMetadata {
        version: 3,
        tensor_count: 3,
        kv_count: 0,
        byte_order: GgufByteOrder::LittleEndian,
        alignment: 32,
        tensor_data_offset: 0,
        metadata: NameMap::new(),
        tensors: Vec::new(),
    };
    for (key, value) in [
        ("llama.block_count", 2u32),
        ("llama.embedding_length", 16),
        ("llama.feed_forward_length", 32),
        ("llama.attention.head_count", 4),
        ("llama.attention.head_count_kv", 2),
        ("llama.vocab_size", 100),
        ("llama.context_length", 64),
    ] {
        metadata.metadata.insert(key.to_string(), GgufValue::U32(value));
    }
    metadata
        .metadata
        .insert("general.architecture".to_string(), GgufValue::String("llama".to_string()));
    for (name, data_type, shape) in [
        ("token_embd.weight", GgufDataType::Q8_0, vec![16u64, 100]),
        ("huge", GgufDataType::F32, vec![10_000_001]),
        ("odd", GgufDataType::Q5_K, vec![256]),
    ] {
        metadata.tensors.push(TensorInfo {
            name: name.to_string(),
            n_dims: shape.len() as u32,
            shape,
            data_type,
            offset: 0,
            stride: Vec::new(),
        });
    }
    metadata
}

#[test]
fn a_model_is_loaded_as_its_metadata_says() {
    let metadata = model_metadata();
    let dims = model_dims(&metadata);
    assert!(dims.can_load(KvQuantType::TurboQuant3b2b));
    let mut engine = InferenceEngine::new(default_config());
    let plan = engine.load_model(&metadata);
    assert_eq!(plan.arch, ModelArch::Llama);
    assert_eq!(plan.weight_format, QuantFormat::Q8_0);
    assert_eq!(
        plan.choices,
        vec![TensorChoice::Load, TensorChoice::SkipSize, TensorChoice::SkipType]
    );
    assert_eq!(plan.skipped, 2);
    assert_eq!(engine.num_layers, 2);
    assert_eq!(engine.head_dim, 4);
    assert_eq!(engine.hidden_size, 16);
    assert_eq!(engine.ff_dim, 32);
    assert_eq!(engine.num_kv_heads, 2);
    assert_eq!(engine.vocab_size, 100);
    assert_eq!(engine.kv_caches.len(), 2);
    assert_eq!(engine.kv_caches[0].head_dim, 8);
    assert_eq!(engine.kv_caches[0].max_seq_len, engine.config.max_seq_len);
    assert_eq!(plan.memory.stats().1.block_count, 2);
    assert_eq!(engine.kv_memory(), 2 * engine.kv_caches[0].memory_usage());
    let text = engine.info(Some((&plan.arch, "1000000")), "cpu-simd");
    assert!(text.contains("llama"));
    assert!(text.contains("cpu-simd"));
    engine.clear_caches();
    assert_eq!(engine.kv_caches[1].seq_len, 0);
    assert_eq!(detect_weight_quant(&metadata), Some(QuantFormat::Q8_0));
    assert_eq!(tensor_choice(&metadata.tensors[2]), TensorChoice::SkipType);
}

#[test]
fn the_tensors_of_a_layer_are_found_in_order() {
    let mut known: Vec<String> = attention_roles()
        .iter()
        .map(|role| format!("blk.3.{}.weight", role))
        .collect();
    assert_eq!(find_layer_tensors(3, &attention_roles(), &known), Ok(known.clone()));
    known[2] = "layers.3.self_attn.k_proj.weight".to_string();
    assert_eq!(find_layer_tensors(3, &attention_roles(), &known), Ok(known.clone()));
    known.remove(1);
    assert_eq!(
        find_layer_tensors(3, &attention_roles(), &known),
        Err("Missing tensor: blk.3.attn_q.weight or model.layers.3.self_attn.q_proj.weight \
             or layers.3.self_attn.q_proj.weight"
            .to_string())
    );
    assert!(find_layer_tensors(3, &feed_forward_roles(), &known)
        .unwrap_err()
        .contains("blk.3.ffn_norm.weight"));
}

#[test]
fn a_missing_embedding_is_made_up() {
    let made = synthetic_embedding(1020, 8);
    for (i, numerator) in made.iter().enumerate() {
        let expected = ((1020 + i) % 1024) as f32 / 1024.0 - 0.5;
        assert_eq!(*numerator as f32 / 1024.0, expected);
    }
    assert_eq!(made.len(), 8);
}

#[test]
fn compared_drafts_count_once() {
    for len in 0..6usize {
        let draft: Vec<u32> = (0..len as u32).collect();
        let (output, stats) = generate(&[0], 3, &Vec::new(), &draft);
        assert_eq!(stats.accepted + stats.rejected, len.min(output.len() - 1));
    }
}

#[test]
fn a_drafting_engine_changes_no_output() {
    let plain = generate(&[0], 7, &Vec::new(), &[]).0;
    for window in 0..5 {
        let mut run = Speculation::new(&[0], 7, &Vec::new(), window);
        while let Some(budget) = run.draft_budget() {
            let output = run.output();
            let mut proposed = output.clone();
            proposed.extend(vec![1; budget]);
            let (draft, verify) = run.draft(&proposed);
            let (verified, step) = generate(&output, verify, &Vec::new(), &draft);
            run.finish_round(verified, step);
        }
        assert_eq!(run.output(), plain);
    }
}

#[test]
fn penalties_move_repeated_tokens_down() {
    let two = 2.0f32.to_bits();
    assert_eq!(penalty_for(false, two, two), Penalty::Keep);
    assert_eq!(penalty_for(true, 1.0f32.to_bits(), two), Penalty::Keep);
    assert_eq!(penalty_for(true, f32::NAN.to_bits(), two), Penalty::Keep);
    assert_eq!(penalty_for(true, two, 0.5f32.to_bits()), Penalty::Divide);
    assert_eq!(penalty_for(true, two, (-0.0f32).to_bits()), Penalty::Divide);
    assert_eq!(penalty_for(true, two, (-0.5f32).to_bits()), Penalty::Multiply);
}

#[test]
fn the_nucleus_is_as_small_as_can_be() {
    let sums = bits(&[0.5, 0.75, 0.9, 1.0]);
    assert_eq!(nucleus_size(&sums, 0.75f32.to_bits()), 2);
    assert_eq!(nucleus_size(&sums, 0.8f32.to_bits()), 3);
    assert_eq!(nucleus_size(&sums, 1.0f32.to_bits()), 4);
    assert_eq!(nucleus_size(&sums, f32::NAN.to_bits()), 4);
    assert_eq!(nucleus_size(&sums, (-3.0f32).to_bits()), 1);
    assert_eq!(nucleus_size(&bits(&[0.1, 0.2]), 0.9f32.to_bits()), 2);
}

#[test]
fn a_draw_goes_to_the_first_that_covers_it() {
    let logits = bits(&[0.0, 1.0, 9.0, 2.0]);
    let candidates = vec![3, 1];
    let probs = bits(&[0.75, 0.25]);
    let rests = |draw: f32| bits(&[draw, draw - 0.75]);
    assert_eq!(drawn_token(&logits, &candidates, &probs, &rests(0.75)), 3);
    assert_eq!(drawn_token(&logits, &candidates, &probs, &rests(0.8)), 1);
    assert_eq!(drawn_token(&logits, &candidates, &probs, &rests(1.5)), 2);
}

#[test]
fn many_numbers_are_ranked() {
    let mut state: u32 = 1;
    let values: Vec<u32> = (0..5000)
        .map(|_| {
            state = state.wrapping_mul(1664525).wrapping_add(1013904223);
            state & 0x807f_f000
        })
        .collect();
    let mut expected: Vec<usize> = (0..values.len()).collect();
    expected.sort_by(|a, b| f32::from_bits(values[*b]).total_cmp(&f32::from_bits(values[*a])));
    assert_eq!(ranked_places(&values), expected);
}
