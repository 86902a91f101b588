use nexus::bytes::ByteReader;
use nexus::convert::components::tokenizer_component_has_type;
use nexus::convert::writer::{align, pad_to_alignment, write_value};
use nexus::convert::{
    build_metadata, canonical_tensor_name, validate_written_gguf, write_gguf, Conversion,
    ConvertError, ConvertedTensor, GgufValue, QuantFormat,
};
use nexus::engine::tensors::layer_tensor_names;
use nexus::gguf::{GgufReader, ModelMetadata};
use nexus::json::parse_json;
use nexus::mlx::{MlxModelConfig, TensorMeta};
use nexus::quant::encode::put_q8_0_block;
use nexus::quant::QuantFormat as NexusQuantFormat;
use nexus::tokenizer::{GgufTokenizer, RuntimeTokenizer, Tokenizer};

fn config(vocab_size: usize) -> Option<MlxModelConfig> {
    Some(MlxModelConfig {
        model_type: Some("llama".to_string()),
        hidden_size: Some(4),
        num_hidden_layers: Some(0),
        num_attention_heads: Some(1),
        num_key_value_heads: Some(1),
        intermediate_size: Some(4),
        vocab_size: Some(vocab_size),
        max_position_embeddings: Some(16),
        rms_norm_eps: None,
        rope_theta: None,
    })
}

fn quantize_q8_0(values: &[f32]) -> Vec<u8> {
    let mut out = Vec::new();
    for chunk in values.chunks(32) {
        let top = chunk.iter().copied().map(f32::abs).fold(0.0f32, f32::max);
        let scale = top / 127.0;
        let codes: Vec<i8> = (0..32)
            .map(|i| {
                let value = chunk.get(i).copied().unwrap_or(0.0);
                (value / scale).round().clamp(-128.0, 127.0) as i8
            })
            .collect();
        put_q8_0_block(&mut out, half::f16::from_f32(scale).to_bits(), &codes);
    }
    out
}

fn parse(bytes: &[u8]) -> ModelMetadata {
    GgufReader::new().scan_bytes(bytes).unwrap()
}

#[test]
fn test_canonical_tensor_name() {
    assert_eq!(canonical_tensor_name("model.embed_tokens.weight"), "token_embd.weight");
    assert_eq!(
        canonical_tensor_name("model.layers.0.self_attn.q_proj.weight"),
        "blk.0.attn_q.weight"
    );
    assert_eq!(
        canonical_tensor_name("model.layers.1.mlp.down_proj.weight"),
        "blk.1.ffn_down.weight"
    );
}

#[test]
fn test_write_converted_gguf_is_readable() {
    let name = "model.embed_tokens.weight";
    let values = [0.1, 0.2, 0.3, 0.4, 0.5, 0.6, 0.7, 0.8];
    let tensors = vec![ConvertedTensor {
        name: canonical_tensor_name(name),
        shape: vec![2, 4],
        gguf_type: QuantFormat::Q8_0.gguf_type(),
        data: quantize_q8_0(&values),
        offset: 0,
    }];
    let metadata = build_metadata(&config(2), None, false, None, None).unwrap();
    let output = write_gguf(&metadata, &tensors);

    let parsed = parse(&output);
    assert_eq!(parsed.get_tensor("token_embd.weight").unwrap().data_type.name(), "Q8_0");
    let tensor = parsed.get_tensor("token_embd.weight").unwrap();
    let start = parsed.absolute_tensor_offset(tensor) as usize;
    assert_eq!(&output[start..start + tensors[0].data.len()], &tensors[0].data[..]);
    assert_eq!(parsed.hidden_size(), Some(4));
    assert_eq!(parsed.context_length(), Some(16));
    assert_eq!(parsed.architecture(), Some("llama"));
}

const TOKENIZER: &str = "{\"normalizer\":{\"type\":\"Sequence\",\"normalizers\":[{\"type\":\"Lowercase\"},{\"type\":\"StripAccents\"}]},\"pre_tokenizer\":{\"type\":\"ByteLevel\",\"add_prefix_space\":true},\"decoder\":{\"type\":\"ByteLevel\"},\"model\":{\"type\":\"BPE\",\"unk_token\":\"<unk>\",\"vocab\":{\"<unk>\":0,\"h\":1,\"e\":2,\"he\":3},\"merges\":[\"h e\"]}}";

const TOKENIZER_CONFIG: &str =
    "{\"chat_template\":\"<|im_start|>{{ role }}\",\"unk_token\":\"<unk>\"}";

#[test]
fn test_tokenizer_json_metadata_is_written() {
    let metadata = build_metadata(
        &config(4),
        None,
        false,
        Some(TOKENIZER.as_bytes()),
        Some(TOKENIZER_CONFIG.as_bytes()),
    )
    .unwrap();
    let tokens = metadata
        .get("tokenizer.ggml.tokens")
        .and_then(|value| match value {
            GgufValue::StringVec(values) => Some(values),
            _ => None,
        })
        .unwrap();
    assert_eq!(tokens[3], "he");
    assert!(matches!(
        metadata.get("tokenizer.ggml.unknown_token_id"),
        Some(GgufValue::U32(0))
    ));
    assert!(metadata.contains_key("tokenizer.chat_template"));
    assert!(matches!(
        metadata.get("nexus.tokenizer.normalizer.lowercase"),
        Some(GgufValue::Bool(true))
    ));
    assert!(matches!(
        metadata.get("nexus.tokenizer.normalizer.strip_accents"),
        Some(GgufValue::Bool(true))
    ));
    assert!(matches!(
        metadata.get("nexus.tokenizer.pre_tokenizer.byte_level"),
        Some(GgufValue::Bool(true))
    ));
    assert!(matches!(
        metadata.get("nexus.tokenizer.pre_tokenizer.add_prefix_space"),
        Some(GgufValue::Bool(true))
    ));
}

#[test]
fn test_standard_k_quant_writing_is_mapped_to_gguf_types() {
    assert_eq!(QuantFormat::Q4_K.to_nexus_quant(), NexusQuantFormat::Q4_K);
    assert_eq!(QuantFormat::Q4_K.gguf_type(), 12);
    assert_eq!(QuantFormat::Q2_K.to_nexus_quant(), NexusQuantFormat::Q2_K);
    assert_eq!(QuantFormat::Q2_K.gguf_type(), 10);
}

#[test]
fn a_converted_tokenizer_works_after_reading() {
    let metadata = build_metadata(
        &config(4),
        Some("model"),
        true,
        Some(TOKENIZER.as_bytes()),
        Some(TOKENIZER_CONFIG.as_bytes()),
    )
    .unwrap();
    let parsed = parse(&write_gguf(&metadata, &Vec::new()));
    assert_eq!(parsed.name(), Some("model"));
    let tokenizer = RuntimeTokenizer::from_metadata(Some(&parsed));
    assert_eq!(tokenizer.decode(&[3, 1]), "heh");
    let rendered = tokenizer.render_chat_messages(&[("user", "x")], false);
    assert_eq!(rendered, "<|im_start|>user\nx<|im_end|>\n");
}

fn refused(tokenizer: Option<&str>, tokenizer_config: Option<&str>) -> String {
    build_metadata(
        &config(4),
        None,
        false,
        tokenizer.map(|t| t.as_bytes()),
        tokenizer_config.map(|t| t.as_bytes()),
    )
    .unwrap_err()
    .message()
}

#[test]
fn broken_tokenizers_are_refused() {
    assert_eq!(refused(Some("{"), None), "Failed to parse tokenizer.json");
    assert_eq!(refused(Some("{}"), None), "tokenizer.json is missing model object");
    assert_eq!(
        refused(Some(TOKENIZER), Some("nope")),
        "Failed to parse tokenizer_config.json"
    );
    let huge = "{\"model\":{\"vocab\":{\"a\":18446744073709551615}}}";
    assert_eq!(refused(Some(huge), None), "tokenizer.json has a token id that is too large");
}

#[test]
fn merges_are_texts_or_pairs() {
    let tokenizer = "{\"model\":{\"vocab\":{\"b\":1,\"a\":0,\"ab\":2},\"merges\":[\"a b\",[\"b\",\"a\"],7]},\
        \"added_tokens\":[{\"id\":4,\"content\":\"<end>\"}]}";
    let metadata =
        build_metadata(&None, None, false, Some(tokenizer.as_bytes()), None).unwrap();
    match metadata.get("tokenizer.ggml.merges") {
        Some(GgufValue::StringVec(merges)) => assert_eq!(merges, &vec!["a b", "b a"]),
        other => panic!("{:?}", other),
    }
    match metadata.get("tokenizer.ggml.tokens") {
        Some(GgufValue::StringVec(tokens)) => {
            assert_eq!(tokens[..3], ["a", "b", "ab"]);
            assert_eq!(tokens[4], "<end>");
            assert_eq!(tokens.len(), 5);
        }
        other => panic!("{:?}", other),
    }
}

fn meta(shape: &[usize]) -> TensorMeta {
    TensorMeta {
        dtype: "F32".to_string(),
        shape: shape.to_vec(),
        data_offset: 0,
        data_size: shape.iter().product::<usize>() * 4,
    }
}

#[test]
fn tensors_are_placed_at_aligned_offsets() {
    let mut conversion = Conversion::new();
    conversion.add_tensor("model.norm.weight", &meta(&[3]), 3, vec![1; 12], 3, 0).unwrap();
    conversion.add_tensor("lm_head.weight", &meta(&[40]), 40, vec![2; 160], 40, 0).unwrap();
    let tensors = conversion.tensors();
    assert_eq!(tensors.len(), 2);
    assert_eq!(tensors[0].name, "output_norm.weight");
    assert_eq!(tensors[0].offset, 0);
    assert_eq!(tensors[1].offset, 32);

    let metadata = build_metadata(&config(4), None, false, None, None).unwrap();
    let parsed = parse(&write_gguf(&metadata, tensors));
    assert!(validate_written_gguf(&parsed, 2).is_ok());
    assert!(matches!(
        validate_written_gguf(&parsed, 3).unwrap_err(),
        ConvertError::TensorCount { table: 2, header: 2, expected: 3 }
    ));
}

#[test]
fn tensors_that_do_not_fit_are_refused() {
    let mut conversion = Conversion::new();
    let mismatch = conversion.add_tensor("a", &meta(&[3]), 4, vec![0; 12], 3, 0).unwrap_err();
    assert!(matches!(&mismatch, ConvertError::ShapeMismatch { expected: 3, got: 4, .. }));
    assert!(mismatch.message().starts_with("Tensor a"));
    let lost = conversion.add_tensor("a", &meta(&[3]), 3, vec![0; 12], 2, 0).unwrap_err();
    assert!(matches!(lost, ConvertError::RoundTrip { got: 2, expected: 3, .. }));
    conversion.add_tensor("output_norm.weight", &meta(&[1]), 1, vec![0; 4], 1, 0).unwrap();
    let twice =
        conversion.add_tensor("model.norm.weight", &meta(&[1]), 1, vec![0; 4], 1, 0).unwrap_err();
    assert!(matches!(twice, ConvertError::Collision { .. }));
}

#[test]
fn converted_names_are_found_by_the_engine() {
    for (hub, role) in [
        ("input_layernorm", "attn_norm"),
        ("self_attn.q_proj", "attn_q"),
        ("self_attn.k_proj", "attn_k"),
        ("self_attn.v_proj", "attn_v"),
        ("self_attn.o_proj", "attn_output"),
        ("post_attention_layernorm", "ffn_norm"),
        ("mlp.gate_proj", "ffn_gate"),
        ("mlp.up_proj", "ffn_up"),
        ("mlp.down_proj", "ffn_down"),
    ] {
        let name = canonical_tensor_name(&format!("model.layers.17.{}.weight", hub));
        assert_eq!(name, layer_tensor_names(17, role)[0]);
    }
    assert_eq!(canonical_tensor_name("something.else"), "something.else");
}

#[test]
fn values_are_written_with_their_type() {
    let mut out = Vec::new();
    write_value(&mut out, &GgufValue::U32(7));
    assert_eq!(out, vec![4, 0, 0, 0, 7, 0, 0, 0]);
    let mut out = Vec::new();
    write_value(&mut out, &GgufValue::Bool(true));
    assert_eq!(out, vec![7, 0, 0, 0, 1]);
    let mut out = vec![1, 2, 3];
    pad_to_alignment(&mut out, 8);
    assert_eq!(out, vec![1, 2, 3, 0, 0, 0, 0, 0]);
    assert_eq!(align(33, 32), 64);
    assert_eq!(align(64, 32), 64);
}

#[test]
fn components_are_found_in_sequences() {
    let json = parse_json(TOKENIZER.as_bytes()).unwrap();
    assert!(tokenizer_component_has_type(json.get("normalizer"), "Lowercase"));
    assert!(tokenizer_component_has_type(json.get("decoder"), "ByteLevel"));
    assert!(!tokenizer_component_has_type(json.get("decoder"), "Metaspace"));
    assert!(!tokenizer_component_has_type(None, "Metaspace"));
}

#[test]
fn a_converted_model_keeps_its_tokenizer() {
    let tokenizer = r#"{
        "model": {"type": "BPE", "vocab": {"<u>": 0, "a": 1, "b": 2, "ab": 3},
                  "merges": ["a b"], "unk_token": "<u>"},
        "normalizer": {"type": "BertNormalizer", "lowercase": true},
        "pre_tokenizer": {"type": "ByteLevel"}
    }"#;
    let settings = r#"{"chat_template": "{{x}}", "add_prefix_space": true,
        "bos_token": {"content": "a"}, "eos_token": "missing", "eos_token_id": 2,
        "unk_token": "b"}"#;
    let metadata = build_metadata(
        &config(4),
        None,
        false,
        Some(tokenizer.as_bytes()),
        Some(settings.as_bytes()),
    )
    .unwrap();
    let bytes = write_gguf(&metadata, &Vec::new());
    let streamed = GgufReader::new().parse(&mut ByteReader::new(bytes.clone())).unwrap();
    for parsed in [parse(&bytes), streamed] {
        assert_eq!(parsed.hidden_size(), Some(4));
        let used = GgufTokenizer::from_metadata(&parsed).unwrap();
        assert_eq!(used.decode(&[3, 2]), "abb");
        assert_eq!(used.special_tokens().bos, Some(1));
        assert_eq!(used.special_tokens().eos, Some(2));
        assert_eq!(used.special_tokens().unk, Some(0));
        assert_eq!(used.special_tokens().sep, None);
        assert_eq!(used.special_tokens().pad, None);
        assert_eq!(used.chat_template(), Some("{{x}}"));
        let behavior = used.behavior();
        assert!(behavior.lowercase && behavior.byte_level && behavior.add_prefix_space);
        assert!(!behavior.strip_accents && !behavior.collapse_whitespace);
        assert_eq!(behavior.space_marker.as_deref(), Some("\u{120}"));
    }
}
