use nexus::gguf::{GgufByteOrder, GgufValue, ModelMetadata};
use nexus::names::NameMap;
use nexus::tokenizer::accents::strip_common_accents;
use nexus::tokenizer::chat::render_chat;
use nexus::tokenizer::{ByteTokenizer, GgufTokenizer, RuntimeTokenizer, Tokenizer};

fn empty_metadata() -> ModelMetadata {
    ModelMetadata {
        version: 3,
        tensor_count: 0,
        kv_count: 0,
        byte_order: GgufByteOrder::LittleEndian,
        alignment: 32,
        tensor_data_offset: 0,
        metadata: NameMap::new(),
        tensors: Vec::new(),
    }
}

fn texts(items: &[&str]) -> GgufValue {
    GgufValue::StringVec(items.iter().map(|s| s.to_string()).collect())
}

#[test]
fn test_byte_tokenizer_roundtrip_ascii() {
    let tokenizer = ByteTokenizer;
    let tokens = tokenizer.encode("hello");
    assert_eq!(tokens, vec![104, 101, 108, 108, 111]);
    assert_eq!(tokenizer.decode(&tokens), "hello");
}

#[test]
fn test_byte_tokenizer_replaces_out_of_range_ids() {
    let tokenizer = ByteTokenizer;
    assert_eq!(tokenizer.decode(&[65, 300]), "A?");
}

#[test]
fn test_gguf_tokenizer_uses_vocab_metadata() {
    let mut metadata = empty_metadata();
    metadata.metadata.insert(
        "tokenizer.ggml.tokens".to_string(),
        GgufValue::StringVec(vec!["h".to_string(), "he".to_string(), "llo".to_string()]),
    );

    let tokenizer = RuntimeTokenizer::from_metadata(Some(&metadata));
    assert_eq!(tokenizer.encode("hello"), vec![1, 2]);
    assert_eq!(tokenizer.decode(&[1, 2]), "hello");
}

#[test]
fn test_gguf_tokenizer_uses_bpe_merges_and_special_ids() {
    let mut metadata = empty_metadata();
    metadata.metadata.insert(
        "tokenizer.ggml.tokens".to_string(),
        GgufValue::StringVec(vec![
            "<unk>".to_string(),
            "h".to_string(),
            "e".to_string(),
            "he".to_string(),
            "l".to_string(),
            "o".to_string(),
            "ll".to_string(),
            "llo".to_string(),
            "hello".to_string(),
        ]),
    );
    metadata.metadata.insert(
        "tokenizer.ggml.merges".to_string(),
        GgufValue::StringVec(vec![
            "h e".to_string(),
            "l l".to_string(),
            "ll o".to_string(),
            "he llo".to_string(),
        ]),
    );
    metadata
        .metadata
        .insert("tokenizer.ggml.unknown_token_id".to_string(), GgufValue::U32(0));

    let tokenizer = RuntimeTokenizer::from_metadata(Some(&metadata));
    assert_eq!(tokenizer.encode("hello"), vec![8]);
    assert_eq!(tokenizer.encode("!"), vec![0]);
}

#[test]
fn test_runtime_tokenizer_renders_chatml_template() {
    let mut metadata = empty_metadata();
    metadata.metadata.insert(
        "tokenizer.ggml.tokens".to_string(),
        GgufValue::StringVec(vec!["<|im_start|>".to_string()]),
    );
    metadata.metadata.insert(
        "tokenizer.chat_template".to_string(),
        GgufValue::String("<|im_start|>{{ role }}".to_string()),
    );

    let tokenizer = RuntimeTokenizer::from_metadata(Some(&metadata));
    let rendered = tokenizer.render_chat_messages(&[("user", "hello")], true);
    assert_eq!(rendered, "<|im_start|>user\nhello<|im_end|>\n<|im_start|>assistant\n");
}

#[test]
fn test_tokenizer_applies_normalizer_and_byte_level_prefix_space() {
    let mut metadata = empty_metadata();
    metadata.metadata.insert(
        "tokenizer.ggml.tokens".to_string(),
        GgufValue::StringVec(vec![
            "<unk>".to_string(),
            "Ġcafe".to_string(),
            "Ġ".to_string(),
            "c".to_string(),
            "a".to_string(),
            "f".to_string(),
            "e".to_string(),
        ]),
    );
    metadata
        .metadata
        .insert("tokenizer.ggml.unknown_token_id".to_string(), GgufValue::U32(0));
    metadata
        .metadata
        .insert("nexus.tokenizer.normalizer.lowercase".to_string(), GgufValue::Bool(true));
    metadata
        .metadata
        .insert("nexus.tokenizer.normalizer.strip_accents".to_string(), GgufValue::Bool(true));
    metadata
        .metadata
        .insert("nexus.tokenizer.pre_tokenizer.byte_level".to_string(), GgufValue::Bool(true));
    metadata.metadata.insert(
        "nexus.tokenizer.pre_tokenizer.add_prefix_space".to_string(),
        GgufValue::Bool(true),
    );

    let tokenizer = RuntimeTokenizer::from_metadata(Some(&metadata));
    assert_eq!(tokenizer.encode("Café"), vec![1]);
    assert_eq!(tokenizer.decode(&[1]), " cafe");
}

#[test]
fn bytes_decode_to_any_text() {
    let tokenizer = ByteTokenizer;
    for text in ["", "hello", "größer als 日本", "🦀\n\t"] {
        let tokens = tokenizer.encode(text);
        assert_eq!(tokens.len(), text.len());
        assert_eq!(tokenizer.decode(&tokens), text);
    }
}

#[test]
fn broken_bytes_decode_to_replacement_characters() {
    let tokenizer = ByteTokenizer;
    let tokens = [72u32, 0xff, 105, 0xe2, 0x82, 33];
    let bytes: Vec<u8> = tokens.iter().map(|t| *t as u8).collect();
    assert_eq!(tokenizer.decode(&tokens), String::from_utf8_lossy(&bytes));
    assert!(tokenizer.decode(&[0xff]).contains('\u{fffd}'));
}

#[test]
fn lowercase_is_that_of_unicode() {
    let mut metadata = empty_metadata();
    metadata
        .metadata
        .insert("tokenizer.ggml.tokens".to_string(), texts(&["straße", "ω", "σ"]));
    metadata
        .metadata
        .insert("nexus.tokenizer.normalizer.lowercase".to_string(), GgufValue::Bool(true));
    let tokenizer = GgufTokenizer::from_metadata(&metadata).unwrap();
    assert!(tokenizer.behavior().lowercase);
    assert_eq!(tokenizer.prepare_text("STRAßE"), "straße");
    assert_eq!(tokenizer.encode("STRAßEΩ"), vec![0, 1]);
    assert_eq!(tokenizer.prepare_text("ΑΣ"), "ΑΣ".to_lowercase());
}

#[test]
fn accents_are_stripped_from_common_letters() {
    assert_eq!(strip_common_accents("Crème brûlée à São Tomé"), "Creme brulee a Sao Tome");
    assert_eq!(strip_common_accents("plain"), "plain");
}

#[test]
fn no_vocabulary_means_bytes() {
    let metadata = empty_metadata();
    assert!(GgufTokenizer::from_metadata(&metadata).is_none());
    let tokenizer = RuntimeTokenizer::from_metadata(Some(&metadata));
    assert_eq!(tokenizer.encode("ab"), vec![97, 98]);
    assert_eq!(RuntimeTokenizer::from_metadata(None).encode("ab"), vec![97, 98]);
    assert_eq!(RuntimeTokenizer::default().decode(&[97, 98]), "ab");
}

#[test]
fn special_tokens_are_read() {
    let mut metadata = empty_metadata();
    metadata
        .metadata
        .insert("tokenizer.ggml.tokens".to_string(), texts(&["a", "b", "</s>"]));
    metadata.metadata.insert("tokenizer.ggml.bos_token_id".to_string(), GgufValue::U32(1));
    metadata.metadata.insert("tokenizer.ggml.eos_token_id".to_string(), GgufValue::U32(2));
    let tokenizer = GgufTokenizer::from_metadata(&metadata).unwrap();
    assert_eq!(tokenizer.special_tokens().bos, Some(1));
    assert_eq!(tokenizer.special_tokens().eos, Some(2));
    assert_eq!(tokenizer.special_tokens().unk, None);
    assert_eq!(tokenizer.chat_template(), None);
}

#[test]
fn merges_go_by_their_rank() {
    let mut metadata = empty_metadata();
    metadata
        .metadata
        .insert("tokenizer.ggml.tokens".to_string(), texts(&["a", "b", "c", "ab", "bc"]));
    metadata.metadata.insert("tokenizer.ggml.merges".to_string(), texts(&["b c", "a b"]));
    let tokenizer = GgufTokenizer::from_metadata(&metadata).unwrap();
    assert_eq!(tokenizer.encode("abc"), vec![0, 4]);
}

#[test]
fn chats_without_a_known_template() {
    let messages = [("system", "be brief"), ("user", "hi")];
    assert_eq!(render_chat(None, &messages, true), "system: be brief\nuser: hi\nassistant: ");
    assert_eq!(
        render_chat(Some("{{ anything }}"), &messages, false),
        "system: be brief\nuser: hi\n"
    );
}

#[test]
fn chats_in_instruction_brackets() {
    let template = Some("[INST] {{ content }} [/INST]");
    assert_eq!(
        render_chat(template, &[("system", "be brief"), ("user", "hi")], true),
        "<s>[INST] <<SYS>>\nbe brief\n<</SYS>>\n\nhi [/INST]"
    );
    assert_eq!(
        render_chat(template, &[("user", "hi"), ("assistant", "yes"), ("tool", "x")], true),
        "<s>[INST] hi [/INST] yes </s> x [INST] [/INST]"
    );
}
