//! The metadata of a converted model.

use crate::convert::components::{component_is, tokenizer_component_has_type};
use crate::convert::error::{ConvertError, ConvertErrorView};
use crate::convert::tokens::{
    check_ids, ids_fit, merge_lines, read_merges, read_tokens, token_table,
};
use crate::convert::writer::{GgufValue, ALIGNMENT};
use crate::gguf::value::ValueView;
use crate::json::{parse_json, parsed_json, same_str, Json, JsonTree};
use crate::mlx::config::MlxModelConfig;
use crate::names::NameMap;
use crate::text::{ascii_lower, chars_of, string_of, texts};
use vstd::prelude::*;

verus! {

/// Metadata as a map.
pub type Entries = Map<Seq<char>, ValueView>;

fn put(m: &mut NameMap<GgufValue>, key: &str, value: GgufValue)
    ensures
        final(m)@ == old(m)@.insert(key@, value@),
{
    m.insert(key.to_string(), value);
}

fn put_text(m: &mut NameMap<GgufValue>, key: &str, value: &str)
    ensures
        final(m)@ == old(m)@.insert(key@, ValueView::String(value@)),
{
    m.insert(key.to_string(), GgufValue::String(value.to_string()));
}

/// A text with its capital ASCII letters made small.
fn small_letters(s: &str) -> (r: String)
    ensures
        r@ == ascii_lower(s@),
{
    let chars = chars_of(s);
    let mut out: Vec<char> = Vec::new();
    let mut i: usize = 0;
    while i < chars.len()
        invariant
            i <= chars@.len(),
            chars@ == s@,
            out@ == ascii_lower(s@).take(i as int),
        decreases chars@.len() - i,
    {
        let c = chars[i];
        if 'A' <= c && c <= 'Z' {
            out.push((c as u8 + 32) as char);
        } else {
            out.push(c);
        }
        i += 1;
        assert(out@ =~= ascii_lower(s@).take(i as int));
    }
    assert(out@ =~= ascii_lower(s@));
    string_of(&out)
}

/// The metadata with a size, if there is one.
pub open spec fn with_size(m: Entries, key: Seq<char>, value: Option<usize>) -> Entries {
    match value {
        Some(n) => m.insert(key, ValueView::U32(n as u32)),
        None => m,
    }
}

/// The metadata with a floating-point number, if there is one.
pub open spec fn with_float(m: Entries, key: Seq<char>, value: Option<u32>) -> Entries {
    match value {
        Some(bits) => m.insert(key, ValueView::F32(bits)),
        None => m,
    }
}

/// The metadata with a flag, if it is so.
pub open spec fn with_flag(m: Entries, key: Seq<char>, value: bool) -> Entries {
    if value {
        m.insert(key, ValueView::Bool(true))
    } else {
        m
    }
}

/// Adds a size, if there is one. A size is cut to the 32 bits that it gets.
pub fn insert_usize(m: &mut NameMap<GgufValue>, key: &str, value: Option<usize>)
    ensures
        final(m)@ == with_size(old(m)@, key@, value),
{
    match value {
        Some(n) => {
            put(m, key, GgufValue::U32(n as u32));
        },
        None => {},
    }
}

fn insert_float(m: &mut NameMap<GgufValue>, key: &str, value: Option<u32>)
    ensures
        final(m)@ == with_float(old(m)@, key@, value),
{
    match value {
        Some(bits) => {
            put(m, key, GgufValue::F32(bits));
        },
        None => {},
    }
}

fn insert_flag(m: &mut NameMap<GgufValue>, key: &str, value: bool)
    ensures
        final(m)@ == with_flag(old(m)@, key@, value),
{
    if value {
        put(m, key, GgufValue::Bool(true));
    }
}

/// The alignment and the name of the model.
pub open spec fn named_metadata(name: Option<Seq<char>>) -> Entries {
    Map::<Seq<char>, ValueView>::empty().insert(
        "general.alignment"@,
        ValueView::U32(ALIGNMENT as u32),
    ).insert(
        "general.name"@,
        ValueView::String(
            match name {
                Some(s) => s,
                None => "nexus-model"@,
            },
        ),
    )
}

/// The metadata with the sizes of a configuration.
pub open spec fn with_config(m: Entries, c: MlxModelConfig) -> Entries {
    let m = match c.model_type {
        Some(t) => m.insert("general.architecture"@, ValueView::String(t@)),
        None => m,
    };
    let m = with_size(m, "llama.embedding_length"@, c.hidden_size);
    let m = with_size(m, "llama.block_count"@, c.num_hidden_layers);
    let m = with_size(m, "llama.attention.head_count"@, c.num_attention_heads);
    let m = with_size(m, "llama.attention.head_count_kv"@, c.num_key_value_heads);
    let m = with_size(m, "llama.feed_forward_length"@, c.intermediate_size);
    let m = with_size(m, "llama.vocab_size"@, c.vocab_size);
    let m = with_size(m, "llama.context_length"@, c.max_position_embeddings);
    let m = with_float(m, "llama.attention.layer_norm_rms_epsilon"@, c.rms_norm_eps);
    with_float(m, "llama.rope.freq_base"@, c.rope_theta)
}

/// The metadata of a model without its tokenizer.
pub open spec fn model_metadata(
    config: Option<MlxModelConfig>,
    name: Option<Seq<char>>,
    turboquant: bool,
) -> Entries {
    let m = named_metadata(name);
    let m = match config {
        Some(c) => with_config(m, c),
        None => m,
    };
    let m = if m.contains_key("general.architecture"@) {
        m
    } else {
        m.insert("general.architecture"@, ValueView::String("llama"@))
    };
    if turboquant {
        m.insert("nexus.kv_quant_type"@, ValueView::String("tq_3b2b"@)).insert(
            "nexus.turboquant"@,
            ValueView::Bool(true),
        )
    } else {
        m
    }
}

fn insert_config(m: &mut NameMap<GgufValue>, c: &MlxModelConfig)
    ensures
        final(m)@ == with_config(old(m)@, *c),
{
    match &c.model_type {
        Some(t) => {
            put_text(m, "general.architecture", t.as_str());
        },
        None => {},
    }
    insert_usize(m, "llama.embedding_length", c.hidden_size);
    insert_usize(m, "llama.block_count", c.num_hidden_layers);
    insert_usize(m, "llama.attention.head_count", c.num_attention_heads);
    insert_usize(m, "llama.attention.head_count_kv", c.num_key_value_heads);
    insert_usize(m, "llama.feed_forward_length", c.intermediate_size);
    insert_usize(m, "llama.vocab_size", c.vocab_size);
    insert_usize(m, "llama.context_length", c.max_position_embeddings);
    insert_float(m, "llama.attention.layer_norm_rms_epsilon", c.rms_norm_eps);
    insert_float(m, "llama.rope.freq_base", c.rope_theta);
}

/// The metadata with the type, the tokens, the merges and the unknown token of a
/// tokenizer.
pub open spec fn with_vocabulary(m: Entries, tokenizer: JsonTree, model: JsonTree) -> Entries {
    let table = token_table(tokenizer, model);
    let m = match model.str_of("type"@) {
        Some(t) => m.insert("tokenizer.ggml.model"@, ValueView::String(ascii_lower(t))),
        None => m,
    };
    let m = if table.tokens.len() > 0 {
        m.insert("tokenizer.ggml.tokens"@, ValueView::StringVec(table.tokens))
    } else {
        m
    };
    let m = match model.list_of("merges"@) {
        Some(items) => if merge_lines(items).len() > 0 {
            m.insert("tokenizer.ggml.merges"@, ValueView::StringVec(merge_lines(items)))
        } else {
            m
        },
        None => m,
    };
    match model.str_of("unk_token"@) {
        Some(t) => if table.ids.contains_key(t) {
            m.insert("tokenizer.ggml.unknown_token_id"@, ValueView::U32(table.ids[t]))
        } else {
            m
        },
        None => m,
    }
}

/// An entry of an entry says that something is so.
pub open spec fn set_below(tree: JsonTree, outer: Seq<char>, inner: Seq<char>) -> bool {
    match tree.get(outer) {
        Some(v) => v.is_set(inner),
        None => false,
    }
}

/// The metadata with what a tokenizer does to text.
pub open spec fn with_behavior(m: Entries, tokenizer: JsonTree) -> Entries {
    let normalizer = tokenizer.get("normalizer"@);
    let bert = component_is(normalizer, "BertNormalizer"@);
    let bytes = component_is(tokenizer.get("pre_tokenizer"@), "ByteLevel"@);
    let m = with_flag(
        m,
        "nexus.tokenizer.normalizer.lowercase"@,
        component_is(normalizer, "Lowercase"@),
    );
    let m = with_flag(
        m,
        "nexus.tokenizer.normalizer.strip_accents"@,
        component_is(normalizer, "StripAccents"@),
    );
    let m = with_flag(
        m,
        "nexus.tokenizer.normalizer.lowercase"@,
        bert && set_below(tokenizer, "normalizer"@, "lowercase"@),
    );
    let m = with_flag(
        m,
        "nexus.tokenizer.normalizer.strip_accents"@,
        bert && set_below(tokenizer, "normalizer"@, "strip_accents"@),
    );
    let m = with_flag(m, "nexus.tokenizer.pre_tokenizer.byte_level"@, bytes);
    let m = with_flag(
        m,
        "nexus.tokenizer.pre_tokenizer.add_prefix_space"@,
        bytes && set_below(tokenizer, "pre_tokenizer"@, "add_prefix_space"@),
    );
    let m = if bytes {
        m.insert("nexus.tokenizer.space_marker"@, ValueView::String("\u{120}"@))
    } else {
        m
    };
    with_flag(
        m,
        "nexus.tokenizer.decoder.byte_level"@,
        component_is(tokenizer.get("decoder"@), "ByteLevel"@),
    )
}

fn is_set_below(tree: &Json, outer: &str, inner: &str) -> (r: bool)
    ensures
        r == set_below(tree.tree(), outer@, inner@),
{
    match tree.get(outer) {
        Some(v) => v.is_set(inner),
        None => false,
    }
}

/// Adds what a tokenizer does to text.
pub fn insert_tokenizer_behavior_metadata(m: &mut NameMap<GgufValue>, tokenizer: &Json)
    ensures
        final(m)@ == with_behavior(old(m)@, tokenizer.tree()),
{
    let lower = tokenizer_component_has_type(tokenizer.get("normalizer"), "Lowercase");
    insert_flag(m, "nexus.tokenizer.normalizer.lowercase", lower);
    let strip = tokenizer_component_has_type(tokenizer.get("normalizer"), "StripAccents");
    insert_flag(m, "nexus.tokenizer.normalizer.strip_accents", strip);
    let bert = tokenizer_component_has_type(tokenizer.get("normalizer"), "BertNormalizer");
    insert_flag(
        m,
        "nexus.tokenizer.normalizer.lowercase",
        bert && is_set_below(tokenizer, "normalizer", "lowercase"),
    );
    insert_flag(
        m,
        "nexus.tokenizer.normalizer.strip_accents",
        bert && is_set_below(tokenizer, "normalizer", "strip_accents"),
    );
    let bytes = tokenizer_component_has_type(tokenizer.get("pre_tokenizer"), "ByteLevel");
    insert_flag(m, "nexus.tokenizer.pre_tokenizer.byte_level", bytes);
    insert_flag(
        m,
        "nexus.tokenizer.pre_tokenizer.add_prefix_space",
        bytes && is_set_below(tokenizer, "pre_tokenizer", "add_prefix_space"),
    );
    if bytes {
        put_text(m, "nexus.tokenizer.space_marker", "\u{120}");
    }
    let decoder = tokenizer_component_has_type(tokenizer.get("decoder"), "ByteLevel");
    insert_flag(m, "nexus.tokenizer.decoder.byte_level", decoder);
}

/// The text of a special token: its entry is a text, or has the text as its content.
pub open spec fn special_token(config: JsonTree, key: Seq<char>) -> Option<Seq<char>> {
    match config.get(key) {
        Some(JsonTree::Text(s)) => Some(s),
        Some(v) => v.str_of("content"@),
        None => None,
    }
}

fn tokenizer_config_token<'a>(config: &'a Json, key: &str) -> (r: Option<&'a str>)
    ensures
        same_str(r, special_token(config.tree(), key@)),
{
    match config.get(key) {
        Some(value) => match value.as_str() {
            Some(token) => Some(token),
            None => value.str_of("content"),
        },
        None => None,
    }
}

/// The metadata with the number of a special token, where it has none and the token is
/// known.
pub open spec fn with_token(
    m: Entries,
    config: JsonTree,
    ids: Map<Seq<char>, u32>,
    json_key: Seq<char>,
    key: Seq<char>,
) -> Entries {
    match special_token(config, json_key) {
        Some(t) => if !m.contains_key(key) && ids.contains_key(t) {
            m.insert(key, ValueView::U32(ids[t]))
        } else {
            m
        },
        None => m,
    }
}

/// The metadata with a number that the configuration gives, where it has none.
pub open spec fn with_token_id(
    m: Entries,
    config: JsonTree,
    json_key: Seq<char>,
    key: Seq<char>,
) -> Entries {
    match config.i64_of(json_key) {
        Some(id) => if !m.contains_key(key) {
            m.insert(key, ValueView::I32(id as i32))
        } else {
            m
        },
        None => m,
    }
}

fn insert_token(
    m: &mut NameMap<GgufValue>,
    config: &Json,
    ids: &NameMap<u32>,
    json_key: &str,
    key: &str,
)
    ensures
        final(m)@ == with_token(old(m)@, config.tree(), ids@, json_key@, key@),
{
    if m.contains_key(key) {
        return;
    }
    match tokenizer_config_token(config, json_key) {
        Some(token) => match ids.get(token) {
            Some(id) => {
                put(m, key, GgufValue::U32(*id));
            },
            None => {},
        },
        None => {},
    }
}

fn insert_token_id(m: &mut NameMap<GgufValue>, config: &Json, json_key: &str, key: &str)
    ensures
        final(m)@ == with_token_id(old(m)@, config.tree(), json_key@, key@),
{
    if m.contains_key(key) {
        return;
    }
    match config.i64_of(json_key) {
        Some(id) => {
            put(m, key, GgufValue::I32(id as i32));
        },
        None => {},
    }
}

/// The metadata with the chat template and the special tokens of a tokenizer
/// configuration. Tokens go before numbers.
pub open spec fn with_tokenizer_config(
    m: Entries,
    config: JsonTree,
    ids: Map<Seq<char>, u32>,
) -> Entries {
    let bos = "tokenizer.ggml.bos_token_id"@;
    let eos = "tokenizer.ggml.eos_token_id"@;
    let unk = "tokenizer.ggml.unknown_token_id"@;
    let sep = "tokenizer.ggml.separator_token_id"@;
    let pad = "tokenizer.ggml.padding_token_id"@;
    let m = match config.str_of("chat_template"@) {
        Some(t) => m.insert("tokenizer.chat_template"@, ValueView::String(t)),
        None => m,
    };
    let m = with_flag(
        m,
        "nexus.tokenizer.pre_tokenizer.add_prefix_space"@,
        config.is_set("add_prefix_space"@),
    );
    let m = with_token(m, config, ids, "bos_token"@, bos);
    let m = with_token(m, config, ids, "eos_token"@, eos);
    let m = with_token(m, config, ids, "unk_token"@, unk);
    let m = with_token(m, config, ids, "sep_token"@, sep);
    let m = with_token(m, config, ids, "pad_token"@, pad);
    let m = with_token_id(m, config, "bos_token_id"@, bos);
    let m = with_token_id(m, config, "eos_token_id"@, eos);
    let m = with_token_id(m, config, "unk_token_id"@, unk);
    let m = with_token_id(m, config, "sep_token_id"@, sep);
    with_token_id(m, config, "pad_token_id"@, pad)
}

/// Adds the chat template and the special tokens of a tokenizer configuration.
pub fn insert_tokenizer_config_metadata(
    m: &mut NameMap<GgufValue>,
    config: &Json,
    ids: &NameMap<u32>,
)
    ensures
        final(m)@ == with_tokenizer_config(old(m)@, config.tree(), ids@),
{
    match config.str_of("chat_template") {
        Some(t) => {
            put_text(m, "tokenizer.chat_template", t);
        },
        None => {},
    }
    insert_flag(
        m,
        "nexus.tokenizer.pre_tokenizer.add_prefix_space",
        config.is_set("add_prefix_space"),
    );
    insert_token(m, config, ids, "bos_token", "tokenizer.ggml.bos_token_id");
    insert_token(m, config, ids, "eos_token", "tokenizer.ggml.eos_token_id");
    insert_token(m, config, ids, "unk_token", "tokenizer.ggml.unknown_token_id");
    insert_token(m, config, ids, "sep_token", "tokenizer.ggml.separator_token_id");
    insert_token(m, config, ids, "pad_token", "tokenizer.ggml.padding_token_id");
    insert_token_id(m, config, "bos_token_id", "tokenizer.ggml.bos_token_id");
    insert_token_id(m, config, "eos_token_id", "tokenizer.ggml.eos_token_id");
    insert_token_id(m, config, "unk_token_id", "tokenizer.ggml.unknown_token_id");
    insert_token_id(m, config, "sep_token_id", "tokenizer.ggml.separator_token_id");
    insert_token_id(m, config, "pad_token_id", "tokenizer.ggml.padding_token_id");
}

/// The metadata with a tokenizer, and with its configuration where there is one. There
/// must be an object under `model`.
pub open spec fn with_tokenizer(m: Entries, tokenizer: JsonTree, config: Option<JsonTree>) -> Result<
    Entries,
    ConvertErrorView,
> {
    match tokenizer.get("model"@) {
        Some(JsonTree::Entries(entries)) => {
            let model = JsonTree::Entries(entries);
            if !ids_fit(tokenizer, model) {
                Err(ConvertErrorView::HugeTokenId)
            } else {
                let m = with_behavior(with_vocabulary(m, tokenizer, model), tokenizer);
                Ok(
                    match config {
                        Some(c) => with_tokenizer_config(m, c, token_table(tokenizer, model).ids),
                        None => m,
                    },
                )
            }
        },
        _ => Err(ConvertErrorView::MissingModel),
    }
}

/// The metadata as a result, or the error.
pub open spec fn same_entries(
    r: Result<NameMap<GgufValue>, ConvertError>,
    expected: Result<Entries, ConvertErrorView>,
) -> bool {
    match (r, expected) {
        (Ok(m), Ok(e)) => m@ == e,
        (Err(f), Err(e)) => f@ == e,
        _ => false,
    }
}

/// Adds a tokenizer, and its configuration where there is one.
pub fn insert_tokenizer_metadata(
    metadata: NameMap<GgufValue>,
    tokenizer: &Json,
    config: Option<&Json>,
) -> (r: Result<NameMap<GgufValue>, ConvertError>)
    ensures
        same_entries(
            r,
            with_tokenizer(
                metadata@,
                tokenizer.tree(),
                match config {
                    Some(c) => Some(c.tree()),
                    None => None,
                },
            ),
        ),
{
    let mut m = metadata;
    let model = match tokenizer.get("model") {
        Some(model) => model,
        None => {
            return Err(ConvertError::MissingModel);
        },
    };
    if model.as_entries().is_none() {
        return Err(ConvertError::MissingModel);
    }
    assert(model.tree() is Entries);
    if !check_ids(tokenizer, model) {
        return Err(ConvertError::HugeTokenId);
    }
    match model.str_of("type") {
        Some(t) => {
            let small = small_letters(t);
            put_text(&mut m, "tokenizer.ggml.model", small.as_str());
        },
        None => {},
    }
    let (tokens, ids) = read_tokens(tokenizer, model);
    let ghost table = token_table(tokenizer.tree(), model.tree());
    assert(tokens@.len() == table.tokens.len()) by {
        assert(texts(tokens@).len() == tokens@.len());
    }
    if tokens.len() > 0 {
        put(&mut m, "tokenizer.ggml.tokens", GgufValue::StringVec(tokens));
    }
    match model.list_of("merges") {
        Some(items) => {
            let lines = read_merges(items);
            assert(texts(lines@).len() == lines@.len());
            if lines.len() > 0 {
                put(&mut m, "tokenizer.ggml.merges", GgufValue::StringVec(lines));
            }
        },
        None => {},
    }
    match model.str_of("unk_token") {
        Some(t) => match ids.get(t) {
            Some(id) => {
                put(&mut m, "tokenizer.ggml.unknown_token_id", GgufValue::U32(*id));
            },
            None => {},
        },
        None => {},
    }
    assert(m@ == with_vocabulary(metadata@, tokenizer.tree(), model.tree()));
    insert_tokenizer_behavior_metadata(&mut m, tokenizer);
    match config {
        Some(c) => {
            insert_tokenizer_config_metadata(&mut m, c, &ids);
        },
        None => {},
    }
    Ok(m)
}

/// What is made of a model and of the bytes of its tokenizer files. The configuration
/// counts only beside a tokenizer.
pub open spec fn built_metadata(
    config: Option<MlxModelConfig>,
    name: Option<Seq<char>>,
    turboquant: bool,
    tokenizer: Option<Seq<u8>>,
    tokenizer_config: Option<Seq<u8>>,
) -> Result<Entries, ConvertErrorView> {
    let m = model_metadata(config, name, turboquant);
    match tokenizer {
        None => Ok(m),
        Some(bytes) => match parsed_json(bytes) {
            None => Err(ConvertErrorView::BadTokenizer),
            Some(tree) => match tokenizer_config {
                None => with_tokenizer(m, tree, None),
                Some(config_bytes) => match with_tokenizer(m, tree, None) {
                    Err(e) => Err(e),
                    Ok(_) => match parsed_json(config_bytes) {
                        None => Err(ConvertErrorView::BadTokenizerConfig),
                        Some(c) => with_tokenizer(m, tree, Some(c)),
                    },
                },
            },
        },
    }
}

fn describe_model(config: &Option<MlxModelConfig>, name: Option<&str>, turboquant: bool) -> (r:
    NameMap<GgufValue>)
    ensures
        r@ == model_metadata(
            *config,
            match name {
                Some(s) => Some(s@),
                None => None,
            },
            turboquant,
        ),
{
    let mut m: NameMap<GgufValue> = NameMap::new();
    put(&mut m, "general.alignment", GgufValue::U32(ALIGNMENT as u32));
    put_text(
        &mut m,
        "general.name",
        match name {
            Some(s) => s,
            None => "nexus-model",
        },
    );
    match config {
        Some(c) => {
            insert_config(&mut m, c);
        },
        None => {},
    }
    if !m.contains_key("general.architecture") {
        put_text(&mut m, "general.architecture", "llama");
    }
    if turboquant {
        put_text(&mut m, "nexus.kv_quant_type", "tq_3b2b");
        put(&mut m, "nexus.turboquant", GgufValue::Bool(true));
    }
    m
}

/// The bytes of a file, if there is one.
pub open spec fn bytes_of(b: Option<&[u8]>) -> Option<Seq<u8>> {
    match b {
        Some(s) => Some(s@),
        None => None,
    }
}

/// Makes the metadata of a model, with the bytes of its tokenizer files.
pub fn build_metadata(
    config: &Option<MlxModelConfig>,
    name: Option<&str>,
    turboquant: bool,
    tokenizer: Option<&[u8]>,
    tokenizer_config: Option<&[u8]>,
) -> (r: Result<NameMap<GgufValue>, ConvertError>)
    ensures
        same_entries(
            r,
            built_metadata(
                *config,
                match name {
                    Some(s) => Some(s@),
                    None => None,
                },
                turboquant,
                bytes_of(tokenizer),
                bytes_of(tokenizer_config),
            ),
        ),
{
    let m = describe_model(config, name, turboquant);
    let tokenizer = match tokenizer {
        Some(bytes) => match parse_json(bytes) {
            Some(json) => json,
            None => {
                return Err(ConvertError::BadTokenizer);
            },
        },
        None => {
            return Ok(m);
        },
    };
    match tokenizer_config {
        None => insert_tokenizer_metadata(m, &tokenizer, None),
        Some(bytes) => match parse_json(bytes) {
            Some(json) => insert_tokenizer_metadata(m, &tokenizer, Some(&json)),
            None => match insert_tokenizer_metadata(m, &tokenizer, None) {
                Ok(_) => Err(ConvertError::BadTokenizerConfig),
                Err(e) => Err(e),
            },
        },
    }
}

} // verus!
