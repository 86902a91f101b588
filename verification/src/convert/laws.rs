//! What holds of every converted model.

use crate::convert::components::component_is;
use crate::convert::metadata::{
    built_metadata, model_metadata, named_metadata, special_token, with_behavior, with_config,
    with_flag, with_float, with_size, with_token, with_token_id, with_tokenizer_config,
    with_vocabulary, Entries,
};
use crate::convert::readback::{
    describable, file_read, written_file_reads_back, written_file_streams_back,
};
use crate::convert::tokens::{merge_lines, token_table};
use crate::convert::writer::{file_bytes, key_order, writable, ConvertedView, ALIGNMENT};
use crate::engine::load::{or_else, stated_dims, ModelDims};
use crate::gguf::error::GgufError;
use crate::gguf::laws::as_streamed;
use crate::gguf::metadata::{lookup_f32, lookup_usize, MetadataView};
use crate::gguf::reader::{empty_reader, stream_file};
use crate::gguf::scan::{data_alignment, scan_file, Fault};
use crate::gguf::value::ValueView;
use crate::json::{parsed_json, JsonTree};
use crate::mlx::config::MlxModelConfig;
use vstd::prelude::*;

verus! {

/// The metadata asks for the alignment of the files that are written, and every value
/// in it can be written.
pub open spec fn can_be_written(m: Entries) -> bool {
    &&& m.contains_key("general.alignment"@)
    &&& m["general.alignment"@] == ValueView::U32(ALIGNMENT as u32)
    &&& forall|k: Seq<char>| #[trigger] m.contains_key(k) ==> writable(m[k])
}

/// The key is one of those that conversion adds beside the alignment.
spec fn is_other_key(k: Seq<char>) -> bool {
    k.len() > 8 && (k[0] != 'g' || k[8] == 'n' || k[9] == 'r')
}

/// The key is one of those that conversion adds for a tokenizer.
spec fn is_tokenizer_key(k: Seq<char>) -> bool {
    k.len() > 8 && k[0] != 'g' && k[0] != 'l'
}

/// What metadata says under keys that start with the letter of those for sizes.
spec fn size_part(m: Entries) -> Entries {
    m.restrict(Set::new(|k: Seq<char>| k.len() > 0 && k[0] == 'l'))
}

proof fn lemma_model_keys()
    ensures
        is_other_key("general.name"@),
        is_other_key("general.architecture"@),
        is_other_key("llama.embedding_length"@),
        is_other_key("llama.block_count"@),
        is_other_key("llama.attention.head_count"@),
        is_other_key("llama.attention.head_count_kv"@),
        is_other_key("llama.feed_forward_length"@),
        is_other_key("llama.vocab_size"@),
        is_other_key("llama.context_length"@),
        is_other_key("llama.attention.layer_norm_rms_epsilon"@),
        is_other_key("llama.rope.freq_base"@),
        is_other_key("nexus.kv_quant_type"@),
        is_other_key("nexus.turboquant"@),
{
    reveal_strlit("general.name");
    reveal_strlit("general.architecture");
    reveal_strlit("llama.embedding_length");
    reveal_strlit("llama.block_count");
    reveal_strlit("llama.attention.head_count");
    reveal_strlit("llama.attention.head_count_kv");
    reveal_strlit("llama.feed_forward_length");
    reveal_strlit("llama.vocab_size");
    reveal_strlit("llama.context_length");
    reveal_strlit("llama.attention.layer_norm_rms_epsilon");
    reveal_strlit("llama.rope.freq_base");
    reveal_strlit("nexus.kv_quant_type");
    reveal_strlit("nexus.turboquant");
}

proof fn lemma_tokenizer_keys()
    ensures
        is_tokenizer_key("tokenizer.ggml.model"@),
        is_tokenizer_key("tokenizer.ggml.tokens"@),
        is_tokenizer_key("tokenizer.ggml.merges"@),
        is_tokenizer_key("tokenizer.ggml.unknown_token_id"@),
        is_tokenizer_key("nexus.tokenizer.normalizer.lowercase"@),
        is_tokenizer_key("nexus.tokenizer.normalizer.strip_accents"@),
        is_tokenizer_key("nexus.tokenizer.pre_tokenizer.byte_level"@),
        is_tokenizer_key("nexus.tokenizer.pre_tokenizer.add_prefix_space"@),
        is_tokenizer_key("nexus.tokenizer.space_marker"@),
        is_tokenizer_key("nexus.tokenizer.decoder.byte_level"@),
        is_tokenizer_key("tokenizer.chat_template"@),
        is_tokenizer_key("tokenizer.ggml.bos_token_id"@),
        is_tokenizer_key("tokenizer.ggml.eos_token_id"@),
        is_tokenizer_key("tokenizer.ggml.separator_token_id"@),
        is_tokenizer_key("tokenizer.ggml.padding_token_id"@),
{
    reveal_strlit("tokenizer.ggml.model");
    reveal_strlit("tokenizer.ggml.tokens");
    reveal_strlit("tokenizer.ggml.merges");
    reveal_strlit("tokenizer.ggml.unknown_token_id");
    reveal_strlit("nexus.tokenizer.normalizer.lowercase");
    reveal_strlit("nexus.tokenizer.normalizer.strip_accents");
    reveal_strlit("nexus.tokenizer.pre_tokenizer.byte_level");
    reveal_strlit("nexus.tokenizer.pre_tokenizer.add_prefix_space");
    reveal_strlit("nexus.tokenizer.space_marker");
    reveal_strlit("nexus.tokenizer.decoder.byte_level");
    reveal_strlit("tokenizer.chat_template");
    reveal_strlit("tokenizer.ggml.bos_token_id");
    reveal_strlit("tokenizer.ggml.eos_token_id");
    reveal_strlit("tokenizer.ggml.separator_token_id");
    reveal_strlit("tokenizer.ggml.padding_token_id");
}

proof fn lemma_insert(m: Entries, key: Seq<char>, v: ValueView)
    requires
        can_be_written(m),
        is_other_key(key),
        writable(v),
    ensures
        can_be_written(m.insert(key, v)),
{
    reveal_strlit("general.alignment");
    assert("general.alignment"@[8] == 'a' && "general.alignment"@[9] == 'l');
}

proof fn lemma_insert_tokenizer(m: Entries, key: Seq<char>, v: ValueView)
    requires
        can_be_written(m),
        is_tokenizer_key(key),
        writable(v),
    ensures
        can_be_written(m.insert(key, v)),
        size_part(m.insert(key, v)) == size_part(m),
{
    lemma_insert(m, key, v);
    assert(size_part(m.insert(key, v)) =~= size_part(m));
}

proof fn lemma_size(m: Entries, key: Seq<char>, v: Option<usize>)
    requires
        can_be_written(m),
        is_other_key(key),
    ensures
        can_be_written(with_size(m, key, v)),
{
    if v is Some {
        lemma_insert(m, key, ValueView::U32(v->0 as u32));
    }
}

proof fn lemma_float(m: Entries, key: Seq<char>, v: Option<u32>)
    requires
        can_be_written(m),
        is_other_key(key),
    ensures
        can_be_written(with_float(m, key, v)),
{
    if v is Some {
        lemma_insert(m, key, ValueView::F32(v->0));
    }
}

proof fn lemma_flag(m: Entries, key: Seq<char>, v: bool)
    requires
        can_be_written(m),
        is_tokenizer_key(key),
    ensures
        can_be_written(with_flag(m, key, v)),
        size_part(with_flag(m, key, v)) == size_part(m),
{
    if v {
        lemma_insert_tokenizer(m, key, ValueView::Bool(true));
    }
}

proof fn lemma_config(m: Entries, c: MlxModelConfig)
    requires
        can_be_written(m),
    ensures
        can_be_written(with_config(m, c)),
{
    lemma_model_keys();
    let m1 = match c.model_type {
        Some(t) => m.insert("general.architecture"@, ValueView::String(t@)),
        None => m,
    };
    if c.model_type is Some {
        lemma_insert(m, "general.architecture"@, ValueView::String((c.model_type->0)@));
    }
    let m2 = with_size(m1, "llama.embedding_length"@, c.hidden_size);
    lemma_size(m1, "llama.embedding_length"@, c.hidden_size);
    let m3 = with_size(m2, "llama.block_count"@, c.num_hidden_layers);
    lemma_size(m2, "llama.block_count"@, c.num_hidden_layers);
    let m4 = with_size(m3, "llama.attention.head_count"@, c.num_attention_heads);
    lemma_size(m3, "llama.attention.head_count"@, c.num_attention_heads);
    let m5 = with_size(m4, "llama.attention.head_count_kv"@, c.num_key_value_heads);
    lemma_size(m4, "llama.attention.head_count_kv"@, c.num_key_value_heads);
    let m6 = with_size(m5, "llama.feed_forward_length"@, c.intermediate_size);
    lemma_size(m5, "llama.feed_forward_length"@, c.intermediate_size);
    let m7 = with_size(m6, "llama.vocab_size"@, c.vocab_size);
    lemma_size(m6, "llama.vocab_size"@, c.vocab_size);
    let m8 = with_size(m7, "llama.context_length"@, c.max_position_embeddings);
    lemma_size(m7, "llama.context_length"@, c.max_position_embeddings);
    let m9 = with_float(m8, "llama.attention.layer_norm_rms_epsilon"@, c.rms_norm_eps);
    lemma_float(m8, "llama.attention.layer_norm_rms_epsilon"@, c.rms_norm_eps);
    lemma_float(m9, "llama.rope.freq_base"@, c.rope_theta);
}

proof fn lemma_model(config: Option<MlxModelConfig>, name: Option<Seq<char>>, turboquant: bool)
    ensures
        can_be_written(model_metadata(config, name, turboquant)),
{
    lemma_model_keys();
    let m0 = Map::<Seq<char>, ValueView>::empty().insert(
        "general.alignment"@,
        ValueView::U32(ALIGNMENT as u32),
    );
    assert(can_be_written(m0));
    let shown = match name {
        Some(s) => s,
        None => "nexus-model"@,
    };
    lemma_insert(m0, "general.name"@, ValueView::String(shown));
    let m1 = named_metadata(name);
    let m2 = match config {
        Some(c) => with_config(m1, c),
        None => m1,
    };
    if config is Some {
        lemma_config(m1, config->0);
    }
    let m3 = if m2.contains_key("general.architecture"@) {
        m2
    } else {
        m2.insert("general.architecture"@, ValueView::String("llama"@))
    };
    lemma_insert(m2, "general.architecture"@, ValueView::String("llama"@));
    lemma_insert(m3, "nexus.kv_quant_type"@, ValueView::String("tq_3b2b"@));
    lemma_insert(
        m3.insert("nexus.kv_quant_type"@, ValueView::String("tq_3b2b"@)),
        "nexus.turboquant"@,
        ValueView::Bool(true),
    );
}

proof fn lemma_vocabulary(m: Entries, tokenizer: JsonTree, model: JsonTree)
    requires
        can_be_written(m),
    ensures
        can_be_written(with_vocabulary(m, tokenizer, model)),
        size_part(with_vocabulary(m, tokenizer, model)) == size_part(m),
{
    lemma_tokenizer_keys();
    let table = token_table(tokenizer, model);
    let m1 = match model.str_of("type"@) {
        Some(t) => m.insert(
            "tokenizer.ggml.model"@,
            ValueView::String(crate::text::ascii_lower(t)),
        ),
        None => m,
    };
    if model.str_of("type"@) is Some {
        lemma_insert_tokenizer(
            m,
            "tokenizer.ggml.model"@,
            ValueView::String(crate::text::ascii_lower(model.str_of("type"@)->0)),
        );
    }
    lemma_insert_tokenizer(m1, "tokenizer.ggml.tokens"@, ValueView::StringVec(table.tokens));
    let m2 = if table.tokens.len() > 0 {
        m1.insert("tokenizer.ggml.tokens"@, ValueView::StringVec(table.tokens))
    } else {
        m1
    };
    let m3 = match model.list_of("merges"@) {
        Some(items) => if merge_lines(items).len() > 0 {
            m2.insert("tokenizer.ggml.merges"@, ValueView::StringVec(merge_lines(items)))
        } else {
            m2
        },
        None => m2,
    };
    if model.list_of("merges"@) is Some {
        lemma_insert_tokenizer(
            m2,
            "tokenizer.ggml.merges"@,
            ValueView::StringVec(merge_lines(model.list_of("merges"@)->0)),
        );
    }
    if model.str_of("unk_token"@) is Some {
        lemma_insert_tokenizer(
            m3,
            "tokenizer.ggml.unknown_token_id"@,
            ValueView::U32(table.ids[model.str_of("unk_token"@)->0]),
        );
    }
}

proof fn lemma_behavior(m: Entries, tokenizer: JsonTree)
    requires
        can_be_written(m),
    ensures
        can_be_written(with_behavior(m, tokenizer)),
        size_part(with_behavior(m, tokenizer)) == size_part(m),
{
    lemma_tokenizer_keys();
    let lower = "nexus.tokenizer.normalizer.lowercase"@;
    let strip = "nexus.tokenizer.normalizer.strip_accents"@;
    let normalizer = tokenizer.get("normalizer"@);
    let bert = component_is(normalizer, "BertNormalizer"@);
    let bytes = component_is(tokenizer.get("pre_tokenizer"@), "ByteLevel"@);
    let b1 = component_is(normalizer, "Lowercase"@);
    let m1 = with_flag(m, lower, b1);
    lemma_flag(m, lower, b1);
    let b2 = component_is(normalizer, "StripAccents"@);
    let m2 = with_flag(m1, strip, b2);
    lemma_flag(m1, strip, b2);
    let b3 = bert && crate::convert::metadata::set_below(tokenizer, "normalizer"@, "lowercase"@);
    let m3 = with_flag(m2, lower, b3);
    lemma_flag(m2, lower, b3);
    let b4 = bert && crate::convert::metadata::set_below(
        tokenizer,
        "normalizer"@,
        "strip_accents"@,
    );
    let m4 = with_flag(m3, strip, b4);
    lemma_flag(m3, strip, b4);
    let level = "nexus.tokenizer.pre_tokenizer.byte_level"@;
    let m5 = with_flag(m4, level, bytes);
    lemma_flag(m4, level, bytes);
    let prefix = "nexus.tokenizer.pre_tokenizer.add_prefix_space"@;
    let b6 = bytes && crate::convert::metadata::set_below(
        tokenizer,
        "pre_tokenizer"@,
        "add_prefix_space"@,
    );
    let m6 = with_flag(m5, prefix, b6);
    lemma_flag(m5, prefix, b6);
    lemma_insert_tokenizer(m6, "nexus.tokenizer.space_marker"@, ValueView::String("\u{120}"@));
    let m7 = if bytes {
        m6.insert("nexus.tokenizer.space_marker"@, ValueView::String("\u{120}"@))
    } else {
        m6
    };
    lemma_flag(
        m7,
        "nexus.tokenizer.decoder.byte_level"@,
        component_is(tokenizer.get("decoder"@), "ByteLevel"@),
    );
}

proof fn lemma_token(
    m: Entries,
    config: JsonTree,
    ids: Map<Seq<char>, u32>,
    json_key: Seq<char>,
    key: Seq<char>,
)
    requires
        can_be_written(m),
        is_tokenizer_key(key),
    ensures
        can_be_written(with_token(m, config, ids, json_key, key)),
        size_part(with_token(m, config, ids, json_key, key)) == size_part(m),
{
    if special_token(config, json_key) is Some {
        lemma_insert_tokenizer(m, key, ValueView::U32(ids[special_token(config, json_key)->0]));
    }
}

proof fn lemma_token_id(m: Entries, config: JsonTree, json_key: Seq<char>, key: Seq<char>)
    requires
        can_be_written(m),
        is_tokenizer_key(key),
    ensures
        can_be_written(with_token_id(m, config, json_key, key)),
        size_part(with_token_id(m, config, json_key, key)) == size_part(m),
{
    if config.i64_of(json_key) is Some {
        lemma_insert_tokenizer(m, key, ValueView::I32(config.i64_of(json_key)->0 as i32));
    }
}

proof fn lemma_tokenizer_config(m: Entries, config: JsonTree, ids: Map<Seq<char>, u32>)
    requires
        can_be_written(m),
    ensures
        can_be_written(with_tokenizer_config(m, config, ids)),
        size_part(with_tokenizer_config(m, config, ids)) == size_part(m),
{
    lemma_tokenizer_keys();
    let bos = "tokenizer.ggml.bos_token_id"@;
    let eos = "tokenizer.ggml.eos_token_id"@;
    let unk = "tokenizer.ggml.unknown_token_id"@;
    let sep = "tokenizer.ggml.separator_token_id"@;
    let pad = "tokenizer.ggml.padding_token_id"@;
    let m1 = match config.str_of("chat_template"@) {
        Some(t) => m.insert("tokenizer.chat_template"@, ValueView::String(t)),
        None => m,
    };
    if config.str_of("chat_template"@) is Some {
        lemma_insert_tokenizer(
            m,
            "tokenizer.chat_template"@,
            ValueView::String(config.str_of("chat_template"@)->0),
        );
    }
    let prefix = "nexus.tokenizer.pre_tokenizer.add_prefix_space"@;
    let m2 = with_flag(m1, prefix, config.is_set("add_prefix_space"@));
    lemma_flag(m1, prefix, config.is_set("add_prefix_space"@));
    lemma_token(m2, config, ids, "bos_token"@, bos);
    let m3 = with_token(m2, config, ids, "bos_token"@, bos);
    lemma_token(m3, config, ids, "eos_token"@, eos);
    let m4 = with_token(m3, config, ids, "eos_token"@, eos);
    lemma_token(m4, config, ids, "unk_token"@, unk);
    let m5 = with_token(m4, config, ids, "unk_token"@, unk);
    lemma_token(m5, config, ids, "sep_token"@, sep);
    let m6 = with_token(m5, config, ids, "sep_token"@, sep);
    lemma_token(m6, config, ids, "pad_token"@, pad);
    let m7 = with_token(m6, config, ids, "pad_token"@, pad);
    lemma_token_id(m7, config, "bos_token_id"@, bos);
    let m8 = with_token_id(m7, config, "bos_token_id"@, bos);
    lemma_token_id(m8, config, "eos_token_id"@, eos);
    let m9 = with_token_id(m8, config, "eos_token_id"@, eos);
    lemma_token_id(m9, config, "unk_token_id"@, unk);
    let m10 = with_token_id(m9, config, "unk_token_id"@, unk);
    lemma_token_id(m10, config, "sep_token_id"@, sep);
    let m11 = with_token_id(m10, config, "sep_token_id"@, sep);
    lemma_token_id(m11, config, "pad_token_id"@, pad);
}

/// The metadata of every converted model can be written, and asks for the alignment of
/// the files that are written.
pub proof fn converted_metadata_can_be_written(
    config: Option<MlxModelConfig>,
    name: Option<Seq<char>>,
    turboquant: bool,
    tokenizer: Option<Seq<u8>>,
    tokenizer_config: Option<Seq<u8>>,
)
    ensures
        built_metadata(config, name, turboquant, tokenizer, tokenizer_config) matches Ok(m)
            ==> can_be_written(m) && data_alignment(m) == ALIGNMENT,
{
    lemma_built(config, name, turboquant, tokenizer, tokenizer_config);
}

proof fn lemma_built(
    config: Option<MlxModelConfig>,
    name: Option<Seq<char>>,
    turboquant: bool,
    tokenizer: Option<Seq<u8>>,
    tokenizer_config: Option<Seq<u8>>,
)
    ensures
        built_metadata(config, name, turboquant, tokenizer, tokenizer_config) matches Ok(m)
            ==> can_be_written(m) && data_alignment(m) == ALIGNMENT && size_part(m) == size_part(
            model_metadata(config, name, turboquant),
        ),
{
    let m = model_metadata(config, name, turboquant);
    lemma_model(config, name, turboquant);
    if tokenizer is Some && parsed_json(tokenizer->0) is Some {
        let tree = parsed_json(tokenizer->0)->0;
        match tree.get("model"@) {
            Some(JsonTree::Entries(entries)) => {
                let model = JsonTree::Entries(entries);
                lemma_vocabulary(m, tree, model);
                let m1 = with_vocabulary(m, tree, model);
                lemma_behavior(m1, tree);
                let m2 = with_behavior(m1, tree);
                if tokenizer_config is Some && parsed_json(tokenizer_config->0) is Some {
                    lemma_tokenizer_config(
                        m2,
                        parsed_json(tokenizer_config->0)->0,
                        token_table(tree, model).ids,
                    );
                }
            },
            _ => {},
        }
    }
}

/// A converted model is read back from the file that is written of it, from memory and
/// as a stream: its metadata, the description of every tensor, and, from memory, where
/// the tensor data starts.
pub proof fn converted_model_reads_back(
    config: Option<MlxModelConfig>,
    name: Option<Seq<char>>,
    turboquant: bool,
    tokenizer: Option<Seq<u8>>,
    tokenizer_config: Option<Seq<u8>>,
    order: Seq<Seq<char>>,
    ts: Seq<ConvertedView>,
)
    ensures
        built_metadata(config, name, turboquant, tokenizer, tokenizer_config) matches Ok(m) ==> (
        key_order(order, m) && (forall|i: int|
            0 <= i < ts.len() ==> describable(#[trigger] ts[i])) && file_bytes(order, m, ts).len()
            <= usize::MAX ==> scan_file(file_bytes(order, m, ts), empty_reader()).1 == Ok::<
            MetadataView,
            Fault,
        >(file_read(order, m, ts)) && stream_file(file_bytes(order, m, ts), empty_reader()).1
            == Ok::<MetadataView, GgufError>(as_streamed(file_read(order, m, ts)))),
{
    converted_metadata_can_be_written(config, name, turboquant, tokenizer, tokenizer_config);
    match built_metadata(config, name, turboquant, tokenizer, tokenizer_config) {
        Ok(m) => {
            if key_order(order, m) && (forall|i: int|
                0 <= i < ts.len() ==> describable(#[trigger] ts[i])) && file_bytes(
                order,
                m,
                ts,
            ).len() <= usize::MAX {
                written_file_reads_back(order, m, ts);
                written_file_streams_back(order, m, ts);
            }
        },
        Err(_) => {},
    }
}

proof fn lemma_size_keys()
    ensures
        "llama.embedding_length"@.len() == 22 && "llama.embedding_length"@[0] == 'l',
        "llama.block_count"@.len() == 17 && "llama.block_count"@[0] == 'l',
        "llama.attention.head_count"@.len() == 26 && "llama.attention.head_count"@[0] == 'l',
        "llama.attention.head_count_kv"@.len() == 29 && "llama.attention.head_count_kv"@[0] == 'l',
        "llama.feed_forward_length"@.len() == 25 && "llama.feed_forward_length"@[0] == 'l',
        "llama.vocab_size"@.len() == 16 && "llama.vocab_size"@[0] == 'l',
        "llama.context_length"@.len() == 20 && "llama.context_length"@[0] == 'l',
        "llama.context_length"@[6] == 'c',
        "llama.attention.layer_norm_rms_epsilon"@.len() == 38,
        "llama.rope.freq_base"@.len() == 20 && "llama.rope.freq_base"@[0] == 'l',
        "llama.rope.freq_base"@[6] == 'r',
        "general.alignment"@[0] == 'g',
        "general.name"@[0] == 'g',
        "general.architecture"@[0] == 'g',
        "nexus.kv_quant_type"@[0] == 'n',
        "nexus.turboquant"@[0] == 'n',
{
    reveal_strlit("llama.embedding_length");
    reveal_strlit("llama.block_count");
    reveal_strlit("llama.attention.head_count");
    reveal_strlit("llama.attention.head_count_kv");
    reveal_strlit("llama.feed_forward_length");
    reveal_strlit("llama.vocab_size");
    reveal_strlit("llama.context_length");
    reveal_strlit("llama.attention.layer_norm_rms_epsilon");
    reveal_strlit("llama.rope.freq_base");
    reveal_strlit("general.alignment");
    reveal_strlit("general.name");
    reveal_strlit("general.architecture");
    reveal_strlit("nexus.kv_quant_type");
    reveal_strlit("nexus.turboquant");
}

/// A size as it is read of what was written of it.
pub open spec fn size_read(v: Option<usize>) -> Option<usize> {
    match v {
        Some(n) => Some(n as u32 as usize),
        None => None,
    }
}

/// Metadata with a list of entries, of which some have no value.
spec fn put_all(m: Entries, list: Seq<(Seq<char>, Option<ValueView>)>) -> Entries
    decreases list.len(),
{
    if list.len() == 0 {
        m
    } else {
        let before = put_all(m, list.drop_last());
        match list.last().1 {
            Some(v) => before.insert(list.last().0, v),
            None => before,
        }
    }
}

proof fn lemma_put_all(m: Entries, list: Seq<(Seq<char>, Option<ValueView>)>, j: int)
    requires
        0 <= j < list.len(),
        !m.contains_key(list[j].0),
        forall|i: int| 0 <= i < list.len() && i != j ==> (#[trigger] list[i]).0 != list[j].0,
    ensures
        match list[j].1 {
            Some(v) => put_all(m, list).contains_key(list[j].0) && put_all(m, list)[list[j].0]
                == v,
            None => !put_all(m, list).contains_key(list[j].0),
        },
    decreases list.len(),
{
    let init = list.drop_last();
    if j < list.len() - 1 {
        assert(init[j] == list[j]);
        lemma_put_all(m, init, j);
    } else {
        lemma_put_others(m, init, list[j].0);
    }
}

proof fn lemma_put_others(m: Entries, list: Seq<(Seq<char>, Option<ValueView>)>, key: Seq<char>)
    requires
        !m.contains_key(key),
        forall|i: int| 0 <= i < list.len() ==> (#[trigger] list[i]).0 != key,
    ensures
        !put_all(m, list).contains_key(key),
    decreases list.len(),
{
    if list.len() > 0 {
        lemma_put_others(m, list.drop_last(), key);
    }
}

spec fn size_value(v: Option<usize>) -> Option<ValueView> {
    match v {
        Some(n) => Some(ValueView::U32(n as u32)),
        None => None,
    }
}

spec fn float_value(v: Option<u32>) -> Option<ValueView> {
    match v {
        Some(bits) => Some(ValueView::F32(bits)),
        None => None,
    }
}

/// The entries that a configuration gives.
spec fn config_list(c: MlxModelConfig) -> Seq<(Seq<char>, Option<ValueView>)> {
    Seq::<(Seq<char>, Option<ValueView>)>::empty().push(
        ("llama.embedding_length"@, size_value(c.hidden_size)),
    ).push(("llama.block_count"@, size_value(c.num_hidden_layers))).push(
        ("llama.attention.head_count"@, size_value(c.num_attention_heads)),
    ).push(("llama.attention.head_count_kv"@, size_value(c.num_key_value_heads))).push(
        ("llama.feed_forward_length"@, size_value(c.intermediate_size)),
    ).push(("llama.vocab_size"@, size_value(c.vocab_size))).push(
        ("llama.context_length"@, size_value(c.max_position_embeddings)),
    ).push(("llama.attention.layer_norm_rms_epsilon"@, float_value(c.rms_norm_eps))).push(
        ("llama.rope.freq_base"@, float_value(c.rope_theta)),
    )
}

proof fn lemma_put_push(
    m: Entries,
    list: Seq<(Seq<char>, Option<ValueView>)>,
    key: Seq<char>,
    v: Option<ValueView>,
)
    ensures
        put_all(m, list.push((key, v))) == (match v {
            Some(v) => put_all(m, list).insert(key, v),
            None => put_all(m, list),
        }),
{
    assert(list.push((key, v)).drop_last() =~= list);
}

proof fn lemma_config_list(m: Entries, c: MlxModelConfig)
    ensures
        with_config(m, c) == put_all(
            match c.model_type {
                Some(t) => m.insert("general.architecture"@, ValueView::String(t@)),
                None => m,
            },
            config_list(c),
        ),
{
    let m1 = match c.model_type {
        Some(t) => m.insert("general.architecture"@, ValueView::String(t@)),
        None => m,
    };
    let l0 = Seq::<(Seq<char>, Option<ValueView>)>::empty();
    let l1 = l0.push(("llama.embedding_length"@, size_value(c.hidden_size)));
    let l2 = l1.push(("llama.block_count"@, size_value(c.num_hidden_layers)));
    let l3 = l2.push(("llama.attention.head_count"@, size_value(c.num_attention_heads)));
    let l4 = l3.push(("llama.attention.head_count_kv"@, size_value(c.num_key_value_heads)));
    let l5 = l4.push(("llama.feed_forward_length"@, size_value(c.intermediate_size)));
    let l6 = l5.push(("llama.vocab_size"@, size_value(c.vocab_size)));
    let l7 = l6.push(("llama.context_length"@, size_value(c.max_position_embeddings)));
    let l8 = l7.push(("llama.attention.layer_norm_rms_epsilon"@, float_value(c.rms_norm_eps)));
    lemma_put_push(m1, l0, "llama.embedding_length"@, size_value(c.hidden_size));
    lemma_put_push(m1, l1, "llama.block_count"@, size_value(c.num_hidden_layers));
    lemma_put_push(m1, l2, "llama.attention.head_count"@, size_value(c.num_attention_heads));
    lemma_put_push(m1, l3, "llama.attention.head_count_kv"@, size_value(c.num_key_value_heads));
    lemma_put_push(m1, l4, "llama.feed_forward_length"@, size_value(c.intermediate_size));
    lemma_put_push(m1, l5, "llama.vocab_size"@, size_value(c.vocab_size));
    lemma_put_push(m1, l6, "llama.context_length"@, size_value(c.max_position_embeddings));
    lemma_put_push(
        m1,
        l7,
        "llama.attention.layer_norm_rms_epsilon"@,
        float_value(c.rms_norm_eps),
    );
    lemma_put_push(m1, l8, "llama.rope.freq_base"@, float_value(c.rope_theta));
}

/// What stands under a key in metadata.
spec fn found(m: Entries, key: Seq<char>) -> Option<ValueView> {
    if m.contains_key(key) {
        Some(m[key])
    } else {
        None
    }
}

proof fn lemma_config_entry(
    c: MlxModelConfig,
    name: Option<Seq<char>>,
    turboquant: bool,
    j: int,
)
    requires
        0 <= j < 9,
        j != 7,
    ensures
        found(model_metadata(Some(c), name, turboquant), config_list(c)[j].0) == config_list(c)[j].1,
{
    lemma_size_keys();
    let list = config_list(c);
    let key = list[j].0;
    let m0 = named_metadata(name);
    let m1 = match c.model_type {
        Some(t) => m0.insert("general.architecture"@, ValueView::String(t@)),
        None => m0,
    };
    assert(key[0] == 'l');
    assert(!m1.contains_key(key));
    assert forall|i: int| 0 <= i < list.len() && i != j implies (#[trigger] list[i]).0
        != list[j].0 by {
        assert(list[i].0.len() != key.len() || (list[i].0[6] != key[6]));
    }
    lemma_put_all(m1, list, j);
    lemma_config_list(m0, c);
}

proof fn lemma_model_sizes(c: MlxModelConfig, name: Option<Seq<char>>, turboquant: bool)
    ensures
        ({
            let m = model_metadata(Some(c), name, turboquant);
            &&& lookup_usize(m, "llama.embedding_length"@) == size_read(c.hidden_size)
            &&& lookup_usize(m, "llama.block_count"@) == size_read(c.num_hidden_layers)
            &&& lookup_usize(m, "llama.attention.head_count"@) == size_read(c.num_attention_heads)
            &&& lookup_usize(m, "llama.attention.head_count_kv"@) == size_read(
                c.num_key_value_heads,
            )
            &&& lookup_usize(m, "llama.feed_forward_length"@) == size_read(c.intermediate_size)
            &&& lookup_usize(m, "llama.vocab_size"@) == size_read(c.vocab_size)
            &&& lookup_usize(m, "llama.context_length"@) == size_read(c.max_position_embeddings)
            &&& lookup_f32(m, "llama.rope.freq_base"@) == c.rope_theta
        }),
{
    lemma_config_entry(c, name, turboquant, 0);
    lemma_config_entry(c, name, turboquant, 1);
    lemma_config_entry(c, name, turboquant, 2);
    lemma_config_entry(c, name, turboquant, 3);
    lemma_config_entry(c, name, turboquant, 4);
    lemma_config_entry(c, name, turboquant, 5);
    lemma_config_entry(c, name, turboquant, 6);
    lemma_config_entry(c, name, turboquant, 8);
}

proof fn lemma_size_lookup(a: Entries, b: Entries, key: Seq<char>)
    requires
        size_part(a) == size_part(b),
        key.len() > 0,
        key[0] == 'l',
    ensures
        lookup_usize(a, key) == lookup_usize(b, key),
        lookup_f32(a, key) == lookup_f32(b, key),
{
    assert(size_part(a).contains_key(key) <==> a.contains_key(key));
    assert(size_part(b).contains_key(key) <==> b.contains_key(key));
    if a.contains_key(key) {
        assert(size_part(a)[key] == a[key]);
        assert(size_part(b)[key] == b[key]);
    }
}

/// Inference takes from a converted model the sizes that its configuration gave, cut
/// to the 32 bits in which they were written, and its own for what it did not give.
pub proof fn converted_sizes_are_loaded(
    c: MlxModelConfig,
    name: Option<Seq<char>>,
    turboquant: bool,
    tokenizer: Option<Seq<u8>>,
    tokenizer_config: Option<Seq<u8>>,
)
    ensures
        built_metadata(Some(c), name, turboquant, tokenizer, tokenizer_config) matches Ok(m) ==> {
            let heads = or_else(size_read(c.num_attention_heads), 32);
            stated_dims(m) == (ModelDims {
                num_layers: or_else(size_read(c.num_hidden_layers), 32),
                hidden_size: or_else(size_read(c.hidden_size), 4096),
                ff_dim: or_else(size_read(c.intermediate_size), 11008),
                num_heads: heads,
                num_kv_heads: or_else(size_read(c.num_key_value_heads), heads),
                vocab_size: or_else(size_read(c.vocab_size), 32000),
                context_length: or_else(size_read(c.max_position_embeddings), 4096),
                rope_freq_base: match c.rope_theta {
                    Some(bits) => bits,
                    None => 0x4974_2400,
                },
            })
        },
{
    lemma_built(Some(c), name, turboquant, tokenizer, tokenizer_config);
    lemma_model_sizes(c, name, turboquant);
    lemma_size_keys();
    match built_metadata(Some(c), name, turboquant, tokenizer, tokenizer_config) {
        Ok(m) => {
            let base = model_metadata(Some(c), name, turboquant);
            lemma_size_lookup(m, base, "llama.embedding_length"@);
            lemma_size_lookup(m, base, "llama.block_count"@);
            lemma_size_lookup(m, base, "llama.attention.head_count"@);
            lemma_size_lookup(m, base, "llama.attention.head_count_kv"@);
            lemma_size_lookup(m, base, "llama.feed_forward_length"@);
            lemma_size_lookup(m, base, "llama.vocab_size"@);
            lemma_size_lookup(m, base, "llama.context_length"@);
            lemma_size_lookup(m, base, "llama.rope.freq_base"@);
        },
        Err(_) => {},
    }
}

} // verus!
