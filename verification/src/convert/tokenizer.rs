//! The tokenizer of a converted model.

use crate::convert::components::component_is;
use crate::convert::metadata::{
    built_metadata, model_metadata, named_metadata, set_below, special_token, with_behavior,
    with_config, with_flag, with_tokenizer_config, with_vocabulary, Entries,
};
use crate::convert::tokens::{merge_lines, token_table};
use crate::gguf::metadata::first_of;
use crate::gguf::value::ValueView;
use crate::json::{parsed_json, JsonTree};
use crate::mlx::config::MlxModelConfig;
use crate::tokenizer::model::{merge_ranks, BehaviorView, VocabularyView};
use crate::tokenizer::vocabulary::{
    marker_in, stored_behavior, stored_special, stored_template, stored_tokenizer,
    SpecialTokenIds,
};
use vstd::prelude::*;

verus! {

/// The number of a token that may be named and may be known.
pub open spec fn known_token(ids: Map<Seq<char>, u32>, name: Option<Seq<char>>) -> Option<u32> {
    match name {
        Some(t) => if ids.contains_key(t) {
            Some(ids[t])
        } else {
            None
        },
        None => None,
    }
}

/// The special token that a tokenizer configuration asks for, by its text if that is
/// known, else by its number.
pub open spec fn configured_token(
    config: Option<JsonTree>,
    ids: Map<Seq<char>, u32>,
    name: Seq<char>,
    number: Seq<char>,
) -> Option<u32> {
    match config {
        Some(c) => match known_token(ids, special_token(c, name)) {
            Some(id) => Some(id),
            None => match c.i64_of(number) {
                Some(n) => if 0 <= n as i32 {
                    Some((n as i32) as u32)
                } else {
                    None
                },
                None => None,
            },
        },
        None => None,
    }
}

/// What the files of a tokenizer say that it does to text.
pub open spec fn described_behavior(
    tokenizer: JsonTree,
    config: Option<JsonTree>,
    tokens: Seq<Seq<char>>,
) -> BehaviorView {
    let normalizer = tokenizer.get("normalizer"@);
    let bert = component_is(normalizer, "BertNormalizer"@);
    let bytes = component_is(tokenizer.get("pre_tokenizer"@), "ByteLevel"@);
    BehaviorView {
        lowercase: component_is(normalizer, "Lowercase"@) || (bert && set_below(
            tokenizer,
            "normalizer"@,
            "lowercase"@,
        )),
        strip_accents: component_is(normalizer, "StripAccents"@) || (bert && set_below(
            tokenizer,
            "normalizer"@,
            "strip_accents"@,
        )),
        byte_level: bytes,
        add_prefix_space: (bytes && set_below(
            tokenizer,
            "pre_tokenizer"@,
            "add_prefix_space"@,
        )) || (config matches Some(c) && c.is_set("add_prefix_space"@)),
        collapse_whitespace: false,
        space_marker: if bytes {
            Some("\u{120}"@)
        } else {
            marker_in(tokens)
        },
    }
}

/// The tokenizer that its files describe, if it has a token.
pub open spec fn described_tokenizer(tokenizer: JsonTree, config: Option<JsonTree>) -> Option<
    VocabularyView,
> {
    let model = match tokenizer.get("model"@) {
        Some(v) => v,
        None => JsonTree::Null,
    };
    let table = token_table(tokenizer, model);
    if table.tokens.len() == 0 {
        None
    } else {
        Some(
            VocabularyView {
                tokens: table.tokens,
                ranks: match model.list_of("merges"@) {
                    Some(items) => merge_ranks(merge_lines(items)),
                    None => Map::empty(),
                },
                special_tokens: SpecialTokenIds {
                    bos: configured_token(config, table.ids, "bos_token"@, "bos_token_id"@),
                    eos: configured_token(config, table.ids, "eos_token"@, "eos_token_id"@),
                    unk: first_of(
                        known_token(table.ids, model.str_of("unk_token"@)),
                        configured_token(config, table.ids, "unk_token"@, "unk_token_id"@),
                    ),
                    sep: configured_token(config, table.ids, "sep_token"@, "sep_token_id"@),
                    pad: configured_token(config, table.ids, "pad_token"@, "pad_token_id"@),
                },
                chat_template: match config {
                    Some(c) => c.str_of("chat_template"@),
                    None => None,
                },
                behavior: described_behavior(tokenizer, config, table.tokens),
            },
        )
    }
}

/// What stands under a key in metadata.
spec fn entry(m: Entries, key: Seq<char>) -> Option<ValueView> {
    if m.contains_key(key) {
        Some(m[key])
    } else {
        None
    }
}

/// The keys of a tokenizer tell each other apart by their lengths and a letter.
proof fn lemma_keys()
    ensures
        "tokenizer.ggml.model"@.len() == 20,
        "tokenizer.ggml.tokens"@.len() == 21 && "tokenizer.ggml.tokens"@[15] == 't',
        "tokenizer.ggml.merges"@.len() == 21 && "tokenizer.ggml.merges"@[15] == 'm',
        "tokenizer.ggml.unknown_token_id"@.len() == 31,
        "tokenizer.ggml.unknown_token_id"@[15] == 'u',
        "tokenizer.ggml.padding_token_id"@.len() == 31,
        "tokenizer.ggml.padding_token_id"@[15] == 'p',
        "tokenizer.ggml.bos_token_id"@.len() == 27 && "tokenizer.ggml.bos_token_id"@[15] == 'b',
        "tokenizer.ggml.eos_token_id"@.len() == 27 && "tokenizer.ggml.eos_token_id"@[15] == 'e',
        "tokenizer.ggml.separator_token_id"@.len() == 33,
        "tokenizer.ggml.separator_token_id"@[18] == 'a',
        "tokenizer.ggml.seperator_token_id"@.len() == 33,
        "tokenizer.ggml.seperator_token_id"@[18] == 'e',
        "tokenizer.chat_template"@.len() == 23,
        "tokenizer.ggml.chat_template"@.len() == 28,
        "tokenizer.ggml.chat_template"@[0] == 't',
        "nexus.tokenizer.space_marker"@.len() == 28,
        "nexus.tokenizer.space_marker"@[0] == 'n',
        "nexus.tokenizer.normalizer.lowercase"@.len() == 36,
        "nexus.tokenizer.normalizer.strip_accents"@.len() == 40,
        "nexus.tokenizer.normalizer.strip_accents"@[16] == 'n',
        "nexus.tokenizer.pre_tokenizer.byte_level"@.len() == 40,
        "nexus.tokenizer.pre_tokenizer.byte_level"@[16] == 'p',
        "nexus.tokenizer.pre_tokenizer.add_prefix_space"@.len() == 46,
        "nexus.tokenizer.pre_tokenizer.add_prefix_space"@[16] == 'p',
        "nexus.tokenizer.normalizer.collapse_whitespace"@.len() == 46,
        "nexus.tokenizer.normalizer.collapse_whitespace"@[16] == 'n',
        "nexus.tokenizer.decoder.byte_level"@.len() == 34,
{
    reveal_strlit("tokenizer.ggml.model");
    reveal_strlit("tokenizer.ggml.tokens");
    reveal_strlit("tokenizer.ggml.merges");
    reveal_strlit("tokenizer.ggml.unknown_token_id");
    reveal_strlit("tokenizer.ggml.padding_token_id");
    reveal_strlit("tokenizer.ggml.bos_token_id");
    reveal_strlit("tokenizer.ggml.eos_token_id");
    reveal_strlit("tokenizer.ggml.separator_token_id");
    reveal_strlit("tokenizer.ggml.seperator_token_id");
    reveal_strlit("tokenizer.chat_template");
    reveal_strlit("tokenizer.ggml.chat_template");
    reveal_strlit("nexus.tokenizer.space_marker");
    reveal_strlit("nexus.tokenizer.normalizer.lowercase");
    reveal_strlit("nexus.tokenizer.normalizer.strip_accents");
    reveal_strlit("nexus.tokenizer.pre_tokenizer.byte_level");
    reveal_strlit("nexus.tokenizer.pre_tokenizer.add_prefix_space");
    reveal_strlit("nexus.tokenizer.normalizer.collapse_whitespace");
    reveal_strlit("nexus.tokenizer.decoder.byte_level");
}

/// The key is longer than the keys of a model that start with its letter.
spec fn is_tokenizer_key(k: Seq<char>) -> bool {
    k.len() > 19 && (k[0] == 't' || k[0] == 'n')
}

proof fn lemma_looked_up()
    ensures
        is_tokenizer_key("tokenizer.ggml.tokens"@),
        is_tokenizer_key("tokenizer.ggml.merges"@),
        is_tokenizer_key("tokenizer.ggml.unknown_token_id"@),
        is_tokenizer_key("tokenizer.ggml.padding_token_id"@),
        is_tokenizer_key("tokenizer.ggml.bos_token_id"@),
        is_tokenizer_key("tokenizer.ggml.eos_token_id"@),
        is_tokenizer_key("tokenizer.ggml.separator_token_id"@),
        is_tokenizer_key("tokenizer.ggml.seperator_token_id"@),
        is_tokenizer_key("tokenizer.chat_template"@),
        is_tokenizer_key("tokenizer.ggml.chat_template"@),
        is_tokenizer_key("nexus.tokenizer.space_marker"@),
        is_tokenizer_key("nexus.tokenizer.normalizer.lowercase"@),
        is_tokenizer_key("nexus.tokenizer.normalizer.strip_accents"@),
        is_tokenizer_key("nexus.tokenizer.pre_tokenizer.byte_level"@),
        is_tokenizer_key("nexus.tokenizer.pre_tokenizer.add_prefix_space"@),
        is_tokenizer_key("nexus.tokenizer.normalizer.collapse_whitespace"@),
{
    reveal_strlit("tokenizer.ggml.tokens");
    reveal_strlit("tokenizer.ggml.merges");
    reveal_strlit("tokenizer.ggml.unknown_token_id");
    reveal_strlit("tokenizer.ggml.padding_token_id");
    reveal_strlit("tokenizer.ggml.bos_token_id");
    reveal_strlit("tokenizer.ggml.eos_token_id");
    reveal_strlit("tokenizer.ggml.separator_token_id");
    reveal_strlit("tokenizer.ggml.seperator_token_id");
    reveal_strlit("tokenizer.chat_template");
    reveal_strlit("tokenizer.ggml.chat_template");
    reveal_strlit("nexus.tokenizer.space_marker");
    reveal_strlit("nexus.tokenizer.normalizer.lowercase");
    reveal_strlit("nexus.tokenizer.normalizer.strip_accents");
    reveal_strlit("nexus.tokenizer.pre_tokenizer.byte_level");
    reveal_strlit("nexus.tokenizer.pre_tokenizer.add_prefix_space");
    reveal_strlit("nexus.tokenizer.normalizer.collapse_whitespace");
}

/// What is said of a model itself stands under other keys.
proof fn lemma_model_apart(
    config: Option<MlxModelConfig>,
    name: Option<Seq<char>>,
    turboquant: bool,
    k: Seq<char>,
)
    requires
        is_tokenizer_key(k),
    ensures
        entry(model_metadata(config, name, turboquant), k) is None,
{
    reveal_strlit("general.alignment");
    reveal_strlit("general.name");
    reveal_strlit("general.architecture");
    reveal_strlit("llama.embedding_length");
    reveal_strlit("llama.block_count");
    reveal_strlit("llama.attention.head_count");
    reveal_strlit("llama.attention.head_count_kv");
    reveal_strlit("llama.feed_forward_length");
    reveal_strlit("llama.vocab_size");
    reveal_strlit("llama.context_length");
    reveal_strlit("llama.attention.layer_norm_rms_epsilon");
    reveal_strlit("llama.rope.freq_base");
    reveal_strlit("nexus.kv_quant_type");
    reveal_strlit("nexus.turboquant");
    let m1 = named_metadata(name);
    assert(entry(m1, k) is None);
    if config is Some {
        assert(entry(with_config(m1, config->0), k) is None);
    }
}

/// What a vocabulary puts into metadata.
proof fn lemma_vocabulary_entries(m: Entries, tokenizer: JsonTree, model: JsonTree)
    ensures
        ({
            let r = with_vocabulary(m, tokenizer, model);
            let table = token_table(tokenizer, model);
            &&& entry(r, "tokenizer.ggml.tokens"@) == if table.tokens.len() > 0 {
                Some(ValueView::StringVec(table.tokens))
            } else {
                entry(m, "tokenizer.ggml.tokens"@)
            }
            &&& entry(r, "tokenizer.ggml.merges"@) == match model.list_of("merges"@) {
                Some(items) => if merge_lines(items).len() > 0 {
                    Some(ValueView::StringVec(merge_lines(items)))
                } else {
                    entry(m, "tokenizer.ggml.merges"@)
                },
                None => entry(m, "tokenizer.ggml.merges"@),
            }
            &&& entry(r, "tokenizer.ggml.unknown_token_id"@) == match known_token(
                table.ids,
                model.str_of("unk_token"@),
            ) {
                Some(id) => Some(ValueView::U32(id)),
                None => entry(m, "tokenizer.ggml.unknown_token_id"@),
            }
            &&& forall|k: Seq<char>|
                k != "tokenizer.ggml.model"@ && k != "tokenizer.ggml.tokens"@ && k
                    != "tokenizer.ggml.merges"@ && k != "tokenizer.ggml.unknown_token_id"@
                    ==> #[trigger] entry(r, k) == entry(m, k)
        }),
{
    lemma_keys();
}

/// What a description of behavior puts into metadata.
proof fn lemma_behavior_entries(m: Entries, tokenizer: JsonTree)
    ensures
        ({
            let r = with_behavior(m, tokenizer);
            let d = described_behavior(tokenizer, None, Seq::empty());
            let t = Some(ValueView::Bool(true));
            let lower = "nexus.tokenizer.normalizer.lowercase"@;
            let strip = "nexus.tokenizer.normalizer.strip_accents"@;
            let level = "nexus.tokenizer.pre_tokenizer.byte_level"@;
            let prefix = "nexus.tokenizer.pre_tokenizer.add_prefix_space"@;
            let marker = "nexus.tokenizer.space_marker"@;
            &&& entry(r, lower) == if d.lowercase { t } else { entry(m, lower) }
            &&& entry(r, strip) == if d.strip_accents { t } else { entry(m, strip) }
            &&& entry(r, level) == if d.byte_level { t } else { entry(m, level) }
            &&& entry(r, prefix) == if d.add_prefix_space { t } else { entry(m, prefix) }
            &&& entry(r, marker) == if d.byte_level {
                Some(ValueView::String("\u{120}"@))
            } else {
                entry(m, marker)
            }
            &&& forall|k: Seq<char>|
                k != lower && k != strip && k != level && k != prefix && k != marker && k
                    != "nexus.tokenizer.decoder.byte_level"@ ==> #[trigger] entry(r, k) == entry(
                    m,
                    k,
                )
        }),
{
    lemma_keys();
}

/// An entry, or else the special token that a configuration asks for.
spec fn filled(
    e: Option<ValueView>,
    config: JsonTree,
    ids: Map<Seq<char>, u32>,
    name: Seq<char>,
    number: Seq<char>,
) -> Option<ValueView> {
    if e is Some {
        e
    } else {
        match known_token(ids, special_token(config, name)) {
            Some(id) => Some(ValueView::U32(id)),
            None => match config.i64_of(number) {
                Some(n) => Some(ValueView::I32(n as i32)),
                None => None,
            },
        }
    }
}

/// What a tokenizer configuration puts into metadata.
proof fn lemma_config_entries(m: Entries, config: JsonTree, ids: Map<Seq<char>, u32>)
    ensures
        ({
            let r = with_tokenizer_config(m, config, ids);
            let bos = "tokenizer.ggml.bos_token_id"@;
            let eos = "tokenizer.ggml.eos_token_id"@;
            let unk = "tokenizer.ggml.unknown_token_id"@;
            let sep = "tokenizer.ggml.separator_token_id"@;
            let pad = "tokenizer.ggml.padding_token_id"@;
            let prefix = "nexus.tokenizer.pre_tokenizer.add_prefix_space"@;
            let template = "tokenizer.chat_template"@;
            &&& entry(r, bos) == filled(entry(m, bos), config, ids, "bos_token"@, "bos_token_id"@)
            &&& entry(r, eos) == filled(entry(m, eos), config, ids, "eos_token"@, "eos_token_id"@)
            &&& entry(r, unk) == filled(entry(m, unk), config, ids, "unk_token"@, "unk_token_id"@)
            &&& entry(r, sep) == filled(entry(m, sep), config, ids, "sep_token"@, "sep_token_id"@)
            &&& entry(r, pad) == filled(entry(m, pad), config, ids, "pad_token"@, "pad_token_id"@)
            &&& entry(r, prefix) == if config.is_set("add_prefix_space"@) {
                Some(ValueView::Bool(true))
            } else {
                entry(m, prefix)
            }
            &&& entry(r, template) == match config.str_of("chat_template"@) {
                Some(t) => Some(ValueView::String(t)),
                None => entry(m, template),
            }
            &&& forall|k: Seq<char>|
                k != bos && k != eos && k != unk && k != sep && k != pad && k != prefix && k
                    != template ==> #[trigger] entry(r, k) == entry(m, k)
        }),
{
    lemma_keys();
}

/// Metadata that says nothing of a tokenizer describes the given one once it is added.
proof fn lemma_described(m0: Entries, tree: JsonTree, model: JsonTree, config: Option<JsonTree>)
    requires
        tree.get("model"@) == Some(model),
        forall|k: Seq<char>| is_tokenizer_key(k) ==> #[trigger] entry(m0, k) is None,
    ensures
        ({
            let m = with_behavior(with_vocabulary(m0, tree, model), tree);
            stored_tokenizer(
                match config {
                    Some(c) => with_tokenizer_config(m, c, token_table(tree, model).ids),
                    None => m,
                },
            ) == described_tokenizer(tree, config)
        }),
{
    lemma_keys();
    lemma_looked_up();
    let table = token_table(tree, model);
    let m1 = with_vocabulary(m0, tree, model);
    lemma_vocabulary_entries(m0, tree, model);
    let m2 = with_behavior(m1, tree);
    lemma_behavior_entries(m1, tree);
    let m = match config {
        Some(c) => with_tokenizer_config(m2, c, table.ids),
        None => m2,
    };
    if config is Some {
        lemma_config_entries(m2, config->0, table.ids);
    }
    assert(entry(m, "tokenizer.ggml.tokens"@) == entry(m1, "tokenizer.ggml.tokens"@));
    assert(entry(m, "tokenizer.ggml.merges"@) == entry(m1, "tokenizer.ggml.merges"@));
    if table.tokens.len() > 0 {
        let d = described_tokenizer(tree, config)->0;
        assert(stored_template(m) == d.chat_template) by {
            assert(entry(m, "tokenizer.ggml.chat_template"@) is None);
            assert(entry(m2, "tokenizer.chat_template"@) is None);
        }
        assert(stored_behavior(m, table.tokens) == d.behavior) by {
            assert(entry(m, "nexus.tokenizer.normalizer.collapse_whitespace"@) is None);
            assert(entry(m, "nexus.tokenizer.normalizer.lowercase"@) == entry(
                m2,
                "nexus.tokenizer.normalizer.lowercase"@,
            ));
            assert(entry(m, "nexus.tokenizer.normalizer.strip_accents"@) == entry(
                m2,
                "nexus.tokenizer.normalizer.strip_accents"@,
            ));
            assert(entry(m, "nexus.tokenizer.pre_tokenizer.byte_level"@) == entry(
                m2,
                "nexus.tokenizer.pre_tokenizer.byte_level"@,
            ));
            assert(entry(m, "nexus.tokenizer.space_marker"@) == entry(
                m2,
                "nexus.tokenizer.space_marker"@,
            ));
        }
        assert(stored_special(m) == d.special_tokens) by {
            assert(entry(m, "tokenizer.ggml.seperator_token_id"@) is None);
            assert(entry(m2, "tokenizer.ggml.separator_token_id"@) is None);
            assert(entry(m2, "tokenizer.ggml.bos_token_id"@) is None);
            assert(entry(m2, "tokenizer.ggml.eos_token_id"@) is None);
            assert(entry(m2, "tokenizer.ggml.padding_token_id"@) is None);
            assert(entry(m2, "tokenizer.ggml.unknown_token_id"@) == entry(
                m1,
                "tokenizer.ggml.unknown_token_id"@,
            ));
        }
        assert(stored_tokenizer(m) =~= Some(d));
    }
}

/// The tokenizer of a converted model is the one that the files of its tokenizer
/// describe: the tokens, the merges, the special tokens, the chat template and what is
/// done to text. Without such files there is none.
pub proof fn converted_tokenizer_is_used(
    config: Option<MlxModelConfig>,
    name: Option<Seq<char>>,
    turboquant: bool,
    tokenizer: Option<Seq<u8>>,
    tokenizer_config: Option<Seq<u8>>,
)
    ensures
        built_metadata(config, name, turboquant, tokenizer, tokenizer_config) matches Ok(m)
            ==> stored_tokenizer(m) == match tokenizer {
            Some(bytes) => described_tokenizer(
                parsed_json(bytes)->0,
                match tokenizer_config {
                    Some(config_bytes) => parsed_json(config_bytes),
                    None => None,
                },
            ),
            None => None,
        },
{
    lemma_keys();
    lemma_looked_up();
    let m0 = model_metadata(config, name, turboquant);
    assert forall|k: Seq<char>| is_tokenizer_key(k) implies #[trigger] entry(m0, k) is None by {
        lemma_model_apart(config, name, turboquant, k);
    }
    assert(entry(m0, "tokenizer.ggml.tokens"@) is None);
    if tokenizer is Some && parsed_json(tokenizer->0) is Some {
        let tree = parsed_json(tokenizer->0)->0;
        let model = tree.get("model"@)->0;
        if tree.get("model"@) is Some {
            lemma_described(m0, tree, model, None);
            if tokenizer_config is Some {
                lemma_described(m0, tree, model, parsed_json(tokenizer_config->0));
            }
        }
    }
}

} // verus!
