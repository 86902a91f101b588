//! What a conversion keeps of a model.

use crate::convert::components::{any_has_type, component_is, has_type, parts_of};
use crate::convert::conversion::{added, first_empty, is_empty, validated};
use crate::convert::formats::QuantFormat;
use crate::convert::metadata::{
    model_metadata, special_token, with_token, with_token_id, with_vocabulary,
};
use crate::convert::names::{canonical, lemma_first_dot, short_suffix, starts_with};
use crate::convert::tokens::{
    merge_line, merge_lines, token_table, with_added, with_vocab, TokenTable,
};
use crate::convert::writer::ConvertedView;
use crate::engine::load::format_of;
use crate::gguf::file_laws::numbers_stand_for_data_types;
use crate::gguf::metadata::{shape_product, MetadataView, TensorView};
use crate::gguf::payload::coding_of;
use crate::gguf::types::data_type_with;
use crate::gguf::value::ValueView;
use crate::json::JsonTree;
use crate::mlx::config::MlxModelConfig;
use crate::mlx::header::elements;
use vstd::prelude::*;

verus! {

/// A name that is neither one of the three of a whole model nor that of a layer stays as
/// it is.
pub proof fn other_names_stay(name: Seq<char>)
    requires
        name != "model.embed_tokens.weight"@,
        name != "model.norm.weight"@,
        name != "lm_head.weight"@,
        !starts_with(name, "model.layers."@),
    ensures
        canonical(name) == name,
{
}

/// The tensors of a whole model get the names under which inference looks for them.
pub proof fn model_names_are_found()
    ensures
        canonical("model.embed_tokens.weight"@) == "token_embd.weight"@,
        canonical("model.norm.weight"@) == "output_norm.weight"@,
        canonical("lm_head.weight"@) == "output.weight"@,
{
    reveal_strlit("model.embed_tokens.weight");
    reveal_strlit("model.norm.weight");
    reveal_strlit("lm_head.weight");
    assert("model.embed_tokens.weight"@[0] == 'm' && "lm_head.weight"@[0] == 'l');
    assert("model.embed_tokens.weight"@.len() == 25 && "model.norm.weight"@.len() == 17);
}

/// A layer's tensor is named after its layer, whatever stands behind the number.
pub proof fn layer_names_keep_their_layer(layer: Seq<char>, suffix: Seq<char>)
    requires
        forall|i: int| 0 <= i < layer.len() ==> layer[i] != '.',
    ensures
        canonical("model.layers."@ + layer + seq!['.'] + suffix) == "blk."@ + layer + seq!['.']
            + short_suffix(suffix),
{
    let front = "model.layers."@;
    let name = front + layer + seq!['.'] + suffix;
    reveal_strlit("model.layers.");
    reveal_strlit(".");
    reveal_strlit("model.embed_tokens.weight");
    reveal_strlit("model.norm.weight");
    reveal_strlit("lm_head.weight");
    assert("."@ =~= seq!['.']);
    assert(name[0] == 'm' && name[6] == 'l');
    assert("model.embed_tokens.weight"@[6] == 'e' && "model.norm.weight"@[6] == 'n'
        && "lm_head.weight"@[0] == 'l');
    assert(name.take(front.len() as int) =~= front);
    let rest = name.skip(front.len() as int);
    assert(rest =~= layer + seq!['.'] + suffix);
    lemma_first_dot(rest, 0, layer.len() as int);
    assert(rest.take(layer.len() as int) =~= layer);
    assert(rest.skip(layer.len() as int + 1) =~= suffix);
}

/// The number that a tensor is written with is read back as its format, and tensors of
/// that type can be decoded.
pub proof fn written_formats_are_read(f: QuantFormat)
    ensures
        data_type_with(f.spec_type()) matches Some(t) && format_of(t) == Some(f.spec_quant())
            && coding_of(t) is Some,
{
    numbers_stand_for_data_types();
}

/// A tensor is added unless its values are not as many as its shape says, or are not as
/// many once they are read back, or its new name is taken. It comes behind the others and
/// is not changed.
pub proof fn sound_tensors_are_added(
    ts: Seq<ConvertedView>,
    end: u64,
    name: Seq<char>,
    shape: Seq<usize>,
    loaded: usize,
    data: Seq<u8>,
    reconstructed: usize,
    gguf_type: u32,
)
    ensures
        added(ts, end, name, shape, loaded, data, reconstructed, gguf_type) is Ok <==> {
            &&& loaded == elements(shape)
            &&& reconstructed == loaded
            &&& forall|i: int| 0 <= i < ts.len() ==> (#[trigger] ts[i]).name != canonical(name)
        },
        added(ts, end, name, shape, loaded, data, reconstructed, gguf_type) matches Ok(all) ==> {
            &&& all.len() == ts.len() + 1
            &&& all.take(ts.len() as int) == ts
            &&& all.last().name == canonical(name)
            &&& all.last().shape == shape
            &&& all.last().data == data
            &&& all.last().gguf_type == gguf_type
            &&& all.last().offset == end
        },
{
    if added(ts, end, name, shape, loaded, data, reconstructed, gguf_type) is Ok {
        let all = added(ts, end, name, shape, loaded, data, reconstructed, gguf_type)->Ok_0;
        assert(all.take(ts.len() as int) =~= ts);
    }
}

proof fn lemma_first_empty(ts: Seq<TensorView>, i: int)
    requires
        0 <= i,
    ensures
        match first_empty(ts, i) {
            Some(k) => i <= k < ts.len() && is_empty(ts[k]) && forall|j: int|
                i <= j < k ==> !is_empty(#[trigger] ts[j]),
            None => forall|j: int| i <= j < ts.len() ==> !is_empty(#[trigger] ts[j]),
        },
    decreases ts.len() - i,
{
    if i < ts.len() && !is_empty(ts[i]) {
        lemma_first_empty(ts, i + 1);
    }
}

/// A written file is accepted exactly when it has the version that is written, describes as
/// many tensors as were converted, and every one of them has elements.
pub proof fn sound_files_are_accepted(m: MetadataView, expected: usize)
    requires
        m.tensor_count <= usize::MAX,
    ensures
        validated(m, expected) is Ok <==> {
            &&& m.version == 3
            &&& m.tensors.len() == expected
            &&& m.tensor_count == expected
            &&& forall|i: int|
                0 <= i < m.tensors.len() ==> (#[trigger] m.tensors[i]).shape.len() > 0
                    && shape_product(m.tensors[i].shape) > 0
        },
{
    lemma_first_empty(m.tensors, 0);
    if validated(m, expected) is Ok {
        assert forall|i: int| 0 <= i < m.tensors.len() implies (#[trigger] m.tensors[i]).shape.len()
            > 0 && shape_product(m.tensors[i].shape) > 0 by {
            assert(!is_empty(m.tensors[i]));
        }
    }
}

/// A component is of a type if it says so, or if one of its parts is of that type.
pub proof fn parts_count_as_components(c: JsonTree, items: Seq<JsonTree>, expected: Seq<char>)
    requires
        parts_of(c) == Some(JsonTree::List(items)),
    ensures
        has_type(c, expected) <==> c.str_of("type"@) == Some(expected) || exists|i: int|
            0 <= i < items.len() && has_type(#[trigger] items[i], expected),
        component_is(Some(c), expected) == has_type(c, expected),
        !component_is(None, expected),
{
    lemma_any(items, expected, 0);
}

proof fn lemma_any(items: Seq<JsonTree>, expected: Seq<char>, i: int)
    requires
        0 <= i,
    ensures
        any_has_type(items, expected, i) <==> exists|j: int|
            i <= j < items.len() && has_type(#[trigger] items[j], expected),
    decreases items.len() - i,
{
    if i < items.len() {
        lemma_any(items, expected, i + 1);
        if has_type(items[i], expected) {
            assert(i <= i < items.len() && has_type(items[i], expected));
        }
    }
}

/// A token that is put at a number is found there, and is found by its text. Other numbers
/// keep their tokens; numbers that are new stand for nothing.
pub proof fn tokens_are_put_at_numbers(t: TokenTable, id: usize, token: Seq<char>, k: int)
    requires
        id <= u32::MAX,
    ensures
        ({
            let r = t.put(id, token);
            &&& r.tokens.len() > id
            &&& r.tokens.len() == t.tokens.len() || r.tokens.len() == id + 1
            &&& r.tokens.len() >= t.tokens.len()
            &&& r.tokens[id as int] == token
            &&& r.ids.contains_key(token)
            &&& r.ids[token] == id
            &&& 0 <= k < t.tokens.len() && k != id ==> r.tokens[k] == t.tokens[k]
            &&& t.tokens.len() <= k < r.tokens.len() && k != id ==> r.tokens[k].len() == 0
        }),
{
}

/// The last token that a vocabulary gives a number stands there.
pub proof fn vocabularies_number_their_tokens(
    entries: Seq<(Seq<char>, JsonTree)>,
    i: int,
    t: TokenTable,
    k: int,
)
    requires
        0 <= i <= k < entries.len(),
        entries[k].1.as_u64() is Some,
        forall|j: int|
            0 <= j < entries.len() ==> ((#[trigger] entries[j]).1.as_u64() matches Some(id) ==> id
                <= usize::MAX),
        forall|j: int| k < j < entries.len() ==> (#[trigger] entries[j]).1.as_u64()
            != entries[k].1.as_u64(),
    ensures
        ({
            let id = entries[k].1.as_u64()->0;
            let r = with_vocab(entries, i, t);
            id < r.tokens.len() && r.tokens[id as int] == entries[k].0
        }),
    decreases k - i,
{
    let next = match entries[i].1.as_u64() {
        Some(id) => t.put(id as usize, entries[i].0),
        None => t,
    };
    if i < k {
        vocabularies_number_their_tokens(entries, i + 1, next, k);
    } else {
        let id = entries[k].1.as_u64()->0;
        assert(next.tokens[id as int] == entries[k].0);
        lemma_vocab_keeps(entries, i + 1, next, id as int);
    }
}

proof fn lemma_vocab_keeps(
    entries: Seq<(Seq<char>, JsonTree)>,
    i: int,
    t: TokenTable,
    id: int,
)
    requires
        0 <= i,
        0 <= id < t.tokens.len(),
        forall|j: int|
            i <= j < entries.len() ==> ((#[trigger] entries[j]).1.as_u64() matches Some(other)
                ==> other != id && other <= usize::MAX),
    ensures
        id < with_vocab(entries, i, t).tokens.len(),
        with_vocab(entries, i, t).tokens[id] == t.tokens[id],
    decreases entries.len() - i,
{
    if i < entries.len() {
        let next = match entries[i].1.as_u64() {
            Some(other) => t.put(other as usize, entries[i].0),
            None => t,
        };
        lemma_vocab_keeps(entries, i + 1, next, id);
    }
}

/// Added tokens stand at their numbers too, and replace what stood there.
pub proof fn added_tokens_are_numbered(items: Seq<JsonTree>, i: int, t: TokenTable)
    requires
        0 <= i < items.len(),
    ensures
        match (items[i].get("id"@), items[i].get("content"@)) {
            (Some(JsonTree::Number(n)), Some(JsonTree::Text(content))) => n.unsigned matches Some(
                id,
            ) ==> id <= usize::MAX ==> with_added(items, i, t) == with_added(
                items,
                i + 1,
                t.put(id as usize, content),
            ),
            _ => with_added(items, i, t) == with_added(items, i + 1, t),
        },
{
}

/// A merge is a line of two parts with a space between them, or two parts on their own.
pub proof fn merges_have_two_parts(a: Seq<char>, b: Seq<char>, items: Seq<JsonTree>, item: JsonTree)
    ensures
        merge_line(JsonTree::Text(a)) == Some(a),
        merge_line(JsonTree::List(seq![JsonTree::Text(a), JsonTree::Text(b)])) == Some(
            a + seq![' '] + b,
        ),
        merge_lines(seq![]) == Seq::<Seq<char>>::empty(),
        merge_lines(items.push(item)) == merge_lines(items) + (match merge_line(item) {
            Some(line) => seq![line],
            None => seq![],
        }),
{
    reveal_strlit(" ");
    assert(" "@ =~= seq![' ']);
    assert(items.push(item).drop_last() =~= items);
    match merge_line(item) {
        Some(line) => {
            assert(merge_lines(items).push(line) =~= merge_lines(items) + seq![line]);
        },
        None => {
            assert(merge_lines(items) + Seq::<Seq<char>>::empty() =~= merge_lines(items));
        },
    }
}

/// A special token is named by a text, or by the content of an entry.
pub proof fn special_tokens_have_texts(config: JsonTree, key: Seq<char>)
    ensures
        config.get(key) is None ==> special_token(config, key) is None,
        config.get(key) matches Some(JsonTree::Text(t)) ==> special_token(config, key) == Some(t),
        config.get(key) matches Some(v) ==> !(v is Text) ==> special_token(config, key) == (
        match v.get("content"@) {
            Some(JsonTree::Text(t)) => Some(t),
            _ => None,
        }),
{
}

/// The number of a special token is kept once it is there. Otherwise it is that of the
/// token's text, or else the one that the configuration gives.
pub proof fn special_tokens_are_numbered(
    m: Map<Seq<char>, ValueView>,
    config: JsonTree,
    ids: Map<Seq<char>, u32>,
    name: Seq<char>,
    number: Seq<char>,
    key: Seq<char>,
    k: Seq<char>,
)
    ensures
        ({
            let a = with_token(m, config, ids, name, key);
            let b = with_token_id(m, config, number, key);
            &&& k != key ==> (a.contains_key(k) <==> m.contains_key(k)) && a[k] == m[k]
            &&& k != key ==> (b.contains_key(k) <==> m.contains_key(k)) && b[k] == m[k]
            &&& m.contains_key(key) ==> a == m && b == m
            &&& !m.contains_key(key) ==> {
                &&& a.contains_key(key) <==> special_token(config, name) is Some
                    && ids.contains_key(special_token(config, name)->0)
                &&& a.contains_key(key) ==> a[key] == ValueView::U32(
                    ids[special_token(config, name)->0],
                )
                &&& b.contains_key(key) <==> config.i64_of(number) is Some
                &&& b.contains_key(key) && i32::MIN <= config.i64_of(number)->0 <= i32::MAX ==> (
                b[key] matches ValueView::I32(v) && v == config.i64_of(number)->0)
            }
        }),
{
}

/// A model has the name that it is given, and the architecture that its configuration
/// states; it says that its cache is quantized where that is wanted, and only there.
pub proof fn models_say_what_they_are(
    config: Option<MlxModelConfig>,
    name: Option<Seq<char>>,
    turboquant: bool,
)
    ensures
        ({
            let m = model_metadata(config, name, turboquant);
            &&& m.contains_key("general.name"@)
            &&& name matches Some(n) ==> m["general.name"@] == ValueView::String(n)
            &&& m.contains_key("general.architecture"@)
            &&& config is None ==> m["general.architecture"@] == ValueView::String("llama"@)
            &&& config matches Some(c) ==> match c.model_type {
                Some(t) => m["general.architecture"@] == ValueView::String(t@),
                None => m["general.architecture"@] == ValueView::String("llama"@),
            }
            &&& m.contains_key("nexus.turboquant"@) <==> turboquant
            &&& m.contains_key("nexus.kv_quant_type"@) <==> turboquant
            &&& turboquant ==> m["nexus.turboquant"@] == ValueView::Bool(true)
            &&& m["general.alignment"@] == ValueView::U32(32)
        }),
{
    reveal_strlit("general.name");
    reveal_strlit("general.architecture");
    reveal_strlit("general.alignment");
    reveal_strlit("nexus.turboquant");
    reveal_strlit("nexus.kv_quant_type");
    reveal_strlit("llama.embedding_length");
    reveal_strlit("llama.block_count");
    reveal_strlit("llama.attention.head_count");
    reveal_strlit("llama.attention.head_count_kv");
    reveal_strlit("llama.feed_forward_length");
    reveal_strlit("llama.vocab_size");
    reveal_strlit("llama.context_length");
    reveal_strlit("llama.attention.layer_norm_rms_epsilon");
    reveal_strlit("llama.rope.freq_base");
    assert("general.name"@[0] == 'g' && "general.architecture"@[0] == 'g'
        && "general.alignment"@[0] == 'g');
    assert("general.name"@.len() == 12 && "general.architecture"@.len() == 20
        && "general.alignment"@.len() == 17);
    assert("nexus.turboquant"@[0] == 'n' && "nexus.kv_quant_type"@[0] == 'n');
    assert("nexus.turboquant"@.len() == 16 && "nexus.kv_quant_type"@.len() == 19);
    assert("llama.embedding_length"@[0] == 'l' && "llama.block_count"@[0] == 'l'
        && "llama.attention.head_count"@[0] == 'l' && "llama.attention.head_count_kv"@[0] == 'l'
        && "llama.feed_forward_length"@[0] == 'l' && "llama.vocab_size"@[0] == 'l'
        && "llama.context_length"@[0] == 'l' && "llama.attention.layer_norm_rms_epsilon"@[0] == 'l'
        && "llama.rope.freq_base"@[0] == 'l');
}

/// A list of tokens or of merges is stored as it is, and only where it holds something. So
/// is the number of the token for what is unknown, where it is known.
pub proof fn vocabularies_are_stored(
    m: Map<Seq<char>, ValueView>,
    tokenizer: JsonTree,
    model: JsonTree,
)
    requires
        !m.contains_key("tokenizer.ggml.tokens"@),
        !m.contains_key("tokenizer.ggml.merges"@),
        !m.contains_key("tokenizer.ggml.unknown_token_id"@),
    ensures
        ({
            let r = with_vocabulary(m, tokenizer, model);
            let t = token_table(tokenizer, model);
            let tokens = "tokenizer.ggml.tokens"@;
            let merges = "tokenizer.ggml.merges"@;
            let unknown = "tokenizer.ggml.unknown_token_id"@;
            &&& r.contains_key(tokens) <==> t.tokens.len() > 0
            &&& r.contains_key(tokens) ==> r[tokens] == ValueView::StringVec(t.tokens)
            &&& r.contains_key(merges) <==> model.list_of("merges"@) is Some && merge_lines(
                model.list_of("merges"@)->0,
            ).len() > 0
            &&& r.contains_key(merges) ==> r[merges] == ValueView::StringVec(
                merge_lines(model.list_of("merges"@)->0),
            )
            &&& r.contains_key(unknown) <==> model.str_of("unk_token"@) is Some
                && t.ids.contains_key(model.str_of("unk_token"@)->0)
            &&& r.contains_key(unknown) ==> r[unknown] == ValueView::U32(
                t.ids[model.str_of("unk_token"@)->0],
            )
        }),
{
    reveal_strlit("tokenizer.ggml.tokens");
    reveal_strlit("tokenizer.ggml.merges");
    reveal_strlit("tokenizer.ggml.unknown_token_id");
    reveal_strlit("tokenizer.ggml.model");
    assert("tokenizer.ggml.tokens"@.len() == 21 && "tokenizer.ggml.merges"@.len() == 21);
    assert("tokenizer.ggml.tokens"@[15] == 't' && "tokenizer.ggml.merges"@[15] == 'm');
    assert("tokenizer.ggml.unknown_token_id"@.len() == 31 && "tokenizer.ggml.model"@.len() == 20);
}

/// A part of a layer that has no short name keeps its own.
pub proof fn other_parts_keep_their_names(suffix: Seq<char>)
    requires
        suffix != "input_layernorm.weight"@,
        suffix != "self_attn.q_proj.weight"@,
        suffix != "self_attn.k_proj.weight"@,
        suffix != "self_attn.v_proj.weight"@,
        suffix != "self_attn.o_proj.weight"@,
        suffix != "post_attention_layernorm.weight"@,
        suffix != "mlp.gate_proj.weight"@,
        suffix != "mlp.up_proj.weight"@,
        suffix != "mlp.down_proj.weight"@,
    ensures
        short_suffix(suffix) == suffix,
{
}

/// A component's parts stand in its list of normalizers, of pre-tokenizers or of decoders:
/// the first of them that is there.
pub proof fn parts_stand_in_lists(c: JsonTree, items: Seq<JsonTree>, expected: Seq<char>, i: int)
    requires
        0 <= i < items.len(),
        items[i].str_of("type"@) == Some(expected),
        c.get("normalizers"@) == Some(JsonTree::List(items)) || (c.get("normalizers"@) is None
            && c.get("pretokenizers"@) == Some(JsonTree::List(items))) || (c.get("normalizers"@) is None
            && c.get("pretokenizers"@) is None && c.get("decoders"@) == Some(
            JsonTree::List(items),
        )),
    ensures
        has_type(c, expected),
{
    assert(parts_of(c) == Some(JsonTree::List(items)));
    parts_count_as_components(c, items, expected);
    assert(has_type(items[i], expected));
}

} // verus!
