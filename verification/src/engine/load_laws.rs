//! What is loaded of a model.

use crate::engine::arch::ModelArch;
use crate::engine::kv::KvCache;
use crate::engine::load::{
    cache_bytes, choice_for, choices_for, detected_format, format_of, kv_bytes_per_dim, reserved,
    skipped_among, stated_arch, stated_dims, ModelDims, TensorChoice,
};
use crate::engine::tensors::{
    attention_parts, embedding_start, feed_forward_parts, first_known, first_missing, joined,
    known_name, layer_names, missing_text, serving_head,
};
use crate::gguf::metadata::{shape_product, TensorView};
use crate::gguf::payload::coding_of;
use crate::gguf::types::GgufDataType;
use crate::gguf::value::ValueView;
use crate::memory::block::MemRegion;
use crate::memory::model::PoolView;
use crate::quant::formats::{KvQuantType, QuantFormat};
use crate::text::decimal;
use vstd::prelude::*;

verus! {

/// A tensor is loaded exactly where it has elements, no more than ten million of them,
/// and a payload of its type can be decoded. One that has none or too many is left out for
/// its size, any other for its type.
pub proof fn tensors_that_decode_are_loaded(t: TensorView)
    ensures
        choice_for(t) == TensorChoice::Load <==> 0 < shape_product(t.shape) <= 10_000_000
            && coding_of(t.data_type) is Some,
        choice_for(t) == TensorChoice::SkipSize <==> shape_product(t.shape) == 0 || shape_product(
            t.shape,
        ) > 10_000_000,
{
}

/// A tensor has as many elements as the product of its dimensions, in any order of them.
pub proof fn elements_multiply(a: Seq<u64>, b: Seq<u64>)
    ensures
        shape_product(a + b) == shape_product(a) * shape_product(b),
    decreases b.len(),
{
    if b.len() == 0 {
        assert(a + b =~= a);
        assert(shape_product(b) == 1);
        assert(shape_product(a) * 1 == shape_product(a)) by (nonlinear_arith);
    } else {
        elements_multiply(a, b.drop_last());
        assert((a + b).drop_last() =~= a + b.drop_last());
        let (x, y, z) = (
            shape_product(a),
            shape_product(b.drop_last()),
            b.last() as usize as nat,
        );
        assert((a + b).last() == b.last());
        assert((x * y) * z == x * (y * z)) by (nonlinear_arith);
    }
}

/// A tensor of one dimension has that many elements, and one without dimensions has one.
pub proof fn single_dimension_counts(n: u64)
    requires
        n <= usize::MAX,
    ensures
        shape_product(seq![n]) == n,
        shape_product(Seq::<u64>::empty()) == 1,
{
    reveal_with_fuel(shape_product, 2);
    assert(seq![n].drop_last() =~= Seq::<u64>::empty());
    let one = shape_product(seq![n].drop_last());
    assert(one == 1 && one * n == n) by (nonlinear_arith)
        requires
            one == 1,
    ;
    assert(seq![n].last() == n);
}

proof fn lemma_skipped(choices: Seq<TensorChoice>)
    ensures
        skipped_among(choices) == choices.filter(|c: TensorChoice| !(c is Load)).len(),
    decreases choices.len(),
{
    reveal(Seq::filter);
    if choices.len() > 0 {
        lemma_skipped(choices.drop_last());
    }
}

/// The tensors that are skipped are those that are not loaded.
pub proof fn skipped_are_not_loaded(choices: Seq<TensorChoice>)
    ensures
        skipped_among(choices) == choices.filter(|c: TensorChoice| !(c is Load)).len(),
{
    lemma_skipped(choices);
}

/// Metadata has a size under a key, in one of the integer types.
pub open spec fn size_under(m: Map<Seq<char>, ValueView>, key: Seq<char>, n: usize) -> bool {
    &&& m.contains_key(key)
    &&& (n <= u32::MAX && m[key] == ValueView::U32(n as u32)) || m[key] == ValueView::U64(
        n as u64,
    ) || (n <= i32::MAX && m[key] == ValueView::I32(n as i32)) || (n <= i64::MAX && m[key]
        == ValueView::I64(n as i64))
}

/// The sizes of a model are those that metadata has.
pub proof fn sizes_are_those_stored(m: Map<Seq<char>, ValueView>, n: usize)
    ensures
        size_under(m, "llama.block_count"@, n) ==> stated_dims(m).num_layers == n,
        size_under(m, "llama.embedding_length"@, n) ==> stated_dims(m).hidden_size == n,
        size_under(m, "llama.feed_forward_length"@, n) ==> stated_dims(m).ff_dim == n,
        size_under(m, "llama.attention.head_count"@, n) ==> stated_dims(m).num_heads == n,
        size_under(m, "llama.attention.head_count_kv"@, n) ==> stated_dims(m).num_kv_heads == n,
        size_under(m, "llama.vocab_size"@, n) ==> stated_dims(m).vocab_size == n,
        size_under(m, "llama.context_length"@, n) ==> stated_dims(m).context_length == n,
{
}

/// What metadata does not have is that of a common model; there are then as many heads for
/// keys and values as for queries.
pub proof fn missing_sizes_are_common(m: Map<Seq<char>, ValueView>)
    ensures
        !m.contains_key("llama.block_count"@) ==> stated_dims(m).num_layers == 32,
        !m.contains_key("llama.embedding_length"@) ==> stated_dims(m).hidden_size == 4096,
        !m.contains_key("llama.feed_forward_length"@) ==> stated_dims(m).ff_dim == 11008,
        !m.contains_key("llama.attention.head_count"@) ==> stated_dims(m).num_heads == 32,
        !m.contains_key("llama.attention.head_count_kv"@) ==> stated_dims(m).num_kv_heads
            == stated_dims(m).num_heads,
        !m.contains_key("llama.vocab_size"@) ==> stated_dims(m).vocab_size == 32000,
        !m.contains_key("llama.context_length"@) ==> stated_dims(m).context_length == 4096,
        !m.contains_key("llama.rope.freq_base"@) ==> stated_dims(m).rope_freq_base == 0x4974_2400,
{
}

/// The base of the rotary frequencies and the architecture are those that metadata has.
pub proof fn base_and_architecture_are_those_stored(
    m: Map<Seq<char>, ValueView>,
    base: u32,
    name: Seq<char>,
)
    ensures
        m.contains_key("llama.rope.freq_base"@) && m["llama.rope.freq_base"@] == ValueView::F32(
            base,
        ) ==> stated_dims(m).rope_freq_base == base,
        m.contains_key("general.architecture"@) && m["general.architecture"@]
            == ValueView::String(name) ==> stated_arch(m) == name,
        !m.contains_key("general.architecture"@) ==> stated_arch(m) == "unknown"@,
{
}

/// The heads share a model's width, and a cached vector has that of all key-value heads.
pub proof fn heads_share_width(d: ModelDims)
    requires
        d.num_heads > 0,
    ensures
        d.num_heads * d.head_dim() <= d.hidden_size,
        d.hidden_size < d.num_heads * (d.head_dim() + 1),
        d.num_kv_heads == d.num_heads && d.hidden_size as int % d.num_heads as int == 0
            ==> d.kv_dim() == d.hidden_size,
{
    let (h, n, q) = (d.hidden_size as int, d.num_heads as int, d.hidden_size as int / d.num_heads as int);
    vstd::arithmetic::div_mod::lemma_fundamental_div_mod(h, n);
    vstd::arithmetic::div_mod::lemma_mod_bound(h, n);
    assert(n * (q + 1) == n * q + n) by (nonlinear_arith);
}

/// The bytes that are counted for the cache of a layer hold its keys and values: two whole
/// numbers for each element, or the bits of a key and a value, in whole bytes, and their
/// range.
pub proof fn cache_bytes_hold_elements(d: ModelDims, kv_quant: KvQuantType)
    ensures
        d.kv_layer_bytes(KvQuantType::Unquantized) == d.context_length * d.kv_dim() * (4 + 4),
        !(kv_quant is Unquantized) ==> {
            let bytes = kv_bytes_per_dim(kv_quant) - 8;
            let bits = kv_quant.spec_key_bits() + kv_quant.spec_val_bits();
            &&& 8 * bytes >= bits
            &&& 8 * (bytes - 1) < bits
            &&& d.kv_layer_bytes(kv_quant) == d.context_length * d.kv_dim() * (bytes + 8)
        },
{
}

/// The tensor type that a weight format is named after.
pub open spec fn named_alike(f: QuantFormat, t: GgufDataType) -> bool {
    f.spec_name() == t.spec_name()
}

/// A tensor stands for the weight format of its own name; one of single precision stands
/// for that of 32 bits, and the two short forms of floating-point numbers for that of 16.
pub proof fn formats_have_names_of_types(t: GgufDataType)
    ensures
        format_of(t) matches Some(f) ==> named_alike(f, t) || (t is F32 && f is FP32) || (f is FP16
            && (t is F16 || t is BF16)),
        t is F32 || t is F16 || t is BF16 ==> format_of(t) is Some,
        forall|f: QuantFormat| #[trigger] named_alike(f, t) ==> format_of(t) == Some(f),
{
    lemma_type_names(t);
}

proof fn lemma_type_names(t: GgufDataType)
    ensures
        forall|f: QuantFormat| #[trigger] named_alike(f, t) ==> format_of(t) == Some(f),
{
    reveal_strlit("Q2_K");
    reveal_strlit("Q3_K");
    reveal_strlit("Q4_0");
    reveal_strlit("Q4_1");
    reveal_strlit("Q4_K");
    reveal_strlit("Q5_0");
    reveal_strlit("Q5_1");
    reveal_strlit("Q5_K");
    reveal_strlit("Q6_K");
    reveal_strlit("Q8_0");
    reveal_strlit("Q8_1");
    reveal_strlit("Q8_K");
    reveal_strlit("Q9_K");
    reveal_strlit("Q2_S");
    reveal_strlit("MXFP4");
    reveal_strlit("FP16");
    reveal_strlit("FP32");
    reveal_strlit("TF32");
    reveal_strlit("BF16");
    reveal_strlit("I8x4");
    reveal_strlit("I8x8");
    reveal_strlit("F32");
    reveal_strlit("F16");
    reveal_strlit("I8");
    reveal_strlit("I16");
    reveal_strlit("I32");
    reveal_strlit("I64");
    reveal_strlit("F64");
    reveal_strlit("IQ2_S");
    reveal_strlit("IQ1_S");
    reveal_strlit("IQ1_N");
    reveal_strlit("IQ3_S");
    reveal_strlit("IQ2_XS");
    reveal_strlit("IQ4_NL");
    reveal_strlit("IQ4_XS");
    reveal_strlit("IQ2_XXS");
    reveal_strlit("IQ3_XXS");
    reveal_strlit("F4E2M1");
    reveal_strlit("F8E4M3");
    reveal_strlit("F8E5M2");
    reveal_strlit("F4E2M1x2");
    reveal_strlit("F8E4M3x2");
    reveal_strlit("F8E5M2x2");
    reveal_strlit("Q4_0_4x4");
    reveal_strlit("Q4_0_8x8");
    let s = t.spec_name();
    assert forall|f: QuantFormat| #[trigger] named_alike(f, t) implies format_of(t) == Some(f) by {
        let r = f.spec_name();
        assert(s.len() == r.len());
        assert(s[0] == r[0] && s[1] == r[1] && s[2] == r[2] && s[3] == r[3]);
    }
}

/// The format of the weights is that of the first tensor that stands for one.
pub proof fn first_format_counts(tensors: Seq<TensorView>, i: int)
    requires
        0 <= i,
    ensures
        match detected_format(tensors, i) {
            Some(f) => exists|k: int|
                i <= k < tensors.len() && format_of((#[trigger] tensors[k]).data_type) == Some(f)
                    && forall|j: int|
                    i <= j < k ==> format_of((#[trigger] tensors[j]).data_type) is None,
            None => forall|j: int|
                i <= j < tensors.len() ==> format_of((#[trigger] tensors[j]).data_type) is None,
        },
    decreases tensors.len() - i,
{
    if i < tensors.len() {
        if format_of(tensors[i].data_type) is None {
            first_format_counts(tensors, i + 1);
            if detected_format(tensors, i) is Some {
                let f = detected_format(tensors, i)->0;
                let k = choose|k: int|
                    i + 1 <= k < tensors.len() && format_of((#[trigger] tensors[k]).data_type)
                        == Some(f) && forall|j: int|
                        i + 1 <= j < k ==> format_of((#[trigger] tensors[j]).data_type) is None;
                assert(format_of(tensors[k].data_type) == Some(f));
            }
        } else {
            assert(format_of(tensors[i].data_type) is Some);
        }
    }
}

/// Query heads are shared out evenly among the key-value heads, in their order: each serves
/// as many neighbours.
pub proof fn heads_are_shared_out(q: usize, group: usize, kv_heads: usize)
    requires
        group > 0,
        kv_heads > 0,
        group * kv_heads <= usize::MAX,
        q < group * kv_heads,
    ensures
        ({
            let h = serving_head(q, (group * kv_heads) as usize, kv_heads);
            &&& h < kv_heads
            &&& h * group <= q < (h + 1) * group
        }),
{
    let all = (group * kv_heads) as int;
    assert(all / kv_heads as int == group) by (nonlinear_arith)
        requires
            all == group * kv_heads,
            kv_heads > 0,
    ;
    let h = q as int / group as int;
    vstd::arithmetic::div_mod::lemma_fundamental_div_mod(q as int, group as int);
    vstd::arithmetic::div_mod::lemma_mod_bound(q as int, group as int);
    assert(h * group == group * h && (h + 1) * group == group * h + group) by (nonlinear_arith);
    assert(h < kv_heads) by (nonlinear_arith)
        requires
            q < group * kv_heads,
            q >= group * h,
            group > 0,
    ;
}

/// The embedding of a token is its row; tokens past the last row start over.
pub proof fn embeddings_are_rows(token: u32, rows: nat, hidden_size: nat)
    requires
        hidden_size > 0,
        rows > 0,
    ensures
        token < rows ==> embedding_start(token, rows * hidden_size, hidden_size) == token
            * hidden_size,
        token >= rows ==> embedding_start(token, rows * hidden_size, hidden_size)
            == embedding_start((token - rows) as u32, rows * hidden_size, hidden_size),
        embedding_start(token, (hidden_size - 1) as nat, hidden_size) == 0,
{
    assert((rows * hidden_size) / hidden_size == rows) by (nonlinear_arith)
        requires
            hidden_size > 0,
    ;
    let short = (hidden_size - 1) as nat;
    assert(short / hidden_size == 0) by (nonlinear_arith)
        requires
            short < hidden_size,
    ;
    assert(0 * hidden_size == 0) by (nonlinear_arith);
    if token < rows {
        vstd::arithmetic::div_mod::lemma_small_mod(token as nat, rows);
    } else {
        vstd::arithmetic::div_mod::lemma_mod_sub_multiples_vanish(token as int, rows as int);
        assert((token - rows) as u32 as nat % rows == token as nat % rows);
    }
}

proof fn lemma_first_known(wanted: Seq<Seq<char>>, known: Seq<Seq<char>>, i: int)
    requires
        0 <= i,
    ensures
        match first_known(wanted, known, i) {
            Some(k) => {
                &&& i <= k < wanted.len()
                &&& known.contains(wanted[k])
                &&& forall|j: int| i <= j < k ==> !known.contains(#[trigger] wanted[j])
            },
            None => forall|j: int|
                i <= j < wanted.len() ==> !known.contains(#[trigger] wanted[j]),
        },
    decreases wanted.len() - i,
{
    if i < wanted.len() && !known.contains(wanted[i]) {
        lemma_first_known(wanted, known, i + 1);
    }
}

/// A tensor is found under the first of its names that the model has, and is missing only
/// where the model has none of them.
pub proof fn first_name_counts(wanted: Seq<Seq<char>>, known: Seq<Seq<char>>)
    ensures
        match first_known(wanted, known, 0) {
            Some(k) => {
                &&& 0 <= k < wanted.len()
                &&& known.contains(wanted[k])
                &&& forall|j: int| 0 <= j < k ==> !known.contains(#[trigger] wanted[j])
            },
            None => forall|j: int|
                0 <= j < wanted.len() ==> !known.contains(#[trigger] wanted[j]),
        },
{
    lemma_first_known(wanted, known, 0);
}

/// What stands for a role of a layer in models with long names.
pub open spec fn long_form(role: Seq<char>, long: Seq<char>) -> bool {
    ||| role == "attn_norm"@ && long == "input_layernorm"@
    ||| role == "attn_q"@ && long == "self_attn.q_proj"@
    ||| role == "attn_k"@ && long == "self_attn.k_proj"@
    ||| role == "attn_v"@ && long == "self_attn.v_proj"@
    ||| role == "attn_output"@ && long == "self_attn.o_proj"@
    ||| role == "ffn_norm"@ && long == "post_attention_layernorm"@
    ||| role == "ffn_gate"@ && long == "mlp.gate_proj"@
    ||| role == "ffn_up"@ && long == "mlp.up_proj"@
    ||| role == "ffn_down"@ && long == "mlp.down_proj"@
}

proof fn lemma_role_names()
    ensures
        "attn_norm"@.len() == 9,
        "attn_q"@.len() == 6,
        "attn_k"@.len() == 6,
        "attn_v"@.len() == 6,
        "attn_output"@.len() == 11,
        "ffn_norm"@.len() == 8,
        "ffn_gate"@.len() == 8,
        "ffn_up"@.len() == 6,
        "ffn_down"@.len() == 8,
        "attn_q"@[5] == 'q',
        "attn_k"@[5] == 'k',
        "attn_v"@[5] == 'v',
        "ffn_up"@[5] == 'p',
        "ffn_norm"@[4] == 'n',
        "ffn_gate"@[4] == 'g',
        "ffn_down"@[4] == 'd',
{
    reveal_strlit("attn_norm");
    reveal_strlit("attn_q");
    reveal_strlit("attn_k");
    reveal_strlit("attn_v");
    reveal_strlit("attn_output");
    reveal_strlit("ffn_norm");
    reveal_strlit("ffn_gate");
    reveal_strlit("ffn_up");
    reveal_strlit("ffn_down");
}

/// A tensor of a layer is found under its short name, and where a model does not have
/// that, under its long name, with either of two prefixes.
pub proof fn layer_tensors_are_found(
    layer: usize,
    role: Seq<char>,
    long: Seq<char>,
    known: Seq<Seq<char>>,
)
    requires
        long_form(role, long),
    ensures
        ({
            let short_name = "blk."@ + decimal(layer as nat) + "."@ + role + ".weight"@;
            let model_name = "model.layers."@ + decimal(layer as nat) + "."@ + long + ".weight"@;
            let long_name = "layers."@ + decimal(layer as nat) + "."@ + long + ".weight"@;
            known_name(layer, role, known) == if known.contains(short_name) {
                Some(short_name)
            } else if known.contains(model_name) {
                Some(model_name)
            } else if known.contains(long_name) {
                Some(long_name)
            } else {
                None
            }
        }),
{
    lemma_role_names();
    let names = layer_names(layer, role);
    lemma_first_known(names, known, 0);
    assert(crate::engine::tensors::long_role(role) == long);
    assert(names.len() == 3);
    assert(!known.contains(names[0]) || known.contains(names[0]));
    assert(!known.contains(names[1]) || known.contains(names[1]));
    assert(!known.contains(names[2]) || known.contains(names[2]));
}

/// A layer takes the nine tensors with a long form.
pub proof fn layers_take_nine_tensors(role: Seq<char>)
    ensures
        (attention_parts() + feed_forward_parts()).contains(role) <==> exists|long: Seq<char>|
            long_form(role, long),
        (attention_parts() + feed_forward_parts()).no_duplicates(),
{
    lemma_role_names();
    let all = attention_parts() + feed_forward_parts();
    assert(all =~= seq![
        "attn_norm"@,
        "attn_q"@,
        "attn_k"@,
        "attn_v"@,
        "attn_output"@,
        "ffn_norm"@,
        "ffn_gate"@,
        "ffn_up"@,
        "ffn_down"@,
    ]);
    if all.contains(role) {
        let long = crate::engine::tensors::long_role(role);
        let i = all.index_of(role);
        assert(all[i] == role);
        assert(long_form(role, long));
    }
    if exists|long: Seq<char>| long_form(role, long) {
        assert(all[0] == "attn_norm"@ && all[1] == "attn_q"@ && all[2] == "attn_k"@ && all[3]
            == "attn_v"@ && all[4] == "attn_output"@ && all[5] == "ffn_norm"@ && all[6]
            == "ffn_gate"@ && all[7] == "ffn_up"@ && all[8] == "ffn_down"@);
    }
}

/// All names of a missing tensor are told, in their order.
pub proof fn missing_names_are_told(names: Seq<Seq<char>>, name: Seq<char>)
    ensures
        missing_text(seq![name]) == "Missing tensor: "@ + name,
        names.len() > 0 ==> missing_text(names.push(name)) == missing_text(names) + " or "@ + name,
{
    assert(names.push(name).drop_last() =~= names);
    assert(missing_text(seq![name]) =~= "Missing tensor: "@ + name);
    if names.len() > 0 {
        assert(joined(names.push(name), " or "@) == joined(names, " or "@) + " or "@ + name);
        assert(missing_text(names.push(name)) =~= missing_text(names) + " or "@ + name);
    }
}

/// An architecture with a variant of its own is known by its name.
pub proof fn architectures_have_names(a: ModelArch)
    ensures
        a is Llama ==> a@ == "llama"@,
        a is Mistral ==> a@ == "mistral"@,
        a is Mixtral ==> a@ == "mixtral"@,
        a is Gemma ==> a@ == "gemma"@,
        a is Phi ==> a@ == "phi"@,
        a is Qwen2 ==> a@ == "qwen2"@,
        a is Deepseek ==> a@ == "deepseek"@,
        !(a is Unknown) ==> ModelArch::is_known(a@),
{
}

/// The bytes of caches are those of the keys and values of each.
pub proof fn caches_are_added_up(caches: Seq<KvCache>, n: int)
    requires
        0 <= n,
    ensures
        cache_bytes(caches, 0) == 0,
        cache_bytes(caches, n + 1) - cache_bytes(caches, n) == caches[n].keys.bytes(
            caches[n].head_dim,
        ) + caches[n].values.bytes(caches[n].head_dim),
{
}

/// Caches are reserved in unified memory, layer by layer, under the names of the layers.
pub proof fn layers_reserve_caches(p: PoolView, layers: nat, bytes: usize)
    requires
        layers < usize::MAX,
    ensures
        reserved(p, 0, bytes) == p,
        reserved(p, layers + 1, bytes) == reserved(p, layers, bytes).allocated(
            "kv_cache_l"@ + decimal(layers),
            bytes,
            MemRegion::Unified,
        ).0,
{
}

/// Every tensor has a choice of its own.
pub proof fn tensors_have_their_choices(tensors: Seq<TensorView>, i: int)
    requires
        0 <= i < tensors.len(),
    ensures
        choices_for(tensors).len() == tensors.len(),
        choices_for(tensors)[i] == choice_for(tensors[i]),
{
}

/// The first role without a tensor is told, and none where every role has one.
pub proof fn first_missing_role_is_told(
    layer: usize,
    roles: Seq<Seq<char>>,
    known: Seq<Seq<char>>,
    i: int,
)
    requires
        0 <= i <= roles.len(),
    ensures
        match first_missing(layer, roles, known, i) {
            Some(k) => {
                &&& i <= k < roles.len()
                &&& known_name(layer, roles[k], known) is None
                &&& forall|j: int| i <= j < k ==> known_name(layer, #[trigger] roles[j], known) is Some
            },
            None => forall|j: int|
                i <= j < roles.len() ==> known_name(layer, #[trigger] roles[j], known) is Some,
        },
    decreases roles.len() - i,
{
    if i < roles.len() && known_name(layer, roles[i], known) is Some {
        first_missing_role_is_told(layer, roles, known, i + 1);
    }
}

} // verus!
