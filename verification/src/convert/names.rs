//! The names that tensors get in a GGUF file.

use crate::engine::tensors::{layer_name, long_role};
use crate::text::{chars_of, decimal, digit_char, str_eq, string_from};
use vstd::prelude::*;

verus! {

/// The first place of a dot, from place `i` on.
pub open spec fn first_dot(s: Seq<char>, i: int) -> Option<int>
    decreases s.len() - i,
{
    if i < 0 || i >= s.len() {
        None
    } else if s[i] == '.' {
        Some(i)
    } else {
        first_dot(s, i + 1)
    }
}

/// The text starts with another.
pub open spec fn starts_with(s: Seq<char>, prefix: Seq<char>) -> bool {
    s.len() >= prefix.len() && s.take(prefix.len() as int) == prefix
}

/// The short name of a layer's tensor, or the name itself where there is none.
pub open spec fn short_suffix(suffix: Seq<char>) -> Seq<char> {
    if suffix == "input_layernorm.weight"@ {
        "attn_norm.weight"@
    } else if suffix == "self_attn.q_proj.weight"@ {
        "attn_q.weight"@
    } else if suffix == "self_attn.k_proj.weight"@ {
        "attn_k.weight"@
    } else if suffix == "self_attn.v_proj.weight"@ {
        "attn_v.weight"@
    } else if suffix == "self_attn.o_proj.weight"@ {
        "attn_output.weight"@
    } else if suffix == "post_attention_layernorm.weight"@ {
        "ffn_norm.weight"@
    } else if suffix == "mlp.gate_proj.weight"@ {
        "ffn_gate.weight"@
    } else if suffix == "mlp.up_proj.weight"@ {
        "ffn_up.weight"@
    } else if suffix == "mlp.down_proj.weight"@ {
        "ffn_down.weight"@
    } else {
        suffix
    }
}

/// The name that a tensor gets: layers and their tensors have short names, and so have
/// the embeddings, the last norm and the output head. Other names stay.
pub open spec fn canonical(name: Seq<char>) -> Seq<char> {
    if name == "model.embed_tokens.weight"@ {
        "token_embd.weight"@
    } else if name == "model.norm.weight"@ {
        "output_norm.weight"@
    } else if name == "lm_head.weight"@ {
        "output.weight"@
    } else if starts_with(name, "model.layers."@) {
        let rest = name.skip("model.layers."@.len() as int);
        match first_dot(rest, 0) {
            Some(p) => "blk."@ + rest.take(p) + "."@ + short_suffix(rest.skip(p + 1)),
            None => name,
        }
    } else {
        name
    }
}

fn shorten(suffix: &str) -> (r: String)
    ensures
        r@ == short_suffix(suffix@),
{
    let short = if str_eq(suffix, "input_layernorm.weight") {
        "attn_norm.weight"
    } else if str_eq(suffix, "self_attn.q_proj.weight") {
        "attn_q.weight"
    } else if str_eq(suffix, "self_attn.k_proj.weight") {
        "attn_k.weight"
    } else if str_eq(suffix, "self_attn.v_proj.weight") {
        "attn_v.weight"
    } else if str_eq(suffix, "self_attn.o_proj.weight") {
        "attn_output.weight"
    } else if str_eq(suffix, "post_attention_layernorm.weight") {
        "ffn_norm.weight"
    } else if str_eq(suffix, "mlp.gate_proj.weight") {
        "ffn_gate.weight"
    } else if str_eq(suffix, "mlp.up_proj.weight") {
        "ffn_up.weight"
    } else if str_eq(suffix, "mlp.down_proj.weight") {
        "ffn_down.weight"
    } else {
        suffix
    };
    short.to_string()
}

/// The name that a tensor gets in a GGUF file.
pub fn canonical_tensor_name(name: &str) -> (r: String)
    ensures
        r@ == canonical(name@),
{
    if str_eq(name, "model.embed_tokens.weight") {
        return "token_embd.weight".to_string();
    }
    if str_eq(name, "model.norm.weight") {
        return "output_norm.weight".to_string();
    }
    if str_eq(name, "lm_head.weight") {
        return "output.weight".to_string();
    }
    let chars = chars_of(name);
    let prefix = chars_of("model.layers.");
    let n: usize = prefix.len();
    if chars.len() < n || !str_eq(string_from(&chars, 0, n).as_str(), "model.layers.") {
        assert(chars.len() < n || name@.subrange(0, n as int) =~= name@.take(n as int));
        return name.to_string();
    }
    assert(name@.subrange(0, n as int) =~= name@.take(n as int));
    let ghost rest = name@.skip(n as int);
    let mut i: usize = n;
    while i < chars.len()
        invariant
            n <= i <= chars@.len(),
            chars@ == name@,
            rest == name@.skip(n as int),
            first_dot(rest, 0) == first_dot(rest, i - n),
            n == "model.layers."@.len(),
            starts_with(name@, "model.layers."@),
            name@ != "model.embed_tokens.weight"@,
            name@ != "model.norm.weight"@,
            name@ != "lm_head.weight"@,
        decreases chars@.len() - i,
    {
        assert(rest[i - n] == chars@[i as int]);
        if chars[i] == '.' {
            let layer = string_from(&chars, n, i);
            let suffix = string_from(&chars, i + 1, chars.len());
            assert(layer@ =~= rest.take(i - n));
            assert(suffix@ =~= rest.skip(i - n + 1));
            let mut out = "blk.".to_string();
            out.append(layer.as_str());
            out.append(".");
            out.append(shorten(suffix.as_str()).as_str());
            return out;
        }
        i += 1;
    }
    name.to_string()
}

/// The role is one of those that a layer's tensors have.
pub open spec fn is_role(role: Seq<char>) -> bool {
    ||| role == "attn_norm"@
    ||| role == "attn_q"@
    ||| role == "attn_k"@
    ||| role == "attn_v"@
    ||| role == "attn_output"@
    ||| role == "ffn_norm"@
    ||| role == "ffn_gate"@
    ||| role == "ffn_up"@
    ||| role == "ffn_down"@
}

proof fn lemma_digit(d: nat)
    requires
        d < 10,
    ensures
        digit_char(d) != '.',
{
}

proof fn lemma_decimal_has_no_dot(n: nat)
    ensures
        forall|i: int| 0 <= i < decimal(n).len() ==> #[trigger] decimal(n)[i] != '.',
    decreases n,
{
    lemma_digit(n % 10);
    if n >= 10 {
        lemma_decimal_has_no_dot(n / 10);
        let front = decimal(n / 10);
        assert(decimal(n) == front.push(digit_char(n % 10)));
        assert forall|i: int| 0 <= i < decimal(n).len() implies #[trigger] decimal(n)[i] != '.' by {
            if i < front.len() {
                assert(decimal(n)[i] == front[i]);
            }
        }
    }
}

pub proof fn lemma_first_dot(s: Seq<char>, i: int, p: int)
    requires
        0 <= i <= p < s.len(),
        s[p] == '.',
        forall|j: int| i <= j < p ==> s[j] != '.',
    ensures
        first_dot(s, i) == Some(p),
    decreases p - i,
{
    if i < p {
        lemma_first_dot(s, i + 1, p);
    }
}

proof fn lemma_suffixes(role: Seq<char>)
    requires
        is_role(role),
    ensures
        short_suffix(long_role(role) + ".weight"@) == role + ".weight"@,
{
    reveal_strlit(".weight");
    reveal_strlit("attn_norm");
    reveal_strlit("attn_q");
    reveal_strlit("attn_k");
    reveal_strlit("attn_v");
    reveal_strlit("attn_output");
    reveal_strlit("ffn_norm");
    reveal_strlit("ffn_gate");
    reveal_strlit("ffn_up");
    reveal_strlit("ffn_down");
    reveal_strlit("input_layernorm");
    reveal_strlit("self_attn.q_proj");
    reveal_strlit("self_attn.k_proj");
    reveal_strlit("self_attn.v_proj");
    reveal_strlit("self_attn.o_proj");
    reveal_strlit("post_attention_layernorm");
    reveal_strlit("mlp.gate_proj");
    reveal_strlit("mlp.up_proj");
    reveal_strlit("mlp.down_proj");
    reveal_strlit("input_layernorm.weight");
    reveal_strlit("self_attn.q_proj.weight");
    reveal_strlit("self_attn.k_proj.weight");
    reveal_strlit("self_attn.v_proj.weight");
    reveal_strlit("self_attn.o_proj.weight");
    reveal_strlit("post_attention_layernorm.weight");
    reveal_strlit("mlp.gate_proj.weight");
    reveal_strlit("mlp.up_proj.weight");
    reveal_strlit("mlp.down_proj.weight");
    reveal_strlit("attn_norm.weight");
    reveal_strlit("attn_q.weight");
    reveal_strlit("attn_k.weight");
    reveal_strlit("attn_v.weight");
    reveal_strlit("attn_output.weight");
    reveal_strlit("ffn_norm.weight");
    reveal_strlit("ffn_gate.weight");
    reveal_strlit("ffn_up.weight");
    reveal_strlit("ffn_down.weight");
    assert("self_attn.q_proj.weight"@[10] == 'q');
    assert("self_attn.k_proj.weight"@[10] == 'k');
    assert("self_attn.v_proj.weight"@[10] == 'v');
    assert("self_attn.o_proj.weight"@[10] == 'o');
    assert("mlp.gate_proj.weight"@[4] == 'g');
    assert("mlp.up_proj.weight"@[4] == 'u');
    assert("mlp.down_proj.weight"@[4] == 'd');
    assert("attn_q"@[5] == 'q' && "attn_k"@[5] == 'k' && "attn_v"@[5] == 'v');
    if role == "attn_norm"@ {
        assert("input_layernorm"@ + ".weight"@ =~= "input_layernorm.weight"@);
        assert("attn_norm"@ + ".weight"@ =~= "attn_norm.weight"@);
    } else if role == "attn_q"@ {
        assert("self_attn.q_proj"@ + ".weight"@ =~= "self_attn.q_proj.weight"@);
        assert("attn_q"@ + ".weight"@ =~= "attn_q.weight"@);
    } else if role == "attn_k"@ {
        assert("self_attn.k_proj"@ + ".weight"@ =~= "self_attn.k_proj.weight"@);
        assert("attn_k"@ + ".weight"@ =~= "attn_k.weight"@);
    } else if role == "attn_v"@ {
        assert("self_attn.v_proj"@ + ".weight"@ =~= "self_attn.v_proj.weight"@);
        assert("attn_v"@ + ".weight"@ =~= "attn_v.weight"@);
    } else if role == "attn_output"@ {
        assert("self_attn.o_proj"@ + ".weight"@ =~= "self_attn.o_proj.weight"@);
        assert("attn_output"@ + ".weight"@ =~= "attn_output.weight"@);
    } else if role == "ffn_norm"@ {
        assert("post_attention_layernorm"@ + ".weight"@ =~= "post_attention_layernorm.weight"@);
        assert("ffn_norm"@ + ".weight"@ =~= "ffn_norm.weight"@);
    } else if role == "ffn_gate"@ {
        assert("mlp.gate_proj"@ + ".weight"@ =~= "mlp.gate_proj.weight"@);
        assert("ffn_gate"@ + ".weight"@ =~= "ffn_gate.weight"@);
    } else if role == "ffn_up"@ {
        assert("mlp.up_proj"@ + ".weight"@ =~= "mlp.up_proj.weight"@);
        assert("ffn_up"@ + ".weight"@ =~= "ffn_up.weight"@);
    } else {
        assert("mlp.down_proj"@ + ".weight"@ =~= "mlp.down_proj.weight"@);
        assert("ffn_down"@ + ".weight"@ =~= "ffn_down.weight"@);
    }
}

/// A layer's tensor gets the name under which inference looks for it first.
pub proof fn converted_layer_names_are_found(layer: usize, role: Seq<char>)
    requires
        is_role(role),
    ensures
        canonical(layer_name("model.layers."@, layer, long_role(role))) == layer_name(
            "blk."@,
            layer,
            role,
        ),
{
    let name = layer_name("model.layers."@, layer, long_role(role));
    let n = "model.layers."@.len() as int;
    let digits = decimal(layer as nat);
    let rest = digits + "."@ + long_role(role) + ".weight"@;
    reveal_strlit("model.layers.");
    reveal_strlit(".");
    reveal_strlit("model.embed_tokens.weight");
    reveal_strlit("model.norm.weight");
    reveal_strlit("lm_head.weight");
    assert(name.take(n) =~= "model.layers."@);
    assert(name.skip(n) =~= rest);
    assert(name[6] == 'l');
    assert(name[0] == 'm');
    assert("model.embed_tokens.weight"@[6] == 'e');
    assert("model.norm.weight"@[6] == 'n');
    assert("lm_head.weight"@[0] == 'l');
    lemma_decimal_has_no_dot(layer as nat);
    assert forall|j: int| 0 <= j < digits.len() implies rest[j] != '.' by {
        assert(rest[j] == digits[j]);
    }
    assert(rest[digits.len() as int] == '.');
    lemma_first_dot(rest, 0, digits.len() as int);
    assert(rest.take(digits.len() as int) =~= digits);
    assert(rest.skip(digits.len() as int + 1) =~= long_role(role) + ".weight"@);
    lemma_suffixes(role);
    assert("blk."@ + digits + "."@ + (role + ".weight"@) =~= layer_name("blk."@, layer, role));
}

} // verus!
