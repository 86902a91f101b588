//! The names of a model's tensors, and the shapes that they must have.

use crate::gguf::types::GgufDataType;
use crate::text::{decimal, decimal_string, str_eq, texts};
use vstd::prelude::*;

verus! {

/// The longer name of a layer's tensor, or the name itself where there is none.
pub open spec fn long_role(role: Seq<char>) -> Seq<char> {
    if role == "attn_norm"@ {
        "input_layernorm"@
    } else if role == "attn_q"@ {
        "self_attn.q_proj"@
    } else if role == "attn_k"@ {
        "self_attn.k_proj"@
    } else if role == "attn_v"@ {
        "self_attn.v_proj"@
    } else if role == "attn_output"@ {
        "self_attn.o_proj"@
    } else if role == "ffn_norm"@ {
        "post_attention_layernorm"@
    } else if role == "ffn_gate"@ {
        "mlp.gate_proj"@
    } else if role == "ffn_up"@ {
        "mlp.up_proj"@
    } else if role == "ffn_down"@ {
        "mlp.down_proj"@
    } else {
        role
    }
}

/// The name of a layer's tensor behind a prefix.
pub open spec fn layer_name(prefix: Seq<char>, layer: usize, role: Seq<char>) -> Seq<char> {
    prefix + decimal(layer as nat) + "."@ + role + ".weight"@
}

fn layer_name_of(prefix: &str, layer: usize, role: &str) -> (r: String)
    ensures
        r@ == layer_name(prefix@, layer, role@),
{
    let mut out = prefix.to_string();
    out.append(decimal_string(layer as u64).as_str());
    out.append(".");
    out.append(role);
    out.append(".weight");
    out
}

/// The names that a layer's tensor can have, in the order in which they are looked for.
pub open spec fn layer_names(layer: usize, role: Seq<char>) -> Seq<Seq<char>> {
    seq![
        layer_name("blk."@, layer, role),
        layer_name("model.layers."@, layer, long_role(role)),
        layer_name("layers."@, layer, long_role(role)),
    ]
}

/// The names that a layer's tensor can have, in the order in which they are looked for.
pub fn layer_tensor_names(layer: usize, role: &str) -> (r: Vec<String>)
    ensures
        texts(r@) == layer_names(layer, role@),
{
    let long = if str_eq(role, "attn_norm") {
        "input_layernorm"
    } else if str_eq(role, "attn_q") {
        "self_attn.q_proj"
    } else if str_eq(role, "attn_k") {
        "self_attn.k_proj"
    } else if str_eq(role, "attn_v") {
        "self_attn.v_proj"
    } else if str_eq(role, "attn_output") {
        "self_attn.o_proj"
    } else if str_eq(role, "ffn_norm") {
        "post_attention_layernorm"
    } else if str_eq(role, "ffn_gate") {
        "mlp.gate_proj"
    } else if str_eq(role, "ffn_up") {
        "mlp.up_proj"
    } else if str_eq(role, "ffn_down") {
        "mlp.down_proj"
    } else {
        role
    };
    let mut names: Vec<String> = Vec::new();
    names.push(layer_name_of("blk.", layer, role));
    names.push(layer_name_of("model.layers.", layer, long));
    names.push(layer_name_of("layers.", layer, long));
    assert(texts(names@) =~= layer_names(layer, role@));
    names
}

fn four_names(a: &str, b: &str, c: &str, d: &str) -> (r: Vec<String>)
    ensures
        texts(r@) == seq![a@, b@, c@, d@],
{
    let mut names: Vec<String> = Vec::new();
    names.push(a.to_string());
    names.push(b.to_string());
    names.push(c.to_string());
    names.push(d.to_string());
    assert(texts(names@) =~= seq![a@, b@, c@, d@]);
    names
}

/// The names that the token embeddings can have.
pub fn embedding_names() -> (r: Vec<String>)
    ensures
        texts(r@) == seq![
            "token_embd.weight"@,
            "token_embd"@,
            "model.embed_tokens.weight"@,
            "transformer.wte.weight"@,
        ],
{
    four_names(
        "token_embd.weight",
        "token_embd",
        "model.embed_tokens.weight",
        "transformer.wte.weight",
    )
}

/// The names that the last norm can have.
pub fn output_norm_names() -> (r: Vec<String>)
    ensures
        texts(r@) == seq![
            "output_norm.weight"@,
            "norm.weight"@,
            "model.norm.weight"@,
            "transformer.ln_f.weight"@,
        ],
{
    four_names(
        "output_norm.weight",
        "norm.weight",
        "model.norm.weight",
        "transformer.ln_f.weight",
    )
}

/// The names that the output head can have. Models that share it with the embeddings
/// have no tensor of their own for it.
pub fn output_head_names() -> (r: Vec<String>)
    ensures
        texts(r@) == seq![
            "output.weight"@,
            "lm_head.weight"@,
            "model.embed_tokens.weight"@,
            "token_embd.weight"@,
        ],
{
    four_names(
        "output.weight",
        "lm_head.weight",
        "model.embed_tokens.weight",
        "token_embd.weight",
    )
}

/// Texts with a separator between them.
pub open spec fn joined(parts: Seq<Seq<char>>, separator: Seq<char>) -> Seq<char>
    decreases parts.len(),
{
    if parts.len() == 0 {
        seq![]
    } else if parts.len() == 1 {
        parts[0]
    } else {
        joined(parts.drop_last(), separator) + separator + parts.last()
    }
}

/// What is said where none of a tensor's names is in the model.
pub open spec fn missing_text(names: Seq<Seq<char>>) -> Seq<char> {
    "Missing tensor: "@ + joined(names, " or "@)
}

/// What is said where none of a tensor's names is in the model.
pub fn missing_tensor(names: &Vec<String>) -> (r: String)
    ensures
        r@ == missing_text(texts(names@)),
{
    let mut out = "Missing tensor: ".to_string();
    let mut i: usize = 0;
    let ghost all = texts(names@);
    assert("Missing tensor: "@ + joined(all.take(0), " or "@) =~= out@);
    while i < names.len()
        invariant
            i <= names@.len(),
            all == texts(names@),
            out@ == "Missing tensor: "@ + joined(all.take(i as int), " or "@),
        decreases names@.len() - i,
    {
        let ghost before = out@;
        if i > 0 {
            out.append(" or ");
        }
        out.append(names[i].as_str());
        assert(all.take(i + 1).drop_last() =~= all.take(i as int));
        assert(all.take(i + 1).last() == names@[i as int]@);
        assert(out@ =~= "Missing tensor: "@ + joined(all.take(i + 1), " or "@));
        i += 1;
    }
    assert(all.take(i as int) =~= all);
    out
}

/// The place of the first of the wanted names that is known.
pub open spec fn first_known(wanted: Seq<Seq<char>>, known: Seq<Seq<char>>, i: int) -> Option<int>
    decreases wanted.len() - i,
{
    if i < 0 || i >= wanted.len() {
        None
    } else if known.contains(wanted[i]) {
        Some(i)
    } else {
        first_known(wanted, known, i + 1)
    }
}

/// The place of the first of a tensor's names that is among those of the model, or
/// what is said where none is.
pub fn find_tensor(wanted: &Vec<String>, known: &Vec<String>) -> (r: Result<usize, String>)
    ensures
        match r {
            Ok(i) => first_known(texts(wanted@), texts(known@), 0) == Some(i as int),
            Err(e) => first_known(texts(wanted@), texts(known@), 0) is None && e@ == missing_text(
                texts(wanted@),
            ),
        },
{
    let ghost ws = texts(wanted@);
    let ghost ks = texts(known@);
    let mut i: usize = 0;
    while i < wanted.len()
        invariant
            i <= wanted@.len(),
            ws == texts(wanted@),
            ks == texts(known@),
            first_known(ws, ks, 0) == first_known(ws, ks, i as int),
        decreases wanted@.len() - i,
    {
        let mut k: usize = 0;
        while k < known.len()
            invariant
                k <= known@.len(),
                i < wanted@.len(),
                ws == texts(wanted@),
                ks == texts(known@),
                first_known(ws, ks, 0) == first_known(ws, ks, i as int),
                forall|j: int| 0 <= j < k ==> #[trigger] ks[j] != ws[i as int],
            decreases known@.len() - k,
        {
            if str_eq(wanted[i].as_str(), known[k].as_str()) {
                assert(ks[k as int] == ws[i as int]);
                return Ok(i);
            }
            assert(ks[k as int] == known@[k as int]@);
            k += 1;
        }
        assert(!ks.contains(ws[i as int]));
        i += 1;
    }
    Err(missing_tensor(wanted))
}

/// What a layer's attention takes, in the order in which it is looked for.
pub open spec fn attention_parts() -> Seq<Seq<char>> {
    seq!["attn_norm"@, "attn_q"@, "attn_k"@, "attn_v"@, "attn_output"@]
}

/// What a layer's feed-forward network takes, in the order in which it is looked for.
pub open spec fn feed_forward_parts() -> Seq<Seq<char>> {
    seq!["ffn_norm"@, "ffn_gate"@, "ffn_up"@, "ffn_down"@]
}

/// Roles as texts.
pub open spec fn role_views(roles: Seq<&'static str>) -> Seq<Seq<char>> {
    Seq::new(roles.len(), |i: int| roles[i]@)
}

/// What a layer's attention takes.
pub fn attention_roles() -> (r: Vec<&'static str>)
    ensures
        role_views(r@) == attention_parts(),
{
    let mut roles: Vec<&'static str> = Vec::new();
    roles.push("attn_norm");
    roles.push("attn_q");
    roles.push("attn_k");
    roles.push("attn_v");
    roles.push("attn_output");
    assert(role_views(roles@) =~= attention_parts());
    roles
}

/// What a layer's feed-forward network takes.
pub fn feed_forward_roles() -> (r: Vec<&'static str>)
    ensures
        role_views(r@) == feed_forward_parts(),
{
    let mut roles: Vec<&'static str> = Vec::new();
    roles.push("ffn_norm");
    roles.push("ffn_gate");
    roles.push("ffn_up");
    roles.push("ffn_down");
    assert(role_views(roles@) =~= feed_forward_parts());
    roles
}

/// The name that a layer's tensor has in the model, if it is there.
pub open spec fn known_name(layer: usize, role: Seq<char>, known: Seq<Seq<char>>) -> Option<
    Seq<char>,
> {
    match first_known(layer_names(layer, role), known, 0) {
        Some(i) => Some(layer_names(layer, role)[i]),
        None => None,
    }
}

/// The place of the first role, from place `i` on, that the model has no tensor for.
pub open spec fn first_missing(
    layer: usize,
    roles: Seq<Seq<char>>,
    known: Seq<Seq<char>>,
    i: int,
) -> Option<int>
    decreases roles.len() - i,
{
    if i < 0 || i >= roles.len() {
        None
    } else if known_name(layer, roles[i], known) is None {
        Some(i)
    } else {
        first_missing(layer, roles, known, i + 1)
    }
}

proof fn lemma_first_known(wanted: Seq<Seq<char>>, known: Seq<Seq<char>>, i: int)
    requires
        0 <= i,
    ensures
        first_known(wanted, known, i) matches Some(k) ==> i <= k < wanted.len(),
    decreases wanted.len() - i,
{
    if i < wanted.len() && !known.contains(wanted[i]) {
        lemma_first_known(wanted, known, i + 1);
    }
}

/// The names that a layer's tensors have in the model, in the order of their roles, or
/// what is said of the first that is missing.
pub fn find_layer_tensors(layer: usize, roles: &Vec<&'static str>, known: &Vec<String>) -> (r: Result<
    Vec<String>,
    String,
>)
    ensures
        match r {
            Ok(names) => {
                &&& first_missing(layer, role_views(roles@), texts(known@), 0) is None
                &&& names@.len() == roles@.len()
                &&& forall|i: int|
                    0 <= i < roles@.len() ==> known_name(layer, roles@[i]@, texts(known@)) == Some(
                        #[trigger] names@[i]@,
                    )
            },
            Err(e) => first_missing(layer, role_views(roles@), texts(known@), 0) matches Some(k)
                && e@ == missing_text(layer_names(layer, role_views(roles@)[k])),
        },
{
    let ghost all = role_views(roles@);
    let ghost ks = texts(known@);
    let mut names: Vec<String> = Vec::new();
    let mut i: usize = 0;
    while i < roles.len()
        invariant
            i <= roles@.len(),
            all == role_views(roles@),
            ks == texts(known@),
            names@.len() == i,
            first_missing(layer, all, ks, 0) == first_missing(layer, all, ks, i as int),
            forall|j: int|
                0 <= j < i ==> known_name(layer, roles@[j]@, ks) == Some(#[trigger] names@[j]@),
        decreases roles@.len() - i,
    {
        let mut wanted = layer_tensor_names(layer, roles[i]);
        let ghost ws = texts(wanted@);
        match find_tensor(&wanted, known) {
            Ok(k) => {
                proof {
                    lemma_first_known(ws, ks, 0);
                }
                assert(ws[k as int] == wanted@[k as int]@);
                let name = wanted.swap_remove(k);
                names.push(name);
            },
            Err(e) => {
                return Err(e);
            },
        }
        i += 1;
    }
    Ok(names)
}

/// The numerators, over 1024, of the numbers that stand for the embedding of a token
/// where a model has none.
pub fn synthetic_embedding(token: u32, hidden_size: usize) -> (r: Vec<i32>)
    requires
        token + hidden_size <= usize::MAX,
    ensures
        r@ == Seq::new(hidden_size as nat, |i: int| ((token + i) % 1024 - 512) as i32),
{
    let mut out: Vec<i32> = Vec::new();
    let mut i: usize = 0;
    while i < hidden_size
        invariant
            i <= hidden_size,
            token + hidden_size <= usize::MAX,
            out@ == Seq::new(i as nat, |i: int| ((token + i) % 1024 - 512) as i32),
        decreases hidden_size - i,
    {
        let place: usize = (token as usize + i) % 1024;
        out.push(place as i32 - 512);
        i += 1;
        assert(out@ =~= Seq::new(i as nat, |i: int| ((token + i) % 1024 - 512) as i32));
    }
    out
}

/// Why a matrix cannot be applied to a vector.
#[derive(Debug, Clone, Copy, PartialEq, Eq, Structural)]
pub enum MatvecError {
    InputShape { got: usize, expected: usize },
    WeightTooSmall { got: usize, expected: usize },
}

impl MatvecError {
    pub open spec fn spec_message(self) -> Seq<char> {
        match self {
            MatvecError::InputShape { got, expected } => "Matvec input shape mismatch: got "@
                + decimal(got as nat) + ", expected "@ + decimal(expected as nat),
            MatvecError::WeightTooSmall { got, expected } => "Matvec weight too small: got "@
                + decimal(got as nat) + ", expected at least "@ + decimal(expected as nat),
        }
    }

    /// The error in words.
    pub fn message(&self) -> (r: String)
        ensures
            r@ == self.spec_message(),
    {
        match self {
            MatvecError::InputShape { got, expected } => {
                let mut out = "Matvec input shape mismatch: got ".to_string();
                out.append(decimal_string(*got as u64).as_str());
                out.append(", expected ");
                out.append(decimal_string(*expected as u64).as_str());
                out
            },
            MatvecError::WeightTooSmall { got, expected } => {
                let mut out = "Matvec weight too small: got ".to_string();
                out.append(decimal_string(*got as u64).as_str());
                out.append(", expected at least ");
                out.append(decimal_string(*expected as u64).as_str());
                out
            },
        }
    }
}

/// Whether a matrix of that many elements can be applied to a vector: the vector has
/// one element for each column, and the matrix has every row.
pub fn check_matvec(weight_len: usize, rows: usize, cols: usize, input_len: usize) -> (r: Result<
    (),
    MatvecError,
>)
    requires
        rows * cols <= usize::MAX,
    ensures
        match r {
            Ok(_) => input_len == cols && weight_len >= rows * cols,
            Err(e) => if input_len != cols {
                e == (MatvecError::InputShape { got: input_len, expected: cols })
            } else {
                weight_len < rows * cols && e == (MatvecError::WeightTooSmall {
                    got: weight_len,
                    expected: (rows * cols) as usize,
                })
            },
        },
{
    if input_len != cols {
        return Err(MatvecError::InputShape { got: input_len, expected: cols });
    }
    if weight_len < rows * cols {
        return Err(MatvecError::WeightTooSmall { got: weight_len, expected: rows * cols });
    }
    Ok(())
}

/// Where the embedding of a token starts. Tokens past the last row start over at the
/// first.
pub open spec fn embedding_start(token: u32, embedding_len: nat, hidden_size: nat) -> nat {
    let rows = if embedding_len / hidden_size == 0 {
        1
    } else {
        embedding_len / hidden_size
    };
    (token as nat % rows) * hidden_size
}

proof fn lemma_embedding_start(token: u32, embedding_len: nat, hidden_size: nat)
    requires
        hidden_size > 0,
    ensures
        embedding_len >= hidden_size ==> embedding_start(token, embedding_len, hidden_size)
            + hidden_size <= embedding_len,
        embedding_len < hidden_size ==> embedding_start(token, embedding_len, hidden_size) == 0,
{
    let q = embedding_len / hidden_size;
    assert(embedding_len >= hidden_size <==> q >= 1) by (nonlinear_arith)
        requires
            q == embedding_len / hidden_size,
            hidden_size > 0,
    ;
    if q >= 1 {
        let row = token as nat % q;
        assert(row * hidden_size + hidden_size <= embedding_len) by (nonlinear_arith)
            requires
                row + 1 <= q,
                q == embedding_len / hidden_size,
                hidden_size > 0,
        ;
    } else {
        assert(q == 0);
        assert(token as nat % 1 == 0);
        assert(0 * hidden_size == 0) by (nonlinear_arith);
    }
}

/// Where the embedding of a token starts, if the tensor has a row: nothing where it is
/// smaller than one row.
pub fn embedding_row(token: u32, embedding_len: usize, hidden_size: usize) -> (r: Option<usize>)
    requires
        hidden_size > 0,
    ensures
        match r {
            Some(start) => embedding_len >= hidden_size && start == embedding_start(
                token,
                embedding_len as nat,
                hidden_size as nat,
            ) && start + hidden_size <= embedding_len,
            None => embedding_len < hidden_size,
        },
{
    proof {
        lemma_embedding_start(token, embedding_len as nat, hidden_size as nat);
    }
    if embedding_len < hidden_size {
        return None;
    }
    let rows: usize = embedding_len / hidden_size;
    assert(rows >= 1) by (nonlinear_arith)
        requires
            rows == embedding_len / hidden_size,
            embedding_len >= hidden_size,
            hidden_size > 0,
    ;
    let row: usize = (token as usize) % rows;
    Some(row * hidden_size)
}

/// What is said of an embedding tensor that is smaller than one row.
pub fn bad_embedding() -> (r: &'static str)
    ensures
        r@ == "Token embedding tensor has an invalid shape"@,
{
    "Token embedding tensor has an invalid shape"
}

/// The key-value head that serves a query head: heads are shared out in groups, and
/// the last head takes what is left over.
pub open spec fn serving_head(query_head: usize, num_q_heads: usize, num_kv_heads: usize) -> usize {
    let group = if num_q_heads / num_kv_heads == 0 {
        1
    } else {
        num_q_heads / num_kv_heads
    };
    if query_head / group < num_kv_heads {
        query_head / group
    } else {
        (num_kv_heads - 1) as usize
    }
}

/// The key-value head that serves a query head.
pub fn kv_head(query_head: usize, num_q_heads: usize, num_kv_heads: usize) -> (r: usize)
    requires
        num_kv_heads > 0,
    ensures
        r < num_kv_heads,
        r == serving_head(query_head, num_q_heads, num_kv_heads),
{
    let per_head: usize = num_q_heads / num_kv_heads;
    let group: usize = if per_head == 0 {
        1
    } else {
        per_head
    };
    let head: usize = query_head / group;
    if head < num_kv_heads {
        head
    } else {
        num_kv_heads - 1
    }
}

/// Whether weights of a type can be turned into numbers.
pub open spec fn dequantizable(t: GgufDataType) -> bool {
    ||| t == GgufDataType::F32
    ||| t == GgufDataType::F16
    ||| t == GgufDataType::BF16
    ||| t == GgufDataType::Q8_0
    ||| t == GgufDataType::Q4_0
    ||| t == GgufDataType::Q4_K
    ||| t == GgufDataType::Q2_K
}

} // verus!
