//! What a command line asks for, and what is printed of a model.

use crate::backend::kind::BackendType;
use crate::engine::sampling::{best_among, best_places};
use crate::engine::tensors::joined;
use crate::gguf::metadata::{
    lookup_str, lookup_usize, shape_fits, shape_product, ModelMetadata, TensorInfo,
};
use crate::memory::size::{format_size, size_text};
use crate::quant::formats::{KvQuantType, QuantFormat};
use crate::text::{
    ascii_lower, chars_of, decimal, decimal_string, left_align, left_aligned, str_eq, string_of,
    texts, upper_text,
};
use vstd::prelude::*;

verus! {

/// The kind of cache quantization with a name, or the usual one.
pub fn kv_quant_or_default(name: &str) -> (r: KvQuantType)
    ensures
        r == (match KvQuantType::named(name@) {
            Some(q) => q,
            None => KvQuantType::TurboQuant3b2b,
        }),
{
    match KvQuantType::from_str(name) {
        Some(q) => q,
        None => KvQuantType::TurboQuant3b2b,
    }
}

/// The weight format with a name, or the usual one.
pub fn weight_format_or_default(name: &str) -> (r: QuantFormat)
    ensures
        r == (match QuantFormat::named(upper_text(name@)) {
            Some(f) => f,
            None => QuantFormat::Q4_K,
        }),
{
    match QuantFormat::from_str(name) {
        Some(f) => f,
        None => QuantFormat::Q4_K,
    }
}

/// The backend with a name: the processor, Metal, or else the one that suits the
/// platform.
pub open spec fn backend_named(name: Seq<char>, apple_silicon: bool) -> BackendType {
    if name == "cpu"@ || name == "cpu-simd"@ {
        BackendType::CpuSimd
    } else if name == "metal"@ {
        BackendType::Metal
    } else {
        BackendType::detected(apple_silicon)
    }
}

/// The backend that a server runs on.
pub fn server_backend(name: &str, apple_silicon: bool) -> (r: BackendType)
    ensures
        r == backend_named(name@, apple_silicon),
{
    if str_eq(name, "cpu") || str_eq(name, "cpu-simd") {
        BackendType::CpuSimd
    } else if str_eq(name, "metal") {
        BackendType::Metal
    } else {
        BackendType::detect(apple_silicon)
    }
}

/// The name of a backend that no build has.
pub open spec fn is_planned(name: Seq<char>) -> bool {
    name == "cuda"@ || name == "vulkan"@ || name == "webgpu"@
}

/// The backend that a prompt is run on, or what is said of one that no build has.
pub fn run_backend(name: &str, apple_silicon: bool) -> (r: Result<BackendType, String>)
    ensures
        match r {
            Ok(b) => !is_planned(name@) && b == backend_named(name@, apple_silicon),
            Err(e) => is_planned(name@) && e@ == "Backend '"@ + name@
                + "' is listed in capabilities but not implemented yet; use cpu-simd or metal"@,
        },
{
    proof {
        reveal_strlit("cuda");
        reveal_strlit("vulkan");
        reveal_strlit("webgpu");
        reveal_strlit("cpu");
        reveal_strlit("cpu-simd");
        reveal_strlit("metal");
    }
    if str_eq(name, "cuda") || str_eq(name, "vulkan") || str_eq(name, "webgpu") {
        let mut out = "Backend '".to_string();
        out.append(name);
        out.append("' is listed in capabilities but not implemented yet; use cpu-simd or metal");
        return Err(out);
    }
    Ok(server_backend(name, apple_silicon))
}

/// A text with hyphens in place of underscores.
pub open spec fn hyphenated(s: Seq<char>) -> Seq<char> {
    s.map_values(
        |c: char|
            if c == '_' {
                '-'
            } else {
                c
            },
    )
}

/// The name of a quantization as the converter takes it: small letters, and hyphens in
/// place of underscores.
pub fn converter_quant(quant: &str) -> (r: String)
    ensures
        r@ == hyphenated(ascii_lower(quant@)),
{
    let chars = chars_of(quant);
    let mut out: Vec<char> = Vec::new();
    let ghost all = hyphenated(ascii_lower(quant@));
    let mut i: usize = 0;
    while i < chars.len()
        invariant
            i <= chars@.len(),
            chars@ == quant@,
            all == hyphenated(ascii_lower(quant@)),
            out@ == all.take(i as int),
        decreases chars@.len() - i,
    {
        let c = chars[i];
        if 'A' <= c && c <= 'Z' {
            out.push((c as u8 + 32) as char);
        } else if c == '_' {
            out.push('-');
        } else {
            out.push(c);
        }
        i += 1;
        assert(out@ =~= all.take(i as int));
    }
    assert(out@ =~= all);
    string_of(&out)
}

/// The tokens whose logits a golden report lists: those with the greatest finite
/// logits, the greatest first.
pub fn top_logits(logits: &[u32], top_k: usize) -> (r: Vec<usize>)
    ensures
        r@ == best_among(logits@, top_k),
{
    best_places(logits, top_k)
}

/// The tokens that a benchmark reads: the numbers from zero on, cut to 32 bits.
pub fn bench_tokens(prompt_len: usize) -> (r: Vec<u32>)
    ensures
        r@ == Seq::new(prompt_len as nat, |i: int| i as u32),
{
    let mut out: Vec<u32> = Vec::new();
    let mut i: usize = 0;
    while i < prompt_len
        invariant
            i <= prompt_len,
            out@ == Seq::new(i as nat, |i: int| i as u32),
        decreases prompt_len - i,
    {
        out.push(i as u32);
        i += 1;
        assert(out@ =~= Seq::new(i as nat, |i: int| i as u32));
    }
    out
}

/// The lines with one more, if there is a text.
pub open spec fn with_text(lines: Seq<Seq<char>>, label: Seq<char>, v: Option<Seq<char>>) -> Seq<
    Seq<char>,
> {
    match v {
        Some(t) => lines.push(label + t),
        None => lines,
    }
}

/// The lines with one more, if there is a size.
pub open spec fn with_number(lines: Seq<Seq<char>>, label: Seq<char>, v: Option<usize>) -> Seq<
    Seq<char>,
> {
    match v {
        Some(n) => lines.push(label + decimal(n as nat)),
        None => lines,
    }
}

fn add_text(lines: &mut Vec<String>, label: &str, v: Option<&str>)
    ensures
        texts(final(lines)@) == with_text(
            texts(old(lines)@),
            label@,
            match v {
                Some(t) => Some(t@),
                None => None,
            },
        ),
{
    match v {
        Some(t) => {
            let ghost before = texts(lines@);
            let mut line = label.to_string();
            line.append(t);
            lines.push(line);
            assert(texts(lines@) =~= before.push(line@));
        },
        None => {},
    }
}

fn add_number(lines: &mut Vec<String>, label: &str, v: Option<usize>)
    ensures
        texts(final(lines)@) == with_number(texts(old(lines)@), label@, v),
{
    match v {
        Some(n) => {
            let ghost before = texts(lines@);
            let mut line = label.to_string();
            line.append(decimal_string(n as u64).as_str());
            lines.push(line);
            assert(texts(lines@) =~= before.push(line@));
        },
        None => {},
    }
}

/// What metadata says of a model, one line each. The base of the rotary frequencies is
/// written out by the caller.
pub open spec fn model_facts(metadata: ModelMetadata, rope_base: Option<Seq<char>>) -> Seq<Seq<char>> {
    let m = metadata.metadata@;
    let l = Seq::<Seq<char>>::empty();
    let l = with_text(l, "Name: "@, lookup_str(m, "general.name"@));
    let l = with_text(l, "Architecture: "@, lookup_str(m, "general.architecture"@));
    let l = with_number(l, "Context length: "@, lookup_usize(m, "llama.context_length"@));
    let l = with_number(l, "Layers: "@, lookup_usize(m, "llama.block_count"@));
    let l = with_number(l, "Attention heads: "@, lookup_usize(m, "llama.attention.head_count"@));
    let l = with_number(l, "KV heads: "@, lookup_usize(m, "llama.attention.head_count_kv"@));
    let l = with_number(l, "Hidden size: "@, lookup_usize(m, "llama.embedding_length"@));
    let l = with_number(l, "FFN dimension: "@, lookup_usize(m, "llama.feed_forward_length"@));
    let l = with_number(l, "Vocabulary size: "@, lookup_usize(m, "llama.vocab_size"@));
    with_text(l, "Rope freq base: "@, rope_base)
}

/// What metadata says of a model.
pub fn describe_metadata(metadata: &ModelMetadata, rope_base: Option<&str>) -> (r: Vec<String>)
    ensures
        texts(r@) == model_facts(
            *metadata,
            match rope_base {
                Some(t) => Some(t@),
                None => None,
            },
        ),
{
    let mut lines: Vec<String> = Vec::new();
    assert(texts(lines@) =~= Seq::empty());
    add_text(&mut lines, "Name: ", metadata.get_str("general.name"));
    add_text(&mut lines, "Architecture: ", metadata.architecture());
    add_number(&mut lines, "Context length: ", metadata.context_length());
    add_number(&mut lines, "Layers: ", metadata.num_layers());
    add_number(&mut lines, "Attention heads: ", metadata.num_attention_heads());
    add_number(&mut lines, "KV heads: ", metadata.num_key_value_heads());
    add_number(&mut lines, "Hidden size: ", metadata.hidden_size());
    add_number(&mut lines, "FFN dimension: ", metadata.feed_forward_size());
    add_number(&mut lines, "Vocabulary size: ", metadata.vocab_size());
    add_text(&mut lines, "Rope freq base: ", rope_base);
    lines
}

/// How many tensors are listed of a model.
pub const LISTED_TENSORS: usize = 20;

/// The line of a tensor in a list.
pub fn tensor_line(tensor: &TensorInfo) -> (r: String)
    requires
        shape_fits(tensor.shape@),
        tensor.data_type.spec_bytes(shape_product(tensor.shape@)) <= usize::MAX,
    ensures
        r@ == "  "@ + left_aligned(tensor.name@, 50) + " "@ + size_text(
            tensor.data_type.spec_bytes(shape_product(tensor.shape@)),
        ) + " ["@ + tensor.data_type.spec_name() + "]"@,
{
    let mut line = "  ".to_string();
    line.append(left_align(tensor.name.as_str(), 50).as_str());
    line.append(" ");
    line.append(format_size(tensor.data_size()).as_str());
    line.append(" [");
    line.append(tensor.data_type.name());
    line.append("]");
    line
}

/// The dimensions of a shape, in decimal notation.
pub open spec fn dimension_texts(shape: Seq<usize>) -> Seq<Seq<char>> {
    Seq::new(shape.len(), |i: int| decimal(shape[i] as nat))
}

/// A shape in words.
pub fn shape_text(shape: &Vec<usize>) -> (r: String)
    ensures
        r@ == joined(dimension_texts(shape@), " x "@),
{
    let mut out = String::new();
    let ghost all = dimension_texts(shape@);
    let mut i: usize = 0;
    assert(out@ =~= joined(all.take(0), " x "@));
    while i < shape.len()
        invariant
            i <= shape@.len(),
            all == dimension_texts(shape@),
            out@ == joined(all.take(i as int), " x "@),
        decreases shape@.len() - i,
    {
        if i > 0 {
            out.append(" x ");
        }
        out.append(decimal_string(shape[i] as u64).as_str());
        assert(all.take(i + 1).drop_last() =~= all.take(i as int));
        assert(all.take(i + 1).last() == decimal(shape@[i as int] as nat));
        assert(out@ =~= joined(all.take(i + 1), " x "@));
        i += 1;
    }
    assert(all.take(i as int) =~= all);
    out
}

/// The line of a safetensors tensor in a list.
pub fn safetensor_line(name: &str, shape: &Vec<usize>, dtype: &str) -> (r: String)
    ensures
        r@ == "  "@ + left_aligned(name@, 50) + " "@ + joined(dimension_texts(shape@), " x "@)
            + " ["@ + dtype@ + "]"@,
{
    let mut line = "  ".to_string();
    line.append(left_align(name, 50).as_str());
    line.append(" ");
    line.append(shape_text(shape).as_str());
    line.append(" [");
    line.append(dtype);
    line.append("]");
    line
}

/// The line for the tensors that are not listed, if there are any.
pub fn more_tensors(count: usize) -> (r: Option<String>)
    ensures
        match r {
            Some(line) => count > LISTED_TENSORS && line@ == "  ... and "@ + decimal(
                (count - LISTED_TENSORS) as nat,
            ) + " more tensors"@,
            None => count <= LISTED_TENSORS,
        },
{
    if count <= LISTED_TENSORS {
        return None;
    }
    let mut line = "  ... and ".to_string();
    line.append(decimal_string((count - LISTED_TENSORS) as u64).as_str());
    line.append(" more tensors");
    Some(line)
}

/// A backend that can run is asked for by its name, on every machine. A backend that is
/// planned cannot run under its name.
pub proof fn backends_are_asked_for_by_name(b: BackendType, apple_silicon: bool)
    ensures
        b is CpuSimd || b is Metal ==> backend_named(b.spec_name(), apple_silicon) == b
            && !is_planned(b.spec_name()),
        is_planned(b.spec_name()) <==> b is Cuda || b is Vulkan || b is WebGpu,
        backend_named("cpu"@, apple_silicon) == BackendType::CpuSimd,
{
    reveal_strlit("cpu-simd");
    reveal_strlit("cpu");
    reveal_strlit("metal");
    reveal_strlit("cuda");
    reveal_strlit("vulkan");
    reveal_strlit("webgpu");
    assert("cpu-simd"@.len() == 8 && "cpu"@.len() == 3 && "metal"@.len() == 5 && "cuda"@.len() == 4);
    assert("vulkan"@.len() == 6 && "webgpu"@.len() == 6);
}

/// Any other name stands for the backend of the machine.
pub proof fn other_names_are_left_to_the_machine(name: Seq<char>)
    requires
        name != "cpu"@,
        name != "cpu-simd"@,
        name != "metal"@,
    ensures
        backend_named(name, true) == BackendType::Metal,
        backend_named(name, false) == BackendType::CpuSimd,
{
}

/// Underscores become hyphens, and all else stays.
pub proof fn underscores_become_hyphens(s: Seq<char>, i: int)
    requires
        0 <= i < s.len(),
    ensures
        hyphenated(s).len() == s.len(),
        hyphenated(s)[i] != '_',
        s[i] == '_' ==> hyphenated(s)[i] == '-',
        s[i] != '_' ==> hyphenated(s)[i] == s[i],
{
}

/// What is said of a model has a line for each thing that is known, behind its label, and
/// none for what is not.
pub proof fn known_facts_get_a_line(
    lines: Seq<Seq<char>>,
    label: Seq<char>,
    text: Option<Seq<char>>,
    size: Option<usize>,
)
    ensures
        with_text(lines, label, text).take(lines.len() as int) == lines,
        with_text(lines, label, text).len() == lines.len() + if text is Some {
            1int
        } else {
            0
        },
        text matches Some(t) ==> with_text(lines, label, text).last() == label + t,
        with_number(lines, label, size).take(lines.len() as int) == lines,
        with_number(lines, label, size).len() == lines.len() + if size is Some {
            1int
        } else {
            0
        },
        size matches Some(n) ==> with_number(lines, label, size).last() == label + decimal(
            n as nat,
        ),
{
    assert(with_text(lines, label, text).take(lines.len() as int) =~= lines);
    assert(with_number(lines, label, size).take(lines.len() as int) =~= lines);
}

/// A shape is told by its dimensions in their order.
pub proof fn shapes_are_told_in_order(shape: Seq<usize>, n: usize)
    requires
        shape.len() > 0,
    ensures
        joined(dimension_texts(shape.push(n)), " x "@) == joined(dimension_texts(shape), " x "@)
            + " x "@ + decimal(n as nat),
        joined(dimension_texts(seq![n]), " x "@) == decimal(n as nat),
{
    let all = dimension_texts(shape.push(n));
    assert(all.drop_last() =~= dimension_texts(shape));
    assert(all.last() == decimal(n as nat));
}

} // verus!
