//! Models that can be downloaded.

use crate::text::{
    chars_of, contains_str, contains_text, decimal, decimal_string, string_from, texts,
};
use vstd::prelude::*;

verus! {

/// A file of a model repository.
#[derive(Debug)]
pub struct ModelRepo {
    pub repo_id: String,
    pub filename: String,
    pub description: String,
}

/// A file of a model repository, with its texts as sequences.
#[verifier::ext_equal]
pub struct RepoView {
    pub repo_id: Seq<char>,
    pub filename: Seq<char>,
    pub description: Seq<char>,
}

impl View for ModelRepo {
    type V = RepoView;

    open spec fn view(&self) -> RepoView {
        RepoView {
            repo_id: self.repo_id@,
            filename: self.filename@,
            description: self.description@,
        }
    }
}

/// The views of a list of files.
pub open spec fn repo_views(v: Seq<ModelRepo>) -> Seq<RepoView> {
    Seq::new(v.len(), |i: int| v[i]@)
}

impl ModelRepo {
    pub fn new(repo_id: &str, filename: &str, description: &str) -> (r: Self)
        ensures
            r@ == (RepoView {
                repo_id: repo_id@,
                filename: filename@,
                description: description@,
            }),
    {
        ModelRepo {
            repo_id: repo_id.to_string(),
            filename: filename.to_string(),
            description: description.to_string(),
        }
    }
}

/// The models that are known: small ones, in several quantizations.
pub open spec fn known_models() -> Seq<RepoView> {
    seq![
        RepoView {
            repo_id: "Qwen/Qwen2.5-1.5B-Instruct-GGUF"@,
            filename: "qwen2.5-1.5b-instruct-q4_k_m.gguf"@,
            description: "Qwen 2.5 1.5B - Q4_K_M quantization"@,
        },
        RepoView {
            repo_id: "Qwen/Qwen2.5-1.5B-Instruct-GGUF"@,
            filename: "qwen2.5-1.5b-instruct-q5_k_m.gguf"@,
            description: "Qwen 2.5 1.5B - Q5_K_M quantization"@,
        },
        RepoView {
            repo_id: "Qwen/Qwen2.5-1.5B-Instruct-GGUF"@,
            filename: "qwen2.5-1.5b-instruct-q6_k.gguf"@,
            description: "Qwen 2.5 1.5B - Q6_K quantization"@,
        },
        RepoView {
            repo_id: "Qwen/Qwen2.5-1.5B-Instruct-GGUF"@,
            filename: "qwen2.5-1.5b-instruct-q8_0.gguf"@,
            description: "Qwen 2.5 1.5B - Q8_0 quantization"@,
        },
        RepoView {
            repo_id: "Qwen/Qwen2.5-1.5B-Instruct-GGUF"@,
            filename: "qwen2.5-1.5b-instruct-q2_k.gguf"@,
            description: "Qwen 2.5 1.5B - Q2_K quantization (smallest)"@,
        },
        RepoView {
            repo_id: "Qwen/Qwen2.5-1.5B-Instruct-GGUF"@,
            filename: "qwen2.5-1.5b-instruct-q3_k_m.gguf"@,
            description: "Qwen 2.5 1.5B - Q3_K_M quantization"@,
        },
        RepoView {
            repo_id: "Qwen/Qwen2.5-1.5B-Instruct-GGUF"@,
            filename: "qwen2.5-1.5b-instruct-q3_k_s.gguf"@,
            description: "Qwen 2.5 1.5B - Q3_K_S quantization"@,
        },
        RepoView {
            repo_id: "bartowski/Qwen2.5-1.5B-Instruct-GGUF"@,
            filename: "qwen2.5-1.5b-instruct-iq2_xs.gguf"@,
            description: "Qwen 2.5 1.5B - IQ2_XS (extreme quantization)"@,
        },
        RepoView {
            repo_id: "mlx-community/Qwen2.5-1.5B-Instruct-4bit"@,
            filename: "model.safetensors"@,
            description: "Qwen 2.5 1.5B - MLX 4-bit quantized (safetensors)"@,
        },
        RepoView {
            repo_id: "mlx-community/Qwen2.5-1.5B-Instruct-8bit"@,
            filename: "model.safetensors"@,
            description: "Qwen 2.5 1.5B - MLX 8-bit quantized (safetensors)"@,
        },
    ]
}

/// The models that are known.
pub fn available_models() -> (r: Vec<ModelRepo>)
    ensures
        repo_views(r@) == known_models(),
{
    let mut models: Vec<ModelRepo> = Vec::new();
    models.push(
        ModelRepo::new(
            "Qwen/Qwen2.5-1.5B-Instruct-GGUF",
            "qwen2.5-1.5b-instruct-q4_k_m.gguf",
            "Qwen 2.5 1.5B - Q4_K_M quantization",
        ),
    );
    models.push(
        ModelRepo::new(
            "Qwen/Qwen2.5-1.5B-Instruct-GGUF",
            "qwen2.5-1.5b-instruct-q5_k_m.gguf",
            "Qwen 2.5 1.5B - Q5_K_M quantization",
        ),
    );
    models.push(
        ModelRepo::new(
            "Qwen/Qwen2.5-1.5B-Instruct-GGUF",
            "qwen2.5-1.5b-instruct-q6_k.gguf",
            "Qwen 2.5 1.5B - Q6_K quantization",
        ),
    );
    models.push(
        ModelRepo::new(
            "Qwen/Qwen2.5-1.5B-Instruct-GGUF",
            "qwen2.5-1.5b-instruct-q8_0.gguf",
            "Qwen 2.5 1.5B - Q8_0 quantization",
        ),
    );
    models.push(
        ModelRepo::new(
            "Qwen/Qwen2.5-1.5B-Instruct-GGUF",
            "qwen2.5-1.5b-instruct-q2_k.gguf",
            "Qwen 2.5 1.5B - Q2_K quantization (smallest)",
        ),
    );
    models.push(
        ModelRepo::new(
            "Qwen/Qwen2.5-1.5B-Instruct-GGUF",
            "qwen2.5-1.5b-instruct-q3_k_m.gguf",
            "Qwen 2.5 1.5B - Q3_K_M quantization",
        ),
    );
    models.push(
        ModelRepo::new(
            "Qwen/Qwen2.5-1.5B-Instruct-GGUF",
            "qwen2.5-1.5b-instruct-q3_k_s.gguf",
            "Qwen 2.5 1.5B - Q3_K_S quantization",
        ),
    );
    models.push(
        ModelRepo::new(
            "bartowski/Qwen2.5-1.5B-Instruct-GGUF",
            "qwen2.5-1.5b-instruct-iq2_xs.gguf",
            "Qwen 2.5 1.5B - IQ2_XS (extreme quantization)",
        ),
    );
    models.push(
        ModelRepo::new(
            "mlx-community/Qwen2.5-1.5B-Instruct-4bit",
            "model.safetensors",
            "Qwen 2.5 1.5B - MLX 4-bit quantized (safetensors)",
        ),
    );
    models.push(
        ModelRepo::new(
            "mlx-community/Qwen2.5-1.5B-Instruct-8bit",
            "model.safetensors",
            "Qwen 2.5 1.5B - MLX 8-bit quantized (safetensors)",
        ),
    );
    assert(repo_views(models@) =~= known_models());
    models
}

/// Where a file is downloaded from.
pub fn download_url(repo_id: &str, filename: &str) -> (r: String)
    ensures
        r@ == "https://huggingface.co/"@ + repo_id@ + "/resolve/main/"@ + filename@,
{
    let mut url = "https://huggingface.co/".to_string();
    url.append(repo_id);
    url.append("/resolve/main/");
    url.append(filename);
    url
}

/// The directory of models below another.
pub open spec fn models_below(base: Seq<char>) -> Seq<char> {
    if base.len() == 0 {
        "models"@
    } else if base.last() == '/' {
        base + "models"@
    } else {
        base + "/models"@
    }
}

/// The directory of models below another.
pub fn models_dir(base_dir: &str) -> (r: String)
    ensures
        r@ == models_below(base_dir@),
{
    let chars = chars_of(base_dir);
    let n: usize = chars.len();
    if n == 0 {
        return "models".to_string();
    }
    let mut out = base_dir.to_string();
    if chars[n - 1] == '/' {
        out.append("models");
    } else {
        out.append("/models");
    }
    out
}

/// One of the filters, from place `i` on, occurs in the file's name or in that of its
/// repository.
pub open spec fn any_filter(model: RepoView, filters: Seq<Seq<char>>, i: int) -> bool
    decreases filters.len() - i,
{
    if i < 0 || i >= filters.len() {
        false
    } else {
        contains_text(model.filename, filters[i]) || contains_text(model.repo_id, filters[i])
            || any_filter(model, filters, i + 1)
    }
}

/// The model is asked for. Without filters every model is.
pub open spec fn wanted(model: RepoView, filters: Seq<Seq<char>>) -> bool {
    filters.len() == 0 || any_filter(model, filters, 0)
}

/// Whether a model is asked for.
pub fn matches_filters(model: &ModelRepo, filters: &Vec<String>) -> (r: bool)
    ensures
        r == wanted(model@, texts(filters@)),
{
    let ghost all = texts(filters@);
    if filters.len() == 0 {
        return true;
    }
    let mut i: usize = 0;
    while i < filters.len()
        invariant
            i <= filters@.len(),
            all == texts(filters@),
            filters@.len() > 0,
            wanted(model@, all) == any_filter(model@, all, i as int),
        decreases filters@.len() - i,
    {
        assert(all[i as int] == filters@[i as int]@);
        if contains_str(model.filename.as_str(), filters[i].as_str()) || contains_str(
            model.repo_id.as_str(),
            filters[i].as_str(),
        ) {
            return true;
        }
        i += 1;
    }
    false
}

/// The places of the models that are asked for, in the order of the models.
pub open spec fn wanted_among(models: Seq<RepoView>, filters: Seq<Seq<char>>, n: int) -> Seq<usize>
    decreases n,
{
    if n <= 0 {
        seq![]
    } else if wanted(models[n - 1], filters) {
        wanted_among(models, filters, n - 1).push((n - 1) as usize)
    } else {
        wanted_among(models, filters, n - 1)
    }
}

/// The places of the models that are asked for.
pub fn select_models(models: &Vec<ModelRepo>, filters: &Vec<String>) -> (r: Vec<usize>)
    ensures
        r@ == wanted_among(repo_views(models@), texts(filters@), models@.len() as int),
{
    let ghost all = repo_views(models@);
    let mut out: Vec<usize> = Vec::new();
    let mut i: usize = 0;
    while i < models.len()
        invariant
            i <= models@.len(),
            all == repo_views(models@),
            out@ == wanted_among(all, texts(filters@), i as int),
        decreases models@.len() - i,
    {
        assert(all[i as int] == models@[i as int]@);
        if matches_filters(&models[i], filters) {
            out.push(i);
        }
        i += 1;
    }
    out
}

/// The lines that list a model, at a place counted from one.
pub fn model_lines(place: usize, model: &ModelRepo) -> (r: String)
    ensures
        r@ == "  "@ + decimal(place as nat) + ". "@ + model.description@ + "\n     "@
            + model.repo_id@ + " -> "@ + model.filename@ + "\n"@,
{
    let mut out = "  ".to_string();
    out.append(decimal_string(place as u64).as_str());
    out.append(". ");
    out.append(model.description.as_str());
    out.append("\n     ");
    out.append(model.repo_id.as_str());
    out.append(" -> ");
    out.append(model.filename.as_str());
    out.append("\n");
    out
}

/// The character is a decimal digit.
pub open spec fn is_digit(c: char) -> bool {
    '0' <= c <= '9'
}

/// The value of the first `n` digits.
pub open spec fn digits_value(s: Seq<char>, n: int) -> nat
    decreases n,
{
    if n <= 0 {
        0
    } else {
        digits_value(s, n - 1) * 10 + (s[n - 1] as nat - '0' as nat) as nat
    }
}

/// The text without a plus sign at its start.
pub open spec fn unsigned_part(s: Seq<char>) -> Seq<char> {
    if s.len() > 0 && s[0] == '+' {
        s.skip(1)
    } else {
        s
    }
}

/// Every character is a decimal digit.
pub open spec fn all_digits(s: Seq<char>) -> bool {
    forall|i: int| 0 <= i < s.len() ==> is_digit(#[trigger] s[i])
}

/// The number that a text stands for: digits, behind a plus sign or not, that do not
/// make too large a number.
pub open spec fn number_of(s: Seq<char>) -> Option<usize> {
    let digits = unsigned_part(s);
    if digits.len() > 0 && all_digits(digits) && digits_value(digits, digits.len() as int)
        <= usize::MAX {
        Some(digits_value(digits, digits.len() as int) as usize)
    } else {
        None
    }
}

proof fn lemma_digits_grow(s: Seq<char>, n: int, m: int)
    requires
        0 <= n <= m <= s.len(),
        all_digits(s),
    ensures
        digits_value(s, n) <= digits_value(s, m),
    decreases m,
{
    if n < m {
        lemma_digits_grow(s, n, m - 1);
        assert(is_digit(s[m - 1]));
    }
}

/// The number that a text stands for, if it stands for one.
pub fn parse_number(s: &str) -> (r: Option<usize>)
    ensures
        r == number_of(s@),
{
    let chars = chars_of(s);
    let start: usize = if chars.len() > 0 && chars[0] == '+' {
        1
    } else {
        0
    };
    let ghost digits = unsigned_part(s@);
    assert(digits =~= s@.skip(start as int));
    if chars.len() == start {
        return None;
    }
    let mut k: usize = start;
    while k < chars.len()
        invariant
            start <= k <= chars@.len(),
            chars@ == s@,
            digits == unsigned_part(s@),
            digits == s@.skip(start as int),
            forall|i: int| 0 <= i < k - start ==> is_digit(#[trigger] digits[i]),
        decreases chars@.len() - k,
    {
        if !('0' <= chars[k] && chars[k] <= '9') {
            assert(!is_digit(digits[k - start]));
            return None;
        }
        assert(digits[k - start] == chars@[k as int]);
        k += 1;
    }
    let mut value: usize = 0;
    let mut i: usize = start;
    while i < chars.len()
        invariant
            start <= i <= chars@.len(),
            chars@ == s@,
            digits == unsigned_part(s@),
            digits == s@.skip(start as int),
            digits.len() > 0,
            all_digits(digits),
            value == digits_value(digits, i - start),
        decreases chars@.len() - i,
    {
        assert(digits[i - start] == chars@[i as int]);
        assert(is_digit(digits[i - start]));
        proof {
            lemma_digits_grow(digits, i - start + 1, digits.len() as int);
        }
        let d: usize = (chars[i] as u32 - 48) as usize;
        match value.checked_mul(10) {
            Some(tens) => match tens.checked_add(d) {
                Some(v) => {
                    value = v;
                },
                None => {
                    return None;
                },
            },
            None => {
                return None;
            },
        }
        i += 1;
    }
    Some(value)
}

/// What a model identifier stands for.
#[derive(Debug)]
pub enum DownloadChoice {
    /// A model of the list, by its place.
    Listed(usize),
    /// A file of a repository.
    File { repo_id: String, filename: String },
    NotFound,
}

/// What a model identifier stands for, with its texts as sequences.
pub enum ChoiceView {
    Listed(usize),
    File { repo_id: Seq<char>, filename: Seq<char> },
    NotFound,
}

impl View for DownloadChoice {
    type V = ChoiceView;

    open spec fn view(&self) -> ChoiceView {
        match self {
            DownloadChoice::Listed(i) => ChoiceView::Listed(*i),
            DownloadChoice::File { repo_id, filename } => ChoiceView::File {
                repo_id: repo_id@,
                filename: filename@,
            },
            DownloadChoice::NotFound => ChoiceView::NotFound,
        }
    }
}

/// The first place of a slash, from place `i` on.
pub open spec fn first_slash(s: Seq<char>, i: int) -> Option<int>
    decreases s.len() - i,
{
    if i < 0 || i >= s.len() {
        None
    } else if s[i] == '/' {
        Some(i)
    } else {
        first_slash(s, i + 1)
    }
}

/// The slash between the name of a repository and that of a file. A repository's name
/// has a slash of its own where there are two.
pub open spec fn dividing_slash(s: Seq<char>) -> Option<int> {
    match first_slash(s, 0) {
        None => None,
        Some(p) => match first_slash(s, p + 1) {
            Some(q) => Some(q),
            None => Some(p),
        },
    }
}

/// The place of the first model, from place `i` on, whose file name has the text in it.
pub open spec fn named_model(models: Seq<RepoView>, text: Seq<char>, i: int) -> Option<int>
    decreases models.len() - i,
{
    if i < 0 || i >= models.len() {
        None
    } else if contains_text(models[i].filename, text) {
        Some(i)
    } else {
        named_model(models, text, i + 1)
    }
}

/// What a model identifier stands for: a place in the list, counted from one; else a
/// repository and a file; else a part of a file name in the list.
pub open spec fn chosen_model(models: Seq<RepoView>, id: Seq<char>) -> ChoiceView {
    match number_of(id) {
        Some(n) if 0 < n <= models.len() => ChoiceView::Listed((n - 1) as usize),
        _ => match dividing_slash(id) {
            Some(p) => ChoiceView::File { repo_id: id.take(p), filename: id.skip(p + 1) },
            None => match named_model(models, id, 0) {
                Some(i) => ChoiceView::Listed(i as usize),
                None => ChoiceView::NotFound,
            },
        },
    }
}

fn find_slash(chars: &Vec<char>, from: usize) -> (r: Option<usize>)
    requires
        from <= chars@.len(),
    ensures
        match r {
            Some(p) => first_slash(chars@, from as int) == Some(p as int) && from <= p
                < chars@.len(),
            None => first_slash(chars@, from as int) is None,
        },
{
    let mut i: usize = from;
    while i < chars.len()
        invariant
            from <= i <= chars@.len(),
            first_slash(chars@, from as int) == first_slash(chars@, i as int),
        decreases chars@.len() - i,
    {
        if chars[i] == '/' {
            return Some(i);
        }
        i += 1;
    }
    None
}

/// What a model identifier stands for.
pub fn choose_model(models: &Vec<ModelRepo>, id: &str) -> (r: DownloadChoice)
    ensures
        r@ == chosen_model(repo_views(models@), id@),
{
    let ghost all = repo_views(models@);
    match parse_number(id) {
        Some(n) => {
            if 0 < n && n <= models.len() {
                return DownloadChoice::Listed(n - 1);
            }
        },
        None => {},
    }
    let chars = chars_of(id);
    match find_slash(&chars, 0) {
        Some(p) => {
            let at: usize = match find_slash(&chars, p + 1) {
                Some(q) => q,
                None => p,
            };
            let end: usize = chars.len();
            assert(at < end);
            let repo_id = string_from(&chars, 0, at);
            let filename = string_from(&chars, at + 1, end);
            assert(repo_id@ =~= id@.take(at as int));
            assert(filename@ =~= id@.skip(at + 1));
            return DownloadChoice::File { repo_id, filename };
        },
        None => {},
    }
    let mut i: usize = 0;
    while i < models.len()
        invariant
            i <= models@.len(),
            all == repo_views(models@),
            dividing_slash(id@) is None,
            match number_of(id@) {
                Some(n) => !(0 < n <= models@.len()),
                None => true,
            },
            named_model(all, id@, 0) == named_model(all, id@, i as int),
        decreases models@.len() - i,
    {
        assert(all[i as int] == models@[i as int]@);
        if contains_str(models[i].filename.as_str(), id) {
            return DownloadChoice::Listed(i);
        }
        i += 1;
    }
    DownloadChoice::NotFound
}

} // verus!
