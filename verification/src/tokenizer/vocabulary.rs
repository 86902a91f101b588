//! The tokenizer of a model's vocabulary.

use crate::gguf::metadata::{first_of, ModelMetadata};
use crate::gguf::value::{GgufValue, ValueView};
use crate::names::NameMap;
use crate::text::{
    chars_of, contains_char, is_whitespace, join_words, push_char, replace_text, string_from,
    texts, to_lower,
};
use crate::tokenizer::accents::strip_common_accents;
use crate::tokenizer::byte::{tokens_of_bytes, ByteTokenizer, Tokenizer};
use crate::tokenizer::model::{
    best_pair, greedy_tokens, joined, lemma_longest, lemma_no_longer, lemma_token_ids, lone_tokens,
    longest_token, merge_ranks, merged, pair_rank, piece_tokens, single_chars, token_ids,
    token_texts, BehaviorView, VocabularyView,
};
use vstd::hash_map::StringHashMap;
use vstd::prelude::*;

verus! {

/// Numbers of tokens with a meaning of their own.
#[derive(Debug, Clone, Copy, PartialEq, Eq, Structural)]
pub struct SpecialTokenIds {
    pub bos: Option<u32>,
    pub eos: Option<u32>,
    pub unk: Option<u32>,
    pub sep: Option<u32>,
    pub pad: Option<u32>,
}

/// How text is treated ahead of encoding.
#[derive(Debug, PartialEq, Eq)]
pub struct TokenizerBehavior {
    pub lowercase: bool,
    pub strip_accents: bool,
    pub byte_level: bool,
    pub add_prefix_space: bool,
    pub collapse_whitespace: bool,
    pub space_marker: Option<String>,
}

/// The text of an optional string.
pub open spec fn opt_text(s: Option<String>) -> Option<Seq<char>> {
    match s {
        Some(s) => Some(s@),
        None => None,
    }
}

impl View for TokenizerBehavior {
    type V = BehaviorView;

    open spec fn view(&self) -> BehaviorView {
        BehaviorView {
            lowercase: self.lowercase,
            strip_accents: self.strip_accents,
            byte_level: self.byte_level,
            add_prefix_space: self.add_prefix_space,
            collapse_whitespace: self.collapse_whitespace,
            space_marker: opt_text(self.space_marker),
        }
    }
}

/// The tokenizer of a model's vocabulary.
pub struct GgufTokenizer {
    tokens: Vec<String>,
    ids: StringHashMap<u32>,
    longest: usize,
    ranks: StringHashMap<usize>,
    special_tokens: SpecialTokenIds,
    chat_template: Option<String>,
    behavior: TokenizerBehavior,
}

impl View for GgufTokenizer {
    type V = VocabularyView;

    closed spec fn view(&self) -> VocabularyView {
        VocabularyView {
            tokens: texts(self.tokens@),
            ranks: self.ranks@,
            special_tokens: self.special_tokens,
            chat_template: opt_text(self.chat_template),
            behavior: self.behavior@,
        }
    }
}

/// The list of texts stored under a key.
pub open spec fn lookup_texts(m: Map<Seq<char>, ValueView>, key: Seq<char>) -> Option<
    Seq<Seq<char>>,
> {
    if m.contains_key(key) && m[key] is StringVec {
        Some(m[key]->StringVec_0)
    } else {
        None
    }
}

/// The token number stored under a key, in one of four integer types, where a 32-bit
/// unsigned integer can hold it.
pub open spec fn lookup_token(m: Map<Seq<char>, ValueView>, key: Seq<char>) -> Option<u32> {
    if !m.contains_key(key) {
        None
    } else {
        match m[key] {
            ValueView::U32(v) => Some(v),
            ValueView::I32(v) => if 0 <= v {
                Some(v as u32)
            } else {
                None
            },
            ValueView::U64(v) => if v <= u32::MAX {
                Some(v as u32)
            } else {
                None
            },
            ValueView::I64(v) => if 0 <= v <= u32::MAX {
                Some(v as u32)
            } else {
                None
            },
            _ => None,
        }
    }
}

/// Whether a truth value is stored under a key and is true.
pub open spec fn lookup_flag(m: Map<Seq<char>, ValueView>, key: Seq<char>) -> bool {
    m.contains_key(key) && m[key] == ValueView::Bool(true)
}

/// The mark that a vocabulary has for spaces.
pub open spec fn marker_in(tokens: Seq<Seq<char>>) -> Option<Seq<char>> {
    if exists|i: int| 0 <= i < tokens.len() && (#[trigger] tokens[i]).contains('\u{0120}') {
        Some(seq!['\u{0120}'])
    } else if exists|i: int| 0 <= i < tokens.len() && (#[trigger] tokens[i]).contains('\u{2581}') {
        Some(seq!['\u{2581}'])
    } else {
        None
    }
}

/// The template that is stored under the first of its two keys that is there.
pub open spec fn stored_template(m: Map<Seq<char>, ValueView>) -> Option<Seq<char>> {
    if m.contains_key("tokenizer.chat_template"@) {
        crate::gguf::metadata::lookup_str(m, "tokenizer.chat_template"@)
    } else {
        crate::gguf::metadata::lookup_str(m, "tokenizer.ggml.chat_template"@)
    }
}

/// The special tokens that metadata names.
pub open spec fn stored_special(m: Map<Seq<char>, ValueView>) -> SpecialTokenIds {
    SpecialTokenIds {
        bos: lookup_token(m, "tokenizer.ggml.bos_token_id"@),
        eos: lookup_token(m, "tokenizer.ggml.eos_token_id"@),
        unk: lookup_token(m, "tokenizer.ggml.unknown_token_id"@),
        sep: first_of(
            lookup_token(m, "tokenizer.ggml.seperator_token_id"@),
            lookup_token(m, "tokenizer.ggml.separator_token_id"@),
        ),
        pad: lookup_token(m, "tokenizer.ggml.padding_token_id"@),
    }
}

/// The behavior that metadata asks for.
pub open spec fn stored_behavior(m: Map<Seq<char>, ValueView>, tokens: Seq<Seq<char>>) -> BehaviorView {
    BehaviorView {
        lowercase: lookup_flag(m, "nexus.tokenizer.normalizer.lowercase"@),
        strip_accents: lookup_flag(m, "nexus.tokenizer.normalizer.strip_accents"@),
        byte_level: lookup_flag(m, "nexus.tokenizer.pre_tokenizer.byte_level"@),
        add_prefix_space: lookup_flag(m, "nexus.tokenizer.pre_tokenizer.add_prefix_space"@),
        collapse_whitespace: lookup_flag(m, "nexus.tokenizer.normalizer.collapse_whitespace"@),
        space_marker: first_of(
            crate::gguf::metadata::lookup_str(m, "nexus.tokenizer.space_marker"@),
            marker_in(tokens),
        ),
    }
}

/// The tokenizer that metadata describes, if it has a vocabulary with a token in it.
pub open spec fn stored_tokenizer(m: Map<Seq<char>, ValueView>) -> Option<VocabularyView> {
    match lookup_texts(m, "tokenizer.ggml.tokens"@) {
        None => None,
        Some(tokens) => if tokens.len() == 0 {
            None
        } else {
            Some(
                VocabularyView {
                    tokens,
                    ranks: match lookup_texts(m, "tokenizer.ggml.merges"@) {
                        Some(merges) => merge_ranks(merges),
                        None => Map::empty(),
                    },
                    special_tokens: stored_special(m),
                    chat_template: stored_template(m),
                    behavior: stored_behavior(m, tokens),
                },
            )
        },
    }
}

fn copy_texts(v: &Vec<String>) -> (r: Vec<String>)
    ensures
        texts(r@) == texts(v@),
{
    let r = v.clone();
    assert(texts(r@) =~= texts(v@));
    r
}

fn metadata_texts(m: &NameMap<GgufValue>, key: &str) -> (r: Option<Vec<String>>)
    ensures
        match r {
            Some(v) => lookup_texts(m@, key@) == Some(texts(v@)),
            None => lookup_texts(m@, key@) is None,
        },
{
    match m.get(key) {
        Some(GgufValue::StringVec(v)) => Some(copy_texts(v)),
        _ => None,
    }
}

fn metadata_text(m: &NameMap<GgufValue>, key: &str) -> (r: Option<String>)
    ensures
        opt_text(r) == crate::gguf::metadata::lookup_str(m@, key@),
{
    match m.get(key) {
        Some(GgufValue::String(v)) => Some(v.clone()),
        _ => None,
    }
}

fn metadata_token_id(m: &NameMap<GgufValue>, key: &str) -> (r: Option<u32>)
    ensures
        r == lookup_token(m@, key@),
{
    match m.get(key) {
        Some(GgufValue::U32(v)) => Some(*v),
        Some(GgufValue::I32(v)) => if 0 <= *v {
            Some(*v as u32)
        } else {
            None
        },
        Some(GgufValue::U64(v)) => if *v <= u32::MAX as u64 {
            Some(*v as u32)
        } else {
            None
        },
        Some(GgufValue::I64(v)) => if 0 <= *v && *v <= u32::MAX as i64 {
            Some(*v as u32)
        } else {
            None
        },
        _ => None,
    }
}

fn metadata_bool(m: &NameMap<GgufValue>, key: &str) -> (r: bool)
    ensures
        r == lookup_flag(m@, key@),
{
    match m.get(key) {
        Some(GgufValue::Bool(v)) => *v,
        _ => false,
    }
}

fn any_contains(tokens: &Vec<String>, c: char) -> (r: bool)
    ensures
        r == exists|i: int|
            0 <= i < texts(tokens@).len() && (#[trigger] texts(tokens@)[i]).contains(c),
{
    let mut i: usize = 0;
    while i < tokens.len()
        invariant
            i <= tokens@.len(),
            forall|j: int| 0 <= j < i ==> !(#[trigger] texts(tokens@)[j]).contains(c),
        decreases tokens@.len() - i,
    {
        if contains_char(tokens[i].as_str(), c) {
            assert(texts(tokens@)[i as int].contains(c));
            return true;
        }
        i += 1;
    }
    false
}

fn single_char(c: char) -> (r: String)
    ensures
        r@ == seq![c],
{
    let mut s = String::new();
    push_char(&mut s, c);
    assert(s@ =~= seq![c]);
    s
}

fn detect_space_marker(tokens: &Vec<String>) -> (r: Option<String>)
    ensures
        opt_text(r) == marker_in(texts(tokens@)),
{
    if any_contains(tokens, '\u{0120}') {
        Some(single_char('\u{0120}'))
    } else if any_contains(tokens, '\u{2581}') {
        Some(single_char('\u{2581}'))
    } else {
        None
    }
}

fn build_ids(tokens: &Vec<String>) -> (r: (StringHashMap<u32>, usize))
    ensures
        r.0@ == token_ids(texts(tokens@)),
        forall|i: int| 0 <= i < tokens@.len() ==> (#[trigger] tokens@[i])@.len() <= r.1,
{
    let mut ids: StringHashMap<u32> = StringHashMap::new();
    let mut longest: usize = 0;
    let ghost ts = texts(tokens@);
    let mut i: usize = 0;
    while i < tokens.len()
        invariant
            i <= tokens@.len(),
            ts == texts(tokens@),
            ids@ == token_ids(ts.take(i as int)),
            forall|j: int| 0 <= j < i ==> (#[trigger] tokens@[j])@.len() <= longest,
        decreases tokens@.len() - i,
    {
        let n: usize = chars_of(tokens[i].as_str()).len();
        if n > longest {
            longest = n;
        }
        ids.insert(tokens[i].clone(), i as u32);
        assert(ts.take(i + 1).drop_last() =~= ts.take(i as int));
        i += 1;
    }
    assert(ts.take(i as int) =~= ts);
    (ids, longest)
}

fn build_ranks(merges: &Vec<String>) -> (r: StringHashMap<usize>)
    ensures
        r@ == merge_ranks(texts(merges@)),
{
    let mut ranks: StringHashMap<usize> = StringHashMap::new();
    let ghost ms = texts(merges@);
    let mut i: usize = 0;
    while i < merges.len()
        invariant
            i <= merges@.len(),
            ms == texts(merges@),
            ranks@ == merge_ranks(ms.take(i as int)),
        decreases merges@.len() - i,
    {
        assert(ms.take(i + 1).drop_last() =~= ms.take(i as int));
        if contains_char(merges[i].as_str(), ' ') {
            ranks.insert(merges[i].clone(), i);
        }
        i += 1;
    }
    assert(ms.take(i as int) =~= ms);
    ranks
}

impl GgufTokenizer {
    #[verifier::type_invariant]
    spec fn wf(self) -> bool {
        &&& self.ids@ == token_ids(texts(self.tokens@))
        &&& forall|i: int|
            0 <= i < self.tokens@.len() ==> (#[trigger] self.tokens@[i])@.len() <= self.longest
    }

    /// The tokenizer that metadata describes.
    pub fn from_metadata(metadata: &ModelMetadata) -> (r: Option<Self>)
        ensures
            match r {
                Some(t) => stored_tokenizer(metadata.metadata@) == Some(t@),
                None => stored_tokenizer(metadata.metadata@) is None,
            },
    {
        let m = &metadata.metadata;
        let tokens = match metadata_texts(m, "tokenizer.ggml.tokens") {
            Some(v) => v,
            None => {
                return None;
            },
        };
        if tokens.len() == 0 {
            return None;
        }
        let (ids, longest) = build_ids(&tokens);
        let ranks = match metadata_texts(m, "tokenizer.ggml.merges") {
            Some(v) => build_ranks(&v),
            None => StringHashMap::new(),
        };
        let sep = match metadata_token_id(m, "tokenizer.ggml.seperator_token_id") {
            Some(id) => Some(id),
            None => metadata_token_id(m, "tokenizer.ggml.separator_token_id"),
        };
        let special_tokens = SpecialTokenIds {
            bos: metadata_token_id(m, "tokenizer.ggml.bos_token_id"),
            eos: metadata_token_id(m, "tokenizer.ggml.eos_token_id"),
            unk: metadata_token_id(m, "tokenizer.ggml.unknown_token_id"),
            sep,
            pad: metadata_token_id(m, "tokenizer.ggml.padding_token_id"),
        };
        let chat_template = if m.contains_key("tokenizer.chat_template") {
            metadata_text(m, "tokenizer.chat_template")
        } else {
            metadata_text(m, "tokenizer.ggml.chat_template")
        };
        let space_marker = match metadata_text(m, "nexus.tokenizer.space_marker") {
            Some(marker) => Some(marker),
            None => detect_space_marker(&tokens),
        };
        let behavior = TokenizerBehavior {
            lowercase: metadata_bool(m, "nexus.tokenizer.normalizer.lowercase"),
            strip_accents: metadata_bool(m, "nexus.tokenizer.normalizer.strip_accents"),
            byte_level: metadata_bool(m, "nexus.tokenizer.pre_tokenizer.byte_level"),
            add_prefix_space: metadata_bool(m, "nexus.tokenizer.pre_tokenizer.add_prefix_space"),
            collapse_whitespace: metadata_bool(
                m,
                "nexus.tokenizer.normalizer.collapse_whitespace",
            ),
            space_marker,
        };
        Some(
            GgufTokenizer { tokens, ids, longest, ranks, special_tokens, chat_template, behavior },
        )
    }

    pub fn special_tokens(&self) -> (r: SpecialTokenIds)
        ensures
            r == self@.special_tokens,
    {
        self.special_tokens
    }

    pub fn chat_template(&self) -> (r: Option<&str>)
        ensures
            match r {
                Some(t) => self@.chat_template == Some(t@),
                None => self@.chat_template is None,
            },
    {
        match &self.chat_template {
            Some(t) => Some(t.as_str()),
            None => None,
        }
    }

    pub fn behavior(&self) -> (r: &TokenizerBehavior)
        ensures
            r@ == self@.behavior,
    {
        &self.behavior
    }

    /// A text as it is encoded.
    pub fn prepare_text(&self, text: &str) -> (r: String)
        ensures
            r@ == self@.behavior.prepare(text@),
    {
        let mut s = text.to_string();
        if self.behavior.lowercase {
            s = to_lower(s.as_str());
        }
        if self.behavior.strip_accents {
            s = strip_common_accents(s.as_str());
        }
        if self.behavior.collapse_whitespace {
            s = join_words(s.as_str());
        }
        if self.behavior.byte_level && self.behavior.add_prefix_space {
            let chars = chars_of(s.as_str());
            if chars.len() > 0 && !is_whitespace(chars[0]) {
                let mut longer = single_char(' ');
                longer.append(s.as_str());
                s = longer;
            }
        }
        match &self.behavior.space_marker {
            Some(marker) => {
                let space = single_char(' ');
                replace_text(s.as_str(), space.as_str(), marker.as_str())
            },
            None => s,
        }
    }

    /// The longest token that starts at a place: its number and its length.
    fn longest_at(&self, chars: &Vec<char>, at: usize) -> (r: Option<(u32, usize)>)
        requires
            at < chars@.len(),
        ensures
            ({
                let s = chars@.skip(at as int);
                let ids = token_ids(self@.tokens);
                let n = longest_token(ids, s, s.len());
                match r {
                    Some((id, len)) => n > 0 && len == n && id == ids[s.take(n as int)],
                    None => n == 0,
                }
            }),
    {
        proof {
            use_type_invariant(self);
        }
        let ghost s = chars@.skip(at as int);
        let ghost ids = token_ids(self@.tokens);
        let left: usize = chars.len() - at;
        let mut n: usize = if self.longest < left {
            self.longest
        } else {
            left
        };
        proof {
            assert forall|k: nat| n < k <= s.len() implies !ids.contains_key(
                #[trigger] s.take(k as int),
            ) by {
                let t = s.take(k as int);
                lemma_token_ids(self@.tokens, t);
                if self@.tokens.contains(t) {
                    let j = self@.tokens.index_of(t);
                    assert(self.tokens@[j]@ == t);
                    assert(self.tokens@[j]@.len() <= self.longest);
                }
            }
            lemma_no_longer(ids, s, s.len(), n as nat);
        }
        while n > 0
            invariant
                at + n <= chars@.len() <= usize::MAX,
                s == chars@.skip(at as int),
                ids == token_ids(self@.tokens),
                ids == self.ids@,
                longest_token(ids, s, s.len()) == longest_token(ids, s, n as nat),
            decreases n,
        {
            let piece = string_from(chars, at, at + n);
            assert(piece@ =~= s.take(n as int));
            match self.ids.get(piece.as_str()) {
                Some(id) => {
                    return Some((*id, n));
                },
                None => {},
            }
            n -= 1;
        }
        None
    }

    fn encode_greedy(&self, chars: &Vec<char>) -> (r: Vec<u32>)
        ensures
            r@ == greedy_tokens(token_ids(self@.tokens), self@.special_tokens.unk, chars@),
    {
        let ghost ids = token_ids(self@.tokens);
        let ghost unk = self@.special_tokens.unk;
        let mut out: Vec<u32> = Vec::new();
        let mut i: usize = 0;
        assert(chars@.skip(0) =~= chars@);
        assert(out@ + greedy_tokens(ids, unk, chars@) =~= greedy_tokens(ids, unk, chars@));
        while i < chars.len()
            invariant
                i <= chars@.len(),
                ids == token_ids(self@.tokens),
                unk == self@.special_tokens.unk,
                out@ + greedy_tokens(ids, unk, chars@.skip(i as int)) == greedy_tokens(
                    ids,
                    unk,
                    chars@,
                ),
            decreases chars@.len() - i,
        {
            let ghost s = chars@.skip(i as int);
            let ghost before = out@;
            proof {
                lemma_longest(ids, s, s.len());
            }
            match self.longest_at(chars, i) {
                Some((id, n)) => {
                    out.push(id);
                    assert(s.skip(n as int) =~= chars@.skip(i + n));
                    assert(out@ + greedy_tokens(ids, unk, s.skip(n as int)) =~= before
                        + greedy_tokens(ids, unk, s));
                    i = i + n;
                },
                None => {
                    match self.special_tokens.unk {
                        Some(id) => {
                            out.push(id);
                            assert(out@ =~= before + lone_tokens(unk, chars@[i as int]));
                        },
                        None => {
                            let one = single_char(chars[i]);
                            let mut more = tokens_of_bytes(one.as_str().as_bytes());
                            out.append(&mut more);
                            assert(out@ =~= before + lone_tokens(unk, chars@[i as int]));
                        },
                    }
                    assert(s.skip(1) =~= chars@.skip(i + 1));
                    assert(out@ + greedy_tokens(ids, unk, s.skip(1)) =~= before + greedy_tokens(
                        ids,
                        unk,
                        s,
                    ));
                    i += 1;
                },
            }
        }
        assert(chars@.skip(i as int) =~= seq![]);
        assert(out@ + seq![] =~= out@);
        out
    }

    /// The rank at which two pieces are merged.
    fn rank_of(&self, left: &str, right: &str) -> (r: Option<usize>)
        ensures
            r == pair_rank(token_ids(self@.tokens), self@.ranks, left@, right@),
    {
        proof {
            use_type_invariant(self);
        }
        if contains_char(left, ' ') {
            return None;
        }
        let mut key = left.to_string();
        push_char(&mut key, ' ');
        key.append(right);
        assert(key@ =~= left@ + seq![' '] + right@);
        match self.ranks.get(key.as_str()) {
            Some(rank) => {
                let mut whole = left.to_string();
                whole.append(right);
                if self.ids.contains_key(whole.as_str()) {
                    Some(*rank)
                } else {
                    None
                }
            },
            None => None,
        }
    }

    /// The place of the pair that is merged next.
    fn find_pair(&self, pieces: &Vec<String>) -> (r: Option<usize>)
        requires
            pieces@.len() >= 1,
        ensures
            ({
                let best = best_pair(
                    token_ids(self@.tokens),
                    self@.ranks,
                    texts(pieces@),
                    (pieces@.len() - 1) as nat,
                );
                match r {
                    Some(i) => best is Some && (best->0).0 == i && i + 1 < pieces@.len(),
                    None => best is None,
                }
            }),
    {
        let ghost ids = token_ids(self@.tokens);
        let ghost ps = texts(pieces@);
        let mut best: Option<(usize, usize)> = None;
        let mut n: usize = 0;
        while n < pieces.len() - 1
            invariant
                1 <= pieces@.len(),
                n <= pieces@.len() - 1,
                ids == token_ids(self@.tokens),
                ps == texts(pieces@),
                match best {
                    Some((i, rank)) => best_pair(ids, self@.ranks, ps, n as nat) == Some(
                        (i as int, rank),
                    ) && i < n,
                    None => best_pair(ids, self@.ranks, ps, n as nat) is None,
                },
            decreases pieces@.len() - n,
        {
            assert(ps[n as int] == pieces@[n as int]@ && ps[n + 1] == pieces@[n + 1]@);
            match self.rank_of(pieces[n].as_str(), pieces[n + 1].as_str()) {
                Some(rank) => {
                    match best {
                        Some((_, least)) => {
                            if rank < least {
                                best = Some((n, rank));
                            }
                        },
                        None => {
                            best = Some((n, rank));
                        },
                    }
                },
                None => {},
            }
            n += 1;
        }
        match best {
            Some((i, _)) => Some(i),
            None => None,
        }
    }

    fn encode_bpe(&self, chars: &Vec<char>) -> (r: Vec<u32>)
        ensures
            ({
                let ids = token_ids(self@.tokens);
                r@ == piece_tokens(
                    ids,
                    self@.special_tokens.unk,
                    merged(ids, self@.ranks, single_chars(chars@)),
                )
            }),
    {
        proof {
            use_type_invariant(self);
        }
        let ghost ids = token_ids(self@.tokens);
        let ghost unk = self@.special_tokens.unk;
        let mut pieces: Vec<String> = Vec::new();
        let mut i: usize = 0;
        while i < chars.len()
            invariant
                i <= chars@.len(),
                texts(pieces@) == single_chars(chars@).take(i as int),
            decreases chars@.len() - i,
        {
            let ghost before = texts(pieces@);
            let piece = single_char(chars[i]);
            pieces.push(piece);
            assert(texts(pieces@) =~= before.push(piece@));
            i += 1;
            assert(texts(pieces@) =~= single_chars(chars@).take(i as int));
        }
        assert(single_chars(chars@).take(i as int) =~= single_chars(chars@));
        let ghost goal = merged(ids, self@.ranks, single_chars(chars@));
        let mut stop: bool = false;
        while !stop && pieces.len() >= 2
            invariant
                ids == token_ids(self@.tokens),
                !stop ==> goal == merged(ids, self@.ranks, texts(pieces@)),
                stop ==> goal == texts(pieces@),
            decreases
                pieces@.len(),
                if stop {
                    0int
                } else {
                    1int
                },
        {
            let ghost ps = texts(pieces@);
            match self.find_pair(&pieces) {
                Some(at) => {
                    let right = pieces.remove(at + 1);
                    let mut left = pieces[at].clone();
                    left.append(right.as_str());
                    pieces.set(at, left);
                    assert(texts(pieces@) =~= joined(ps, at as int));
                },
                None => {
                    stop = true;
                },
            }
        }
        let mut out: Vec<u32> = Vec::new();
        let ghost ps = texts(pieces@);
        let mut k: usize = 0;
        assert(ps.take(0) =~= seq![]);
        while k < pieces.len()
            invariant
                k <= pieces@.len(),
                ps == texts(pieces@),
                ids == token_ids(self@.tokens),
                ids == self.ids@,
                unk == self@.special_tokens.unk,
                out@ == piece_tokens(ids, unk, ps.take(k as int)),
            decreases pieces@.len() - k,
        {
            let ghost before = out@;
            assert(ps.take(k + 1).drop_last() =~= ps.take(k as int));
            assert(ps.take(k + 1).last() == pieces@[k as int]@);
            match self.ids.get(pieces[k].as_str()) {
                Some(id) => {
                    out.push(*id);
                    assert(out@ =~= before + seq![*id]);
                },
                None => {
                    let mut more = self.encode_greedy(&chars_of(pieces[k].as_str()));
                    out.append(&mut more);
                },
            }
            k += 1;
        }
        assert(ps.take(k as int) =~= ps);
        out
    }
}

impl Tokenizer for GgufTokenizer {
    open spec fn spec_encode(&self, text: Seq<char>) -> Seq<u32> {
        self@.encode(text)
    }

    open spec fn spec_decode(&self, tokens: Seq<u32>) -> Seq<char> {
        self@.decode(tokens)
    }

    fn encode(&self, text: &str) -> (r: Vec<u32>) {
        let prepared = self.prepare_text(text);
        let chars = chars_of(prepared.as_str());
        if self.ranks.is_empty() {
            self.encode_greedy(&chars)
        } else {
            self.encode_bpe(&chars)
        }
    }

    fn decode(&self, tokens: &[u32]) -> (r: String) {
        let fallback = ByteTokenizer;
        let ghost ts = texts(self.tokens@);
        let mut out = String::new();
        let mut i: usize = 0;
        while i < tokens.len()
            invariant
                i <= tokens@.len(),
                ts == texts(self.tokens@),
                out@ == token_texts(ts, tokens@.take(i as int)),
            decreases tokens@.len() - i,
        {
            let token: u32 = tokens[i];
            assert(tokens@.take(i + 1).drop_last() =~= tokens@.take(i as int));
            if (token as u64) < self.tokens.len() as u64 {
                out.append(self.tokens[token as usize].as_str());
            } else {
                let mut one: Vec<u32> = Vec::new();
                one.push(token);
                assert(one@ =~= seq![token]);
                let piece = fallback.decode(one.as_slice());
                out.append(piece.as_str());
            }
            i += 1;
        }
        assert(tokens@.take(i as int) =~= tokens@);
        match &self.behavior.space_marker {
            Some(marker) => {
                let space = single_char(' ');
                replace_text(out.as_str(), marker.as_str(), space.as_str())
            },
            None => out,
        }
    }
}

} // verus!
