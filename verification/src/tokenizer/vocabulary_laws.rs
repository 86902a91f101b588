//! What a tokenizer takes from metadata, and what its tokens are.

use crate::gguf::value::ValueView;
use crate::text::{is_space, lower_text, occurs_at, replaced, words_joined};
use crate::tokenizer::accents::{plain_letter, without_accents};
use crate::tokenizer::byte::{byte_text, byte_tokens, token_byte, token_bytes};
use crate::tokenizer::laws::flat;
use crate::tokenizer::model::{
    best_pair, greedy_tokens, lemma_best_pair, lemma_longest, lemma_token_ids, longest_token,
    merge_ranks, merged, pair_rank, piece_tokens, token_ids, token_texts, BehaviorView,
    VocabularyView,
};
use crate::tokenizer::vocabulary::stored_tokenizer;
use vstd::prelude::*;
use vstd::utf8::encode_utf8;

verus! {

/// A text with one character put for another.
pub open spec fn swapped(s: Seq<char>, from: char, to: char) -> Seq<char> {
    Seq::new(
        s.len(),
        |i: int|
            if s[i] == from {
                to
            } else {
                s[i]
            },
    )
}

proof fn lemma_replaced_char(s: Seq<char>, a: char, b: char)
    ensures
        replaced(s, seq![a], seq![b]) == swapped(s, a, b),
    decreases s.len(),
{
    let pattern = seq![a];
    if s.len() > 0 {
        let rest = s.skip(1);
        lemma_replaced_char(rest, a, b);
        assert(s.subrange(0, 1) =~= seq![s[0]]);
        assert(occurs_at(s, pattern, 0) <==> s[0] == a) by {
            if occurs_at(s, pattern, 0) {
                assert(s.subrange(0, 1)[0] == pattern[0]);
            }
        }
        assert(swapped(s, a, b) =~= seq![swapped(s, a, b)[0]] + swapped(rest, a, b));
        assert(replaced(s, pattern, seq![b]) =~= swapped(s, a, b));
    } else {
        assert(replaced(s, pattern, seq![b]) =~= swapped(s, a, b));
    }
}

/// The vocabulary that metadata has is that list of texts.
pub open spec fn has_tokens(m: Map<Seq<char>, ValueView>, tokens: Seq<Seq<char>>) -> bool {
    &&& m.contains_key("tokenizer.ggml.tokens"@)
    &&& m["tokenizer.ggml.tokens"@] == ValueView::StringVec(tokens)
}

/// Metadata has a text under a key.
pub open spec fn has_text(m: Map<Seq<char>, ValueView>, key: Seq<char>, text: Seq<char>) -> bool {
    m.contains_key(key) && m[key] == ValueView::String(text)
}

/// Metadata has no text under a key.
pub open spec fn has_no_text(m: Map<Seq<char>, ValueView>, key: Seq<char>) -> bool {
    m.contains_key(key) ==> !(m[key] is String)
}

/// One of the texts has a character.
pub open spec fn any_has(tokens: Seq<Seq<char>>, c: char) -> bool {
    exists|i: int, j: int|
        0 <= i < tokens.len() && 0 <= j < tokens[i].len() && #[trigger] tokens[i][j] == c
}

/// A vocabulary's mark for spaces is a character: the one that is stored, or else one of
/// two that stands in a token.
pub open spec fn marks_spaces(m: Map<Seq<char>, ValueView>, tokens: Seq<Seq<char>>, c: char) -> bool {
    ||| has_text(m, "nexus.tokenizer.space_marker"@, seq![c])
    ||| {
        &&& has_no_text(m, "nexus.tokenizer.space_marker"@)
        &&& c == '\u{0120}'
        &&& any_has(tokens, '\u{0120}')
    }
    ||| {
        &&& has_no_text(m, "nexus.tokenizer.space_marker"@)
        &&& c == '\u{2581}'
        &&& any_has(tokens, '\u{2581}')
        &&& !any_has(tokens, '\u{0120}')
    }
}

/// The texts of tokens, one behind the other.
pub open spec fn spelled(tokens: Seq<Seq<char>>, ids: Seq<u32>) -> Seq<char> {
    flat(Seq::new(ids.len(), |i: int| tokens[ids[i] as int]))
}

/// The tokens are all in the vocabulary.
pub open spec fn all_known(tokens: Seq<Seq<char>>, ids: Seq<u32>) -> bool {
    forall|i: int| 0 <= i < ids.len() ==> (#[trigger] ids[i]) < tokens.len()
}

proof fn lemma_spelled(tokens: Seq<Seq<char>>, ids: Seq<u32>)
    requires
        all_known(tokens, ids),
    ensures
        token_texts(tokens, ids) == spelled(tokens, ids),
    decreases ids.len(),
{
    let parts = Seq::new(ids.len(), |i: int| tokens[ids[i] as int]);
    if ids.len() > 0 {
        let init = ids.drop_last();
        assert forall|i: int| 0 <= i < init.len() implies (#[trigger] init[i]) < tokens.len() by {
            assert(init[i] == ids[i]);
        }
        lemma_spelled(tokens, init);
        assert(parts.drop_last() =~= Seq::new(init.len(), |i: int| tokens[init[i] as int]));
        assert(ids[ids.len() - 1] < tokens.len());
        assert(parts.last() == tokens[ids.last() as int]);
    } else {
        assert(token_texts(tokens, ids) =~= spelled(tokens, ids));
    }
}

proof fn lemma_any_has(tokens: Seq<Seq<char>>, c: char)
    ensures
        any_has(tokens, c) <==> exists|i: int|
            0 <= i < tokens.len() && (#[trigger] tokens[i]).contains(c),
{
    if any_has(tokens, c) {
        let (i, j) = choose|i: int, j: int|
            0 <= i < tokens.len() && 0 <= j < tokens[i].len() && #[trigger] tokens[i][j] == c;
        assert(tokens[i].contains(c));
    }
    if exists|i: int| 0 <= i < tokens.len() && (#[trigger] tokens[i]).contains(c) {
        let i = choose|i: int| 0 <= i < tokens.len() && (#[trigger] tokens[i]).contains(c);
        let j = tokens[i].index_of(c);
        assert(tokens[i][j] == c);
    }
}

proof fn lemma_marker(m: Map<Seq<char>, ValueView>, tokens: Seq<Seq<char>>, c: char)
    requires
        has_tokens(m, tokens),
        tokens.len() > 0,
        marks_spaces(m, tokens, c),
    ensures
        stored_tokenizer(m) matches Some(v) && v.tokens == tokens && v.behavior.space_marker
            == Some(seq![c]),
{
    lemma_any_has(tokens, '\u{0120}');
    lemma_any_has(tokens, '\u{2581}');
}

/// Every mark for a space in the texts of tokens is decoded to a space, and all else as it
/// is.
pub proof fn marks_are_decoded_to_spaces(
    m: Map<Seq<char>, ValueView>,
    tokens: Seq<Seq<char>>,
    mark: char,
    ids: Seq<u32>,
)
    requires
        has_tokens(m, tokens),
        tokens.len() > 0,
        marks_spaces(m, tokens, mark),
        all_known(tokens, ids),
    ensures
        stored_tokenizer(m) matches Some(v) && v.decode(ids) == swapped(
            spelled(tokens, ids),
            mark,
            ' ',
        ),
{
    lemma_marker(m, tokens, mark);
    lemma_spelled(tokens, ids);
    lemma_replaced_char(spelled(tokens, ids), mark, ' ');
}

/// Metadata has a flag, and it is set.
pub open spec fn has_flag(m: Map<Seq<char>, ValueView>, key: Seq<char>) -> bool {
    m.contains_key(key) && m[key] == ValueView::Bool(true)
}

/// Nothing is done to texts ahead of encoding but marking spaces.
pub open spec fn takes_texts_as_they_are(m: Map<Seq<char>, ValueView>) -> bool {
    &&& !has_flag(m, "nexus.tokenizer.normalizer.lowercase"@)
    &&& !has_flag(m, "nexus.tokenizer.normalizer.strip_accents"@)
    &&& !has_flag(m, "nexus.tokenizer.normalizer.collapse_whitespace"@)
    &&& !(has_flag(m, "nexus.tokenizer.pre_tokenizer.byte_level"@) && has_flag(
        m,
        "nexus.tokenizer.pre_tokenizer.add_prefix_space"@,
    ))
}

/// A text is encoded as the text with the mark for every space is.
pub proof fn spaces_are_encoded_as_marks(
    m: Map<Seq<char>, ValueView>,
    tokens: Seq<Seq<char>>,
    mark: char,
    text: Seq<char>,
)
    requires
        has_tokens(m, tokens),
        tokens.len() > 0,
        marks_spaces(m, tokens, mark),
        takes_texts_as_they_are(m),
    ensures
        stored_tokenizer(m) matches Some(v) && v.encode(text) == v.encode(
            swapped(text, ' ', mark),
        ),
        stored_tokenizer(m) matches Some(v) && v.behavior.prepare(text) == swapped(text, ' ', mark),
{
    lemma_marker(m, tokens, mark);
    lemma_replaced_char(text, ' ', mark);
    lemma_replaced_char(swapped(text, ' ', mark), ' ', mark);
    assert(swapped(swapped(text, ' ', mark), ' ', mark) =~= swapped(text, ' ', mark));
}

/// Where a vocabulary has no mark for spaces, tokens are decoded to their texts, and texts
/// are encoded with their spaces.
pub proof fn texts_without_marks_stay(
    m: Map<Seq<char>, ValueView>,
    tokens: Seq<Seq<char>>,
    ids: Seq<u32>,
    text: Seq<char>,
)
    requires
        has_tokens(m, tokens),
        tokens.len() > 0,
        has_no_text(m, "nexus.tokenizer.space_marker"@),
        !any_has(tokens, '\u{0120}'),
        !any_has(tokens, '\u{2581}'),
        all_known(tokens, ids),
    ensures
        stored_tokenizer(m) matches Some(v) && v.decode(ids) == spelled(tokens, ids) && (
        takes_texts_as_they_are(m) ==> v.behavior.prepare(text) == text),
{
    lemma_any_has(tokens, '\u{0120}');
    lemma_any_has(tokens, '\u{2581}');
    lemma_spelled(tokens, ids);
}

/// There is a tokenizer exactly where metadata has a list of tokens that is not empty.
pub proof fn vocabularies_make_tokenizers(m: Map<Seq<char>, ValueView>)
    ensures
        stored_tokenizer(m) is Some <==> {
            &&& m.contains_key("tokenizer.ggml.tokens"@)
            &&& m["tokenizer.ggml.tokens"@] is StringVec
            &&& m["tokenizer.ggml.tokens"@]->StringVec_0.len() > 0
        },
        stored_tokenizer(m) matches Some(v) ==> v.tokens
            == m["tokenizer.ggml.tokens"@]->StringVec_0,
{
}

/// What metadata says of a token number under a key.
pub open spec fn number_under(m: Map<Seq<char>, ValueView>, key: Seq<char>, n: u32) -> bool {
    &&& m.contains_key(key)
    &&& m[key] == ValueView::U32(n) || m[key] == ValueView::U64(n as u64) || (n <= i32::MAX
        && m[key] == ValueView::I32(n as i32)) || m[key] == ValueView::I64(n as i64)
}

/// Special tokens have the numbers that metadata gives them.
pub proof fn special_tokens_are_those_stored(m: Map<Seq<char>, ValueView>, v: VocabularyView, n: u32)
    requires
        stored_tokenizer(m) == Some(v),
    ensures
        v.special_tokens.bos == Some(n) <==> number_under(m, "tokenizer.ggml.bos_token_id"@, n),
        v.special_tokens.eos == Some(n) <==> number_under(m, "tokenizer.ggml.eos_token_id"@, n),
        v.special_tokens.unk == Some(n) <==> number_under(
            m,
            "tokenizer.ggml.unknown_token_id"@,
            n,
        ),
        v.special_tokens.pad == Some(n) <==> number_under(
            m,
            "tokenizer.ggml.padding_token_id"@,
            n,
        ),
        number_under(m, "tokenizer.ggml.seperator_token_id"@, n) ==> v.special_tokens.sep == Some(
            n,
        ),
        !m.contains_key("tokenizer.ggml.seperator_token_id"@) ==> (v.special_tokens.sep == Some(n)
            <==> number_under(m, "tokenizer.ggml.separator_token_id"@, n)),
{
}

/// A tokenizer behaves as the flags of metadata say.
pub proof fn behavior_is_that_stored(m: Map<Seq<char>, ValueView>, v: VocabularyView)
    requires
        stored_tokenizer(m) == Some(v),
    ensures
        v.behavior.lowercase <==> has_flag(m, "nexus.tokenizer.normalizer.lowercase"@),
        v.behavior.strip_accents <==> has_flag(m, "nexus.tokenizer.normalizer.strip_accents"@),
        v.behavior.collapse_whitespace <==> has_flag(
            m,
            "nexus.tokenizer.normalizer.collapse_whitespace"@,
        ),
        v.behavior.byte_level <==> has_flag(m, "nexus.tokenizer.pre_tokenizer.byte_level"@),
        v.behavior.add_prefix_space <==> has_flag(
            m,
            "nexus.tokenizer.pre_tokenizer.add_prefix_space"@,
        ),
{
}

/// The chat template is the one that is stored.
pub proof fn template_is_that_stored(m: Map<Seq<char>, ValueView>, v: VocabularyView, t: Seq<char>)
    requires
        stored_tokenizer(m) == Some(v),
    ensures
        has_text(m, "tokenizer.chat_template"@, t) ==> v.chat_template == Some(t),
        !m.contains_key("tokenizer.chat_template"@) && has_text(
            m,
            "tokenizer.ggml.chat_template"@,
            t,
        ) ==> v.chat_template == Some(t),
        !m.contains_key("tokenizer.chat_template"@) && has_no_text(
            m,
            "tokenizer.ggml.chat_template"@,
        ) ==> v.chat_template is None,
{
}

proof fn lemma_merge_ranks(merges: Seq<Seq<char>>, t: Seq<char>)
    requires
        merges.len() <= usize::MAX,
    ensures
        merge_ranks(merges).contains_key(t) <==> merges.contains(t) && t.contains(' '),
        merge_ranks(merges).contains_key(t) ==> {
            let rank = merge_ranks(merges)[t] as int;
            &&& rank < merges.len()
            &&& merges[rank] == t
            &&& forall|j: int| rank < j < merges.len() ==> #[trigger] merges[j] != t
        },
    decreases merges.len(),
{
    if merges.len() > 0 {
        let init = merges.drop_last();
        lemma_merge_ranks(init, t);
        if merges.last() == t {
            assert(merges[merges.len() - 1] == t);
        }
        if init.contains(t) {
            assert(merges[init.index_of(t)] == t);
        }
        if merges.contains(t) && merges.last() != t {
            assert(init[merges.index_of(t)] == t);
        }
        if merge_ranks(merges).contains_key(t) {
            let rank = merge_ranks(merges)[t] as int;
            assert forall|j: int| rank < j < merges.len() implies #[trigger] merges[j] != t by {
                if j < merges.len() - 1 {
                    assert(init[j] == merges[j]);
                }
            }
        }
    }
}

/// The rank of a merge is its place in the list that is stored, the last one where it
/// stands there more than once. Without a list nothing is merged.
pub proof fn ranks_are_places(m: Map<Seq<char>, ValueView>, v: VocabularyView, merges: Seq<Seq<char>>, t: Seq<char>)
    requires
        stored_tokenizer(m) == Some(v),
        merges.len() <= usize::MAX,
    ensures
        m.contains_key("tokenizer.ggml.merges"@) && m["tokenizer.ggml.merges"@]
            == ValueView::StringVec(merges) ==> {
            &&& v.ranks.contains_key(t) <==> merges.contains(t) && t.contains(' ')
            &&& v.ranks.contains_key(t) ==> {
                &&& v.ranks[t] < merges.len()
                &&& merges[v.ranks[t] as int] == t
                &&& forall|j: int| v.ranks[t] < j < merges.len() ==> #[trigger] merges[j] != t
            }
        },
        !m.contains_key("tokenizer.ggml.merges"@) ==> !v.ranks.contains_key(t),
{
    lemma_merge_ranks(merges, t);
}

/// Without merges, a text starts with the longest token that it starts with, and goes on
/// behind it.
pub proof fn longest_token_comes_first(v: VocabularyView, s: Seq<char>, n: int)
    requires
        v.tokens.len() <= 0x1_0000_0000,
        0 < n <= s.len(),
        v.tokens.contains(s.take(n)),
        forall|k: int| n < k <= s.len() ==> !v.tokens.contains(#[trigger] s.take(k)),
    ensures
        ({
            let unk = v.special_tokens.unk;
            let all = greedy_tokens(token_ids(v.tokens), unk, s);
            &&& all.len() > 0
            &&& all[0] < v.tokens.len()
            &&& v.tokens[all[0] as int] == s.take(n)
            &&& all.skip(1) == greedy_tokens(token_ids(v.tokens), unk, s.skip(n))
        }),
{
    let ids = token_ids(v.tokens);
    let unk = v.special_tokens.unk;
    let found = longest_token(ids, s, s.len());
    lemma_longest(ids, s, s.len());
    lemma_token_ids(v.tokens, s.take(n));
    if found < n {
        assert(ids.contains_key(s.take(n as nat as int)));
    } else if found > n {
        lemma_token_ids(v.tokens, s.take(found as int));
    }
    let all = greedy_tokens(ids, unk, s);
    assert(all.skip(1) =~= greedy_tokens(ids, unk, s.skip(n)));
}

/// Without merges, a character at which no token starts becomes the unknown token where
/// there is one, and else its bytes.
pub proof fn unknown_characters_are_kept(v: VocabularyView, s: Seq<char>)
    requires
        s.len() > 0,
        forall|k: int| 0 < k <= s.len() ==> !v.tokens.contains(#[trigger] s.take(k)),
    ensures
        ({
            let rest = greedy_tokens(token_ids(v.tokens), v.special_tokens.unk, s.skip(1));
            greedy_tokens(token_ids(v.tokens), v.special_tokens.unk, s)
                == match v.special_tokens.unk {
                Some(id) => seq![id] + rest,
                None => Seq::new(
                    encode_utf8(seq![s[0]]).len(),
                    |i: int| encode_utf8(seq![s[0]])[i] as u32,
                ) + rest,
            }
        }),
{
    let ids = token_ids(v.tokens);
    let found = longest_token(ids, s, s.len());
    lemma_longest(ids, s, s.len());
    if found > 0 {
        lemma_token_ids(v.tokens, s.take(found as int));
    }
    assert(byte_tokens(seq![s[0]]) =~= Seq::new(
        encode_utf8(seq![s[0]]).len(),
        |i: int| encode_utf8(seq![s[0]])[i] as u32,
    ));
}

/// A text is encoded by its longest tokens where no merges are stored.
pub proof fn encoding_without_merges(v: VocabularyView, text: Seq<char>)
    requires
        v.ranks == Map::<Seq<char>, usize>::empty(),
    ensures
        v.encode(text) == greedy_tokens(
            token_ids(v.tokens),
            v.special_tokens.unk,
            v.behavior.prepare(text),
        ),
{
}

/// Two neighbours can be merged: the merge is stored, and what they make up is a token.
pub open spec fn can_merge(v: VocabularyView, pieces: Seq<Seq<char>>, i: int) -> bool {
    &&& 0 <= i
    &&& i + 1 < pieces.len()
    &&& !pieces[i].contains(' ')
    &&& v.ranks.contains_key(pieces[i] + " "@ + pieces[i + 1])
    &&& v.tokens.contains(pieces[i] + pieces[i + 1])
}

proof fn lemma_can_merge(v: VocabularyView, pieces: Seq<Seq<char>>, i: int)
    requires
        0 <= i,
        i + 1 < pieces.len(),
    ensures
        can_merge(v, pieces, i) <==> pair_rank(
            token_ids(v.tokens),
            v.ranks,
            pieces[i],
            pieces[i + 1],
        ) is Some,
        can_merge(v, pieces, i) ==> pair_rank(
            token_ids(v.tokens),
            v.ranks,
            pieces[i],
            pieces[i + 1],
        ) == Some(v.ranks[pieces[i] + " "@ + pieces[i + 1]]),
{
    reveal_strlit(" ");
    assert(" "@ =~= seq![' ']);
    lemma_token_ids(v.tokens, pieces[i] + pieces[i + 1]);
}

/// Of the neighbours that can be merged, the first with the lowest rank are merged first.
pub proof fn lowest_rank_is_merged_first(v: VocabularyView, pieces: Seq<Seq<char>>, i: int)
    requires
        can_merge(v, pieces, i),
        forall|j: int|
            can_merge(v, pieces, j) ==> v.ranks[pieces[i] + " "@ + pieces[i + 1]] <= v.ranks[
            #[trigger] pieces[j] + " "@ + pieces[j + 1]],
        forall|j: int|
            0 <= j < i && can_merge(v, pieces, j) ==> v.ranks[pieces[i] + " "@ + pieces[i + 1]]
                < v.ranks[#[trigger] pieces[j] + " "@ + pieces[j + 1]],
    ensures
        merged(token_ids(v.tokens), v.ranks, pieces) == merged(
            token_ids(v.tokens),
            v.ranks,
            pieces.take(i) + seq![pieces[i] + pieces[i + 1]] + pieces.skip(i + 2),
        ),
{
    let ids = token_ids(v.tokens);
    let n = (pieces.len() - 1) as nat;
    lemma_best_pair(ids, v.ranks, pieces, n);
    lemma_can_merge(v, pieces, i);
    let best = best_pair(ids, v.ranks, pieces, n);
    assert(best is Some) by {
        if best is None {
            assert(pair_rank(ids, v.ranks, pieces[i], pieces[i + 1]) is None);
        }
    }
    let (k, rank) = best->0;
    lemma_can_merge(v, pieces, k);
    assert(can_merge(v, pieces, k));
    assert(v.ranks[pieces[i] + " "@ + pieces[i + 1]] <= v.ranks[pieces[k] + " "@ + pieces[k + 1]]);
    assert(k == i) by {
        assert(match pair_rank(ids, v.ranks, pieces[i], pieces[i + 1]) {
            Some(other) => rank < other || (rank == other && k <= i),
            None => true,
        });
        if k < i {
            assert(v.ranks[pieces[i] + " "@ + pieces[i + 1]] < v.ranks[pieces[k] + " "@ + pieces[k
                + 1]]);
        }
    }
    assert(crate::tokenizer::model::joined(pieces, i) =~= pieces.take(i) + seq![
        pieces[i] + pieces[i + 1],
    ] + pieces.skip(i + 2));
}

/// Pieces are merged until no two neighbours can be.
pub proof fn merging_goes_to_the_end(v: VocabularyView, pieces: Seq<Seq<char>>, i: int)
    ensures
        !can_merge(v, merged(token_ids(v.tokens), v.ranks, pieces), i),
    decreases pieces.len(),
{
    let ids = token_ids(v.tokens);
    if pieces.len() >= 2 {
        let n = (pieces.len() - 1) as nat;
        lemma_best_pair(ids, v.ranks, pieces, n);
        match best_pair(ids, v.ranks, pieces, n) {
            Some((k, _)) => {
                merging_goes_to_the_end(v, crate::tokenizer::model::joined(pieces, k), i);
            },
            None => {
                if 0 <= i && i + 1 < pieces.len() {
                    lemma_can_merge(v, pieces, i);
                    assert(pair_rank(ids, v.ranks, pieces[i], pieces[i + 1]) is None);
                }
            },
        }
    }
}

/// A piece that is a token becomes that token.
pub proof fn pieces_become_their_tokens(v: VocabularyView, pieces: Seq<Seq<char>>, piece: Seq<char>)
    requires
        v.tokens.len() <= 0x1_0000_0000,
        v.tokens.contains(piece),
    ensures
        ({
            let ids = token_ids(v.tokens);
            let unk = v.special_tokens.unk;
            let all = piece_tokens(ids, unk, pieces.push(piece));
            &&& all.len() == piece_tokens(ids, unk, pieces).len() + 1
            &&& all.drop_last() == piece_tokens(ids, unk, pieces)
            &&& v.tokens[all.last() as int] == piece
        }),
{
    lemma_token_ids(v.tokens, piece);
    assert(pieces.push(piece).drop_last() =~= pieces);
    let ids = token_ids(v.tokens);
    let unk = v.special_tokens.unk;
    let all = piece_tokens(ids, unk, pieces.push(piece));
    assert(all.drop_last() =~= piece_tokens(ids, unk, pieces));
}

/// Texts are taken as single characters, and the stored merges applied, where there are
/// any.
pub proof fn encoding_with_merges(v: VocabularyView, text: Seq<char>, merge: Seq<char>)
    requires
        v.ranks.contains_key(merge),
    ensures
        ({
            let ids = token_ids(v.tokens);
            let s = v.behavior.prepare(text);
            let chars = Seq::new(s.len(), |i: int| seq![s[i]]);
            v.encode(text) == piece_tokens(ids, v.special_tokens.unk, merged(ids, v.ranks, chars))
        }),
{
    let s = v.behavior.prepare(text);
    assert(crate::tokenizer::model::single_chars(s) =~= Seq::new(s.len(), |i: int| seq![s[i]]));
    assert(!v.ranks.is_empty()) by {
        if v.ranks.is_empty() {
            assert(v.ranks.dom().contains(merge));
        }
    }
}

/// A token beyond the vocabulary is decoded as the byte that it is.
pub proof fn tokens_beyond_are_bytes(v: VocabularyView, id: u32)
    requires
        v.tokens.len() <= id,
        v.behavior.space_marker is None,
    ensures
        v.decode(seq![id]) == byte_text(seq![id]),
{
    reveal_with_fuel(token_texts, 2);
    assert(seq![id].drop_last() =~= seq![]);
    assert(v.decode(seq![id]) =~= byte_text(seq![id]));
}

/// A space is put ahead of a text that does not start with one, where that is asked for.
pub proof fn prefix_space_is_added(b: BehaviorView, text: Seq<char>)
    requires
        !b.lowercase,
        !b.strip_accents,
        !b.collapse_whitespace,
        text.len() > 0,
        !is_space(text[0]),
    ensures
        b.byte_level && b.add_prefix_space ==> b.normalize(text) == " "@ + text,
        !(b.byte_level && b.add_prefix_space) ==> b.normalize(text) == text,
{
    reveal_strlit(" ");
    assert(" "@ =~= seq![' ']);
}

/// The letters that an accent is taken from in one row of Latin letters: capital letters,
/// and small ones that stand 32 places behind them.
pub open spec fn bare_letter(n: int) -> Option<char> {
    if 0xc0 <= n <= 0xc5 {
        Some('A')
    } else if n == 0xc7 {
        Some('C')
    } else if 0xc8 <= n <= 0xcb {
        Some('E')
    } else if 0xcc <= n <= 0xcf {
        Some('I')
    } else if n == 0xd1 {
        Some('N')
    } else if 0xd2 <= n <= 0xd6 || n == 0xd8 {
        Some('O')
    } else if 0xd9 <= n <= 0xdc {
        Some('U')
    } else {
        None
    }
}

/// Letters lose their accents, small ones as capital ones do. Other characters stay, and
/// so do letters without an accent.
pub proof fn accents_are_taken_off(s: Seq<char>, i: int)
    requires
        0 <= i < s.len(),
    ensures
        without_accents(s).len() == s.len(),
        (s[i] as u32) < 0xc0 ==> without_accents(s)[i] == s[i],
        (s[i] as u32) > 0x17e ==> without_accents(s)[i] == s[i],
        bare_letter(s[i] as int) matches Some(c) ==> without_accents(s)[i] == c,
        bare_letter(s[i] as int - 32) matches Some(c) ==> without_accents(s)[i] as int == c as int
            + 32,
        without_accents(s)[i] == s[i] || (without_accents(s)[i] as u32) < 0x80,
        without_accents(without_accents(s)) == without_accents(s),
{
    assert forall|k: int| 0 <= k < s.len() implies plain_letter(plain_letter(#[trigger] s[k]))
        == plain_letter(s[k]) by {}
    assert(without_accents(without_accents(s)) =~= without_accents(s));
}

/// Letters are made small first, accents are taken off behind that, and spaces are made
/// single last; each where the behavior says so.
pub proof fn texts_are_normalized_in_steps(b: BehaviorView, text: Seq<char>)
    ensures
        b.lowercase ==> b.normalize(text) == (BehaviorView { lowercase: false, ..b }).normalize(
            lower_text(text),
        ),
        !b.lowercase && b.strip_accents ==> b.normalize(text) == (BehaviorView {
            strip_accents: false,
            ..b
        }).normalize(without_accents(text)),
        !b.lowercase && !b.strip_accents && b.collapse_whitespace ==> b.normalize(text) == (
        BehaviorView { collapse_whitespace: false, ..b }).normalize(words_joined(text)),
{
}

/// No space is added to a text that is empty or starts with one.
pub proof fn no_second_space_is_added(b: BehaviorView, text: Seq<char>)
    requires
        !b.lowercase,
        !b.strip_accents,
        !b.collapse_whitespace,
        text.len() == 0 || is_space(text[0]),
    ensures
        b.normalize(text) == text,
{
}

/// A token below 256 is that byte, and any other is a question mark. Every byte of a text
/// is a token of its own.
pub proof fn bytes_are_tokens(token: u32, tokens: Seq<u32>, text: Seq<char>, i: int)
    ensures
        token < 256 ==> token_byte(token) == token,
        token >= 256 ==> token_byte(token) == '?' as u32,
        token_bytes(tokens).len() == tokens.len(),
        0 <= i < tokens.len() ==> token_bytes(tokens)[i] == token_byte(tokens[i]),
        byte_tokens(text).len() == encode_utf8(text).len(),
        0 <= i < encode_utf8(text).len() ==> byte_tokens(text)[i] == encode_utf8(text)[i],
{
}

} // verus!
