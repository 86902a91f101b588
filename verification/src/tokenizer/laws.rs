//! Laws of vocabulary tokenizers.

use crate::text::{occurs_at, replaced};
use crate::tokenizer::model::{
    best_pair, greedy_tokens, joined, lemma_best_pair, lemma_longest, lemma_token_ids, longest_token,
    merged, piece_tokens, single_chars, token_ids, token_texts, VocabularyView,
};
use vstd::prelude::*;

verus! {

/// Every character of a text is a token.
pub open spec fn covered(tokens: Seq<Seq<char>>, s: Seq<char>) -> bool {
    forall|i: int| 0 <= i < s.len() ==> tokens.contains(seq![#[trigger] s[i]])
}

/// Pieces one behind the other.
pub open spec fn flat(pieces: Seq<Seq<char>>) -> Seq<char>
    decreases pieces.len(),
{
    if pieces.len() == 0 {
        seq![]
    } else {
        flat(pieces.drop_last()) + pieces.last()
    }
}

proof fn lemma_texts_concat(tokens: Seq<Seq<char>>, a: Seq<u32>, b: Seq<u32>)
    ensures
        token_texts(tokens, a + b) == token_texts(tokens, a) + token_texts(tokens, b),
    decreases b.len(),
{
    if b.len() == 0 {
        assert(a + b =~= a);
        assert(token_texts(tokens, a) + token_texts(tokens, b) =~= token_texts(tokens, a));
    } else {
        lemma_texts_concat(tokens, a, b.drop_last());
        assert((a + b).drop_last() =~= a + b.drop_last());
        assert(token_texts(tokens, a + b) =~= token_texts(tokens, a) + token_texts(tokens, b));
    }
}

proof fn lemma_one_text(tokens: Seq<Seq<char>>, id: u32)
    requires
        id < tokens.len(),
    ensures
        token_texts(tokens, seq![id]) == tokens[id as int],
{
    reveal_with_fuel(token_texts, 2);
    assert(seq![id].drop_last() =~= seq![]);
    assert(token_texts(tokens, seq![id]) =~= tokens[id as int]);
}

/// Cutting a text at its longest known prefixes loses nothing, where every character
/// is a token.
pub proof fn greedy_round_trip(tokens: Seq<Seq<char>>, unk: Option<u32>, s: Seq<char>)
    requires
        tokens.len() <= 0x1_0000_0000,
        covered(tokens, s),
    ensures
        token_texts(tokens, greedy_tokens(token_ids(tokens), unk, s)) == s,
    decreases s.len(),
{
    let ids = token_ids(tokens);
    if s.len() > 0 {
        let n = longest_token(ids, s, s.len());
        lemma_longest(ids, s, s.len());
        lemma_token_ids(tokens, seq![s[0]]);
        assert(s.take(1) =~= seq![s[0]]);
        let t = s.take(n as int);
        lemma_token_ids(tokens, t);
        let rest = s.skip(n as int);
        assert forall|i: int| 0 <= i < rest.len() implies tokens.contains(seq![#[trigger] rest[i]]) by {
            assert(rest[i] == s[i + n]);
        }
        greedy_round_trip(tokens, unk, rest);
        lemma_texts_concat(tokens, seq![ids[t]], greedy_tokens(ids, unk, rest));
        lemma_one_text(tokens, ids[t]);
        assert(t + rest =~= s);
    }
}

proof fn lemma_flat_concat(a: Seq<Seq<char>>, b: Seq<Seq<char>>)
    ensures
        flat(a + b) == flat(a) + flat(b),
    decreases b.len(),
{
    if b.len() == 0 {
        assert(a + b =~= a);
        assert(flat(a) + flat(b) =~= flat(a));
    } else {
        lemma_flat_concat(a, b.drop_last());
        assert((a + b).drop_last() =~= a + b.drop_last());
        assert(flat(a + b) =~= flat(a) + flat(b));
    }
}

proof fn lemma_flat_joined(pieces: Seq<Seq<char>>, i: int)
    requires
        0 <= i,
        i + 1 < pieces.len(),
    ensures
        flat(joined(pieces, i)) == flat(pieces),
{
    let before = pieces.take(i);
    let after = pieces.skip(i + 2);
    let (a, b) = (pieces[i], pieces[i + 1]);
    assert(pieces =~= before + seq![a, b] + after);
    assert(joined(pieces, i) =~= before + seq![a + b] + after);
    lemma_flat_concat(before + seq![a, b], after);
    lemma_flat_concat(before, seq![a, b]);
    lemma_flat_concat(before + seq![a + b], after);
    lemma_flat_concat(before, seq![a + b]);
    reveal_with_fuel(flat, 3);
    assert(seq![a, b].drop_last() =~= seq![a]);
    assert(seq![a].drop_last() =~= seq![]);
    assert(seq![a + b].drop_last() =~= seq![]);
    assert(flat(seq![a, b]) =~= a + b);
    assert(flat(seq![a + b]) =~= a + b);
}

/// Merging pieces keeps the text that they make up.
pub proof fn merging_keeps_text(
    ids: Map<Seq<char>, u32>,
    ranks: Map<Seq<char>, usize>,
    pieces: Seq<Seq<char>>,
)
    ensures
        flat(merged(ids, ranks, pieces)) == flat(pieces),
    decreases pieces.len(),
{
    if pieces.len() >= 2 {
        let best = best_pair(ids, ranks, pieces, (pieces.len() - 1) as nat);
        lemma_best_pair(ids, ranks, pieces, (pieces.len() - 1) as nat);
        if best is Some {
            let i = (best->0).0;
            lemma_flat_joined(pieces, i);
            merging_keeps_text(ids, ranks, joined(pieces, i));
        }
    }
}

proof fn lemma_flat_single(s: Seq<char>)
    ensures
        flat(single_chars(s)) == s,
    decreases s.len(),
{
    if s.len() > 0 {
        lemma_flat_single(s.drop_last());
        assert(single_chars(s).drop_last() =~= single_chars(s.drop_last()));
        assert(flat(single_chars(s)) =~= s);
    } else {
        assert(flat(single_chars(s)) =~= s);
    }
}

proof fn lemma_pieces_round_trip(tokens: Seq<Seq<char>>, unk: Option<u32>, pieces: Seq<Seq<char>>)
    requires
        tokens.len() <= 0x1_0000_0000,
        covered(tokens, flat(pieces)),
    ensures
        token_texts(tokens, piece_tokens(token_ids(tokens), unk, pieces)) == flat(pieces),
    decreases pieces.len(),
{
    let ids = token_ids(tokens);
    if pieces.len() > 0 {
        let init = pieces.drop_last();
        let p = pieces.last();
        assert forall|i: int| 0 <= i < flat(init).len() implies tokens.contains(
            seq![#[trigger] flat(init)[i]],
        ) by {
            assert(flat(init)[i] == flat(pieces)[i]);
        }
        assert forall|i: int| 0 <= i < p.len() implies tokens.contains(seq![#[trigger] p[i]]) by {
            assert(p[i] == flat(pieces)[flat(init).len() + i]);
        }
        lemma_pieces_round_trip(tokens, unk, init);
        lemma_token_ids(tokens, p);
        if ids.contains_key(p) {
            lemma_texts_concat(tokens, piece_tokens(ids, unk, init), seq![ids[p]]);
            lemma_one_text(tokens, ids[p]);
        } else {
            greedy_round_trip(tokens, unk, p);
            lemma_texts_concat(tokens, piece_tokens(ids, unk, init), greedy_tokens(ids, unk, p));
        }
    }
}

/// Replacing one character by another that the text does not have, and back.
proof fn lemma_replace_back(s: Seq<char>, a: char, b: char)
    requires
        !s.contains(b),
    ensures
        replaced(replaced(s, seq![a], seq![b]), seq![b], seq![a]) == s,
        replaced(s, seq![a], seq![b]).len() == s.len(),
    decreases s.len(),
{
    let (pa, pb) = (seq![a], seq![b]);
    let t = replaced(s, pa, pb);
    if s.len() > 0 {
        let rest = s.skip(1);
        assert(!rest.contains(b)) by {
            if rest.contains(b) {
                let i = rest.index_of(b);
                assert(s[i + 1] == b);
                assert(s.contains(b));
            }
        }
        lemma_replace_back(rest, a, b);
        assert(s.subrange(0, 1) =~= seq![s[0]]);
        assert(occurs_at(s, pa, 0) <==> s[0] == a) by {
            if s[0] == a {
                assert(s.subrange(0, 1) =~= pa);
            }
            if occurs_at(s, pa, 0) {
                assert(s.subrange(0, 1)[0] == pa[0]);
            }
        }
        assert(s.contains(s[0]));
        let t_rest = replaced(rest, pa, pb);
        let head = if s[0] == a {
            b
        } else {
            s[0]
        };
        assert(t =~= seq![head] + t_rest);
        assert(t.skip(1) =~= t_rest);
        assert(t.subrange(0, 1) =~= seq![head]);
        assert(occurs_at(t, pb, 0) <==> head == b) by {
            if head == b {
                assert(t.subrange(0, 1) =~= pb);
            }
            if occurs_at(t, pb, 0) {
                assert(t.subrange(0, 1)[0] == pb[0]);
            }
        }
        assert(replaced(t, pb, pa) =~= seq![s[0]] + rest);
        assert(seq![s[0]] + rest =~= s);
    } else {
        assert(t =~= seq![]);
        assert(replaced(t, pb, pa) =~= s);
    }
}

/// The text can be told apart from the marks for spaces: there are none, or they are
/// a single character that the text does not have.
pub open spec fn marks_are_clear(marker: Option<Seq<char>>, s: Seq<char>) -> bool {
    match marker {
        None => true,
        Some(m) => m.len() == 1 && !s.contains(m[0]),
    }
}

/// Decoding the tokens of a text gives the text back as it was normalized, where every
/// character of it is a token.
pub proof fn vocabulary_round_trip(v: VocabularyView, text: Seq<char>)
    requires
        v.tokens.len() <= 0x1_0000_0000,
        covered(v.tokens, v.behavior.prepare(text)),
        marks_are_clear(v.behavior.space_marker, v.behavior.normalize(text)),
    ensures
        v.decode(v.encode(text)) == v.behavior.normalize(text),
{
    let ids = token_ids(v.tokens);
    let s = v.behavior.prepare(text);
    let unk = v.special_tokens.unk;
    if v.ranks.is_empty() {
        greedy_round_trip(v.tokens, unk, s);
    } else {
        lemma_flat_single(s);
        merging_keeps_text(ids, v.ranks, single_chars(s));
        lemma_pieces_round_trip(v.tokens, unk, merged(ids, v.ranks, single_chars(s)));
    }
    match v.behavior.space_marker {
        Some(m) => {
            assert(m =~= seq![m[0]]);
            lemma_replace_back(v.behavior.normalize(text), ' ', m[0]);
        },
        None => {},
    }
}

} // verus!
