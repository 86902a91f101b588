//! What a vocabulary tokenizer does, over mathematical values.

use crate::text::{is_space, lower_text, replaced, words_joined};
use crate::tokenizer::accents::without_accents;
use crate::tokenizer::byte::{byte_text, byte_tokens};
use crate::tokenizer::vocabulary::SpecialTokenIds;
use vstd::prelude::*;

verus! {

/// A vocabulary tokenizer. `tokens` are the texts of the tokens in the order of their
/// numbers, `ranks` the ranks of merges, each written as two pieces with a space
/// between them.
#[verifier::ext_equal]
pub struct VocabularyView {
    pub tokens: Seq<Seq<char>>,
    pub ranks: Map<Seq<char>, usize>,
    pub special_tokens: SpecialTokenIds,
    pub chat_template: Option<Seq<char>>,
    pub behavior: BehaviorView,
}

/// How a tokenizer treats text ahead of encoding.
#[verifier::ext_equal]
pub struct BehaviorView {
    pub lowercase: bool,
    pub strip_accents: bool,
    pub byte_level: bool,
    pub add_prefix_space: bool,
    pub collapse_whitespace: bool,
    pub space_marker: Option<Seq<char>>,
}

/// The numbers of token texts. Where a text occurs more than once, its last number
/// counts.
pub open spec fn token_ids(tokens: Seq<Seq<char>>) -> Map<Seq<char>, u32>
    decreases tokens.len(),
{
    if tokens.len() == 0 {
        Map::empty()
    } else {
        token_ids(tokens.drop_last()).insert(tokens.last(), (tokens.len() - 1) as u32)
    }
}

/// The ranks of merges by their texts. Merges without a space do not count; where a
/// merge occurs more than once, its last rank counts.
pub open spec fn merge_ranks(merges: Seq<Seq<char>>) -> Map<Seq<char>, usize>
    decreases merges.len(),
{
    if merges.len() == 0 {
        Map::empty()
    } else {
        let before = merge_ranks(merges.drop_last());
        if merges.last().contains(' ') {
            before.insert(merges.last(), (merges.len() - 1) as usize)
        } else {
            before
        }
    }
}

/// The length of the longest token that is a prefix of a text of at most `n`
/// characters; zero where there is none.
pub open spec fn longest_token(ids: Map<Seq<char>, u32>, s: Seq<char>, n: nat) -> nat
    decreases n,
{
    if n == 0 {
        0
    } else if ids.contains_key(s.take(n as int)) {
        n
    } else {
        longest_token(ids, s, (n - 1) as nat)
    }
}

/// The tokens of a text that is cut at its longest known prefix each time. A character
/// at which no token starts becomes the unknown token, or its bytes where there is
/// none.
pub open spec fn greedy_tokens(ids: Map<Seq<char>, u32>, unk: Option<u32>, s: Seq<char>) -> Seq<u32>
    decreases s.len(),
    via greedy_decreases
{
    if s.len() == 0 {
        seq![]
    } else {
        let n = longest_token(ids, s, s.len());
        if n > 0 {
            seq![ids[s.take(n as int)]] + greedy_tokens(ids, unk, s.skip(n as int))
        } else {
            lone_tokens(unk, s[0]) + greedy_tokens(ids, unk, s.skip(1))
        }
    }
}

#[via_fn]
proof fn greedy_decreases(ids: Map<Seq<char>, u32>, unk: Option<u32>, s: Seq<char>) {
    lemma_longest(ids, s, s.len());
}

/// The tokens of a character that is not in the vocabulary.
pub open spec fn lone_tokens(unk: Option<u32>, c: char) -> Seq<u32> {
    match unk {
        Some(id) => seq![id],
        None => byte_tokens(seq![c]),
    }
}

/// The longest known prefix is one, no longer one is known, and none is known where
/// its length is zero.
pub proof fn lemma_longest(ids: Map<Seq<char>, u32>, s: Seq<char>, n: nat)
    ensures
        longest_token(ids, s, n) <= n,
        longest_token(ids, s, n) > 0 ==> ids.contains_key(
            s.take(longest_token(ids, s, n) as int),
        ),
        forall|k: nat|
            longest_token(ids, s, n) < k <= n ==> !ids.contains_key(#[trigger] s.take(k as int)),
    decreases n,
{
    if n > 0 && !ids.contains_key(s.take(n as int)) {
        lemma_longest(ids, s, (n - 1) as nat);
    }
}

/// Where no longer prefix is known, it need not be looked for.
pub proof fn lemma_no_longer(ids: Map<Seq<char>, u32>, s: Seq<char>, big: nat, small: nat)
    requires
        small <= big,
        forall|k: nat| small < k <= big ==> !ids.contains_key(#[trigger] s.take(k as int)),
    ensures
        longest_token(ids, s, big) == longest_token(ids, s, small),
    decreases big,
{
    if big > small {
        assert(!ids.contains_key(s.take(big as int)));
        lemma_no_longer(ids, s, (big - 1) as nat, small);
    }
}

/// The rank at which two pieces are merged. A piece with a space in it is never the
/// first of a merge.
pub open spec fn pair_rank(
    ids: Map<Seq<char>, u32>,
    ranks: Map<Seq<char>, usize>,
    left: Seq<char>,
    right: Seq<char>,
) -> Option<usize> {
    if !left.contains(' ') && ranks.contains_key(left + seq![' '] + right) && ids.contains_key(
        left + right,
    ) {
        Some(ranks[left + seq![' '] + right])
    } else {
        None
    }
}

/// The place of the pair of neighbours with the lowest rank among the first `n`
/// pairs, the first such place.
pub open spec fn best_pair(
    ids: Map<Seq<char>, u32>,
    ranks: Map<Seq<char>, usize>,
    pieces: Seq<Seq<char>>,
    n: nat,
) -> Option<(int, usize)>
    decreases n,
{
    if n == 0 {
        None
    } else {
        let before = best_pair(ids, ranks, pieces, (n - 1) as nat);
        match pair_rank(ids, ranks, pieces[n - 1], pieces[n as int]) {
            None => before,
            Some(rank) => if before is Some && (before->0).1 <= rank {
                before
            } else {
                Some(((n - 1) as int, rank))
            },
        }
    }
}

/// Pieces with two neighbours made one.
pub open spec fn joined(pieces: Seq<Seq<char>>, i: int) -> Seq<Seq<char>> {
    pieces.update(i, pieces[i] + pieces[i + 1]).remove(i + 1)
}

/// Pieces once no two neighbours can be merged, merging the best pair first.
pub open spec fn merged(
    ids: Map<Seq<char>, u32>,
    ranks: Map<Seq<char>, usize>,
    pieces: Seq<Seq<char>>,
) -> Seq<Seq<char>>
    decreases pieces.len(),
{
    if pieces.len() < 2 {
        pieces
    } else {
        match best_pair(ids, ranks, pieces, (pieces.len() - 1) as nat) {
            None => pieces,
            Some((i, _)) => if 0 <= i && i + 1 < pieces.len() {
                merged(ids, ranks, joined(pieces, i))
            } else {
                pieces
            },
        }
    }
}

/// The best pair is a pair.
pub proof fn lemma_best_pair(
    ids: Map<Seq<char>, u32>,
    ranks: Map<Seq<char>, usize>,
    pieces: Seq<Seq<char>>,
    n: nat,
)
    ensures
        best_pair(ids, ranks, pieces, n) matches Some((i, rank)) ==> {
            &&& 0 <= i < n
            &&& pair_rank(ids, ranks, pieces[i], pieces[i + 1]) == Some(rank)
        },
        best_pair(ids, ranks, pieces, n) is None ==> forall|j: int|
            0 <= j < n ==> pair_rank(ids, ranks, #[trigger] pieces[j], pieces[j + 1]) is None,
        best_pair(ids, ranks, pieces, n) matches Some((i, rank)) ==> forall|j: int|
            0 <= j < n ==> match pair_rank(ids, ranks, #[trigger] pieces[j], pieces[j + 1]) {
                Some(other) => rank < other || (rank == other && i <= j),
                None => true,
            },
    decreases n,
{
    if n > 0 {
        lemma_best_pair(ids, ranks, pieces, (n - 1) as nat);
    }
}

/// The tokens of pieces: that of a piece, or those of its longest known prefixes.
pub open spec fn piece_tokens(
    ids: Map<Seq<char>, u32>,
    unk: Option<u32>,
    pieces: Seq<Seq<char>>,
) -> Seq<u32>
    decreases pieces.len(),
{
    if pieces.len() == 0 {
        seq![]
    } else {
        let p = pieces.last();
        piece_tokens(ids, unk, pieces.drop_last()) + if ids.contains_key(p) {
            seq![ids[p]]
        } else {
            greedy_tokens(ids, unk, p)
        }
    }
}

/// Every character a piece.
pub open spec fn single_chars(s: Seq<char>) -> Seq<Seq<char>> {
    s.map_values(|c: char| seq![c])
}

/// The texts of tokens one behind the other. A token without a text stands for a byte.
pub open spec fn token_texts(tokens: Seq<Seq<char>>, ids: Seq<u32>) -> Seq<char>
    decreases ids.len(),
{
    if ids.len() == 0 {
        seq![]
    } else {
        token_texts(tokens, ids.drop_last()) + if ids.last() < tokens.len() {
            tokens[ids.last() as int]
        } else {
            byte_text(seq![ids.last()])
        }
    }
}

impl BehaviorView {
    /// A text in lower case, without accents, with single spaces, and with a space
    /// ahead, as the behavior says.
    pub open spec fn normalize(self, text: Seq<char>) -> Seq<char> {
        let a = if self.lowercase {
            lower_text(text)
        } else {
            text
        };
        let b = if self.strip_accents {
            without_accents(a)
        } else {
            a
        };
        let c = if self.collapse_whitespace {
            words_joined(b)
        } else {
            b
        };
        if self.byte_level && self.add_prefix_space && c.len() > 0 && !is_space(c[0]) {
            seq![' '] + c
        } else {
            c
        }
    }

    /// A text as it is encoded: normalized, and with the marker for each space.
    pub open spec fn prepare(self, text: Seq<char>) -> Seq<char> {
        let s = self.normalize(text);
        match self.space_marker {
            Some(marker) => replaced(s, seq![' '], marker),
            None => s,
        }
    }
}

impl VocabularyView {
    pub open spec fn encode(self, text: Seq<char>) -> Seq<u32> {
        let ids = token_ids(self.tokens);
        let s = self.behavior.prepare(text);
        let unk = self.special_tokens.unk;
        if self.ranks.is_empty() {
            greedy_tokens(ids, unk, s)
        } else {
            piece_tokens(ids, unk, merged(ids, self.ranks, single_chars(s)))
        }
    }

    pub open spec fn decode(self, ids: Seq<u32>) -> Seq<char> {
        let text = token_texts(self.tokens, ids);
        match self.behavior.space_marker {
            Some(marker) => replaced(text, marker, seq![' ']),
            None => text,
        }
    }
}

/// A token's number leads back to its text, and every token text has a number.
pub proof fn lemma_token_ids(tokens: Seq<Seq<char>>, t: Seq<char>)
    ensures
        token_ids(tokens).contains_key(t) <==> tokens.contains(t),
        token_ids(tokens).contains_key(t) && tokens.len() <= 0x1_0000_0000
            ==> token_ids(tokens)[t] < tokens.len() && tokens[token_ids(tokens)[t] as int] == t,
    decreases tokens.len(),
{
    if tokens.len() > 0 {
        let init = tokens.drop_last();
        lemma_token_ids(init, t);
        if tokens.last() == t {
            assert(tokens[tokens.len() - 1] == t);
        }
        if init.contains(t) {
            assert(tokens[init.index_of(t)] == t);
        }
        if tokens.contains(t) && tokens.last() != t {
            let i = tokens.index_of(t);
            assert(init[i] == t);
        }
        if token_ids(init).contains_key(t) && tokens.len() <= 0x1_0000_0000 {
            let i = token_ids(init)[t] as int;
            assert(tokens[i] == init[i]);
        }
    }
}

} // verus!
