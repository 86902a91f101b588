//! The tokens and merges of a tokenizer description.

use crate::json::{entry_trees, trees, Json, JsonTree};
use crate::names::NameMap;
use crate::text::texts;
use vstd::prelude::*;

verus! {

/// Tokens by their number, and the number of each.
#[verifier::ext_equal]
pub struct TokenTable {
    pub tokens: Seq<Seq<char>>,
    pub ids: Map<Seq<char>, u32>,
}

/// That many empty texts.
pub open spec fn blanks(n: nat) -> Seq<Seq<char>> {
    Seq::new(n, |i: int| Seq::<char>::empty())
}

impl TokenTable {
    /// The table with a token at a number. Numbers on the way there stand for nothing.
    pub open spec fn put(self, id: usize, token: Seq<char>) -> TokenTable {
        let long = if id < self.tokens.len() {
            self.tokens
        } else {
            self.tokens + blanks((id + 1 - self.tokens.len()) as nat)
        };
        TokenTable { tokens: long.update(id as int, token), ids: self.ids.insert(token, id as u32) }
    }
}

/// The greatest number among the first `n` entries: zero where there is none.
pub open spec fn greatest_id(entries: Seq<(Seq<char>, JsonTree)>, n: int) -> u64
    decreases n,
{
    if n <= 0 {
        0
    } else {
        let before = greatest_id(entries, n - 1);
        match entries[n - 1].1.as_u64() {
            Some(id) => if id > before {
                id
            } else {
                before
            },
            None => before,
        }
    }
}

/// The table with the tokens of a vocabulary, from entry `i` on.
pub open spec fn with_vocab(entries: Seq<(Seq<char>, JsonTree)>, i: int, t: TokenTable) -> TokenTable
    decreases entries.len() - i,
{
    if i < 0 || i >= entries.len() {
        t
    } else {
        with_vocab(
            entries,
            i + 1,
            match entries[i].1.as_u64() {
                Some(id) => t.put(id as usize, entries[i].0),
                None => t,
            },
        )
    }
}

/// The table with added tokens, from place `i` on. What lacks a number or a text is
/// passed over.
pub open spec fn with_added(items: Seq<JsonTree>, i: int, t: TokenTable) -> TokenTable
    decreases items.len() - i,
{
    if i < 0 || i >= items.len() {
        t
    } else {
        with_added(
            items,
            i + 1,
            match (items[i].u64_of("id"@), items[i].str_of("content"@)) {
                (Some(id), Some(content)) => t.put(id as usize, content),
                _ => t,
            },
        )
    }
}

/// The table of a tokenizer: its vocabulary, if it has one, then the added tokens.
pub open spec fn token_table(tokenizer: JsonTree, model: JsonTree) -> TokenTable {
    let none = TokenTable { tokens: seq![], ids: Map::empty() };
    let vocab = match model.get("vocab"@) {
        Some(JsonTree::Entries(entries)) => with_vocab(
            entries,
            0,
            TokenTable {
                tokens: blanks((greatest_id(entries, entries.len() as int) as usize + 1) as nat),
                ids: Map::empty(),
            },
        ),
        _ => none,
    };
    match tokenizer.list_of("added_tokens"@) {
        Some(items) => with_added(items, 0, vocab),
        None => vocab,
    }
}

/// The numbers of a vocabulary and of the added tokens leave room for one more.
pub open spec fn ids_fit(tokenizer: JsonTree, model: JsonTree) -> bool {
    &&& match model.get("vocab"@) {
        Some(JsonTree::Entries(entries)) => forall|i: int|
            0 <= i < entries.len() ==> ((#[trigger] entries[i]).1.as_u64() matches Some(id) ==> id
                < usize::MAX),
        _ => true,
    }
    &&& match tokenizer.list_of("added_tokens"@) {
        Some(items) => forall|i: int|
            0 <= i < items.len() ==> ((#[trigger] items[i]).u64_of("id"@) matches Some(id) ==> id
                < usize::MAX),
        None => true,
    }
}

/// Whether the numbers of all tokens leave room for one more.
pub fn check_ids(tokenizer: &Json, model: &Json) -> (r: bool)
    ensures
        r == ids_fit(tokenizer.tree(), model.tree()),
{
    match model.get("vocab") {
        Some(vocab) => match vocab.as_entries() {
            Some(entries) => {
                let ghost all = entry_trees(entries@);
                let mut i: usize = 0;
                while i < entries.len()
                    invariant
                        i <= entries@.len(),
                        all == entry_trees(entries@),
                        model.tree().get("vocab"@) == Some(JsonTree::Entries(all)),
                        forall|j: int|
                            0 <= j < i ==> ((#[trigger] all[j]).1.as_u64() matches Some(id) ==> id
                                < usize::MAX),
                    decreases entries@.len() - i,
                {
                    assert(all[i as int].1 == entries@[i as int].1.tree());
                    match entries[i].1.as_u64() {
                        Some(id) => {
                            if id >= usize::MAX as u64 {
                                return false;
                            }
                        },
                        None => {},
                    }
                    i += 1;
                }
            },
            None => {},
        },
        None => {},
    }
    match tokenizer.list_of("added_tokens") {
        Some(items) => {
            let ghost all = trees(items@);
            let mut i: usize = 0;
            while i < items.len()
                invariant
                    i <= items@.len(),
                    all == trees(items@),
                    tokenizer.tree().list_of("added_tokens"@) == Some(all),
                    forall|j: int|
                        0 <= j < i ==> ((#[trigger] all[j]).u64_of("id"@) matches Some(id) ==> id
                            < usize::MAX),
                decreases items@.len() - i,
            {
                assert(all[i as int] == items@[i as int].tree());
                match items[i].u64_of("id") {
                    Some(id) => {
                        if id >= usize::MAX as u64 {
                            return false;
                        }
                    },
                    None => {},
                }
                i += 1;
            }
        },
        None => {},
    }
    true
}

fn grow(tokens: &mut Vec<String>, len: usize)
    ensures
        texts(final(tokens)@) == (if len <= old(tokens)@.len() {
            texts(old(tokens)@)
        } else {
            texts(old(tokens)@) + blanks((len - old(tokens)@.len()) as nat)
        }),
{
    let ghost start = texts(tokens@);
    assert(texts(tokens@) =~= start + blanks(0));
    while tokens.len() < len
        invariant
            start == texts(old(tokens)@),
            start.len() <= tokens@.len(),
            tokens@.len() <= len || tokens@.len() == start.len(),
            texts(tokens@) == start + blanks((tokens@.len() - start.len()) as nat),
        decreases len - tokens@.len(),
    {
        let ghost before = texts(tokens@);
        let blank = String::new();
        assert(blank@ =~= Seq::<char>::empty());
        tokens.push(blank);
        assert(texts(tokens@) =~= before.push(Seq::empty()));
        assert(texts(tokens@) =~= start + blanks((tokens@.len() - start.len()) as nat));
    }
    assert(start + blanks(0) =~= start);
}

fn put_token(tokens: &mut Vec<String>, ids: &mut NameMap<u32>, id: usize, token: &str)
    requires
        id < usize::MAX,
    ensures
        (TokenTable { tokens: texts(final(tokens)@), ids: final(ids)@ }) == (TokenTable {
            tokens: texts(old(tokens)@),
            ids: old(ids)@,
        }).put(id, token@),
{
    let ghost before = TokenTable { tokens: texts(tokens@), ids: ids@ };
    if id >= tokens.len() {
        grow(tokens, id + 1);
    }
    let ghost long = texts(tokens@);
    assert(tokens@.len() == long.len());
    tokens.set(id, token.to_string());
    assert(texts(tokens@) =~= long.update(id as int, token@));
    ids.insert(token.to_string(), id as u32);
}

proof fn lemma_greatest_fits(entries: Seq<(Seq<char>, JsonTree)>, n: int)
    requires
        0 <= n <= entries.len(),
        forall|i: int|
            0 <= i < entries.len() ==> ((#[trigger] entries[i]).1.as_u64() matches Some(id) ==> id
                < usize::MAX),
    ensures
        greatest_id(entries, n) < usize::MAX,
    decreases n,
{
    if n > 0 {
        lemma_greatest_fits(entries, n - 1);
        assert(entries[n - 1].1.as_u64() matches Some(id) ==> id < usize::MAX);
    }
}

/// Reads the tokens of a tokenizer, by their numbers, and the number of each.
pub fn read_tokens(tokenizer: &Json, model: &Json) -> (r: (Vec<String>, NameMap<u32>))
    requires
        ids_fit(tokenizer.tree(), model.tree()),
    ensures
        (TokenTable { tokens: texts(r.0@), ids: r.1@ }) == token_table(
            tokenizer.tree(),
            model.tree(),
        ),
{
    let mut tokens: Vec<String> = Vec::new();
    let mut ids: NameMap<u32> = NameMap::new();
    assert(texts(tokens@) =~= seq![]);
    match model.get("vocab") {
        Some(vocab) => match vocab.as_entries() {
            Some(entries) => {
                let ghost all = entry_trees(entries@);
                let mut greatest: u64 = 0;
                let mut k: usize = 0;
                while k < entries.len()
                    invariant
                        k <= entries@.len(),
                        all == entry_trees(entries@),
                        greatest == greatest_id(all, k as int),
                    decreases entries@.len() - k,
                {
                    assert(all[k as int].1 == entries@[k as int].1.tree());
                    match entries[k].1.as_u64() {
                        Some(id) => {
                            if id > greatest {
                                greatest = id;
                            }
                        },
                        None => {},
                    }
                    k += 1;
                }
                proof {
                    lemma_greatest_fits(all, all.len() as int);
                }
                grow(&mut tokens, greatest as usize + 1);
                let ghost start = TokenTable {
                    tokens: blanks((greatest as usize + 1) as nat),
                    ids: Map::empty(),
                };
                assert(texts(tokens@) =~= start.tokens);
                let mut i: usize = 0;
                while i < entries.len()
                    invariant
                        i <= entries@.len(),
                        all == entry_trees(entries@),
                        forall|i: int|
                            0 <= i < all.len() ==> ((#[trigger] all[i]).1.as_u64() matches Some(
                                id,
                            ) ==> id < usize::MAX),
                        with_vocab(all, 0, start) == with_vocab(
                            all,
                            i as int,
                            TokenTable { tokens: texts(tokens@), ids: ids@ },
                        ),
                    decreases entries@.len() - i,
                {
                    assert(all[i as int] == (entries@[i as int].0@, entries@[i as int].1.tree()));
                    match entries[i].1.as_u64() {
                        Some(id) => {
                            put_token(&mut tokens, &mut ids, id as usize, entries[i].0.as_str());
                        },
                        None => {},
                    }
                    i += 1;
                }
            },
            None => {},
        },
        None => {},
    }
    let ghost vocab = TokenTable { tokens: texts(tokens@), ids: ids@ };
    match tokenizer.list_of("added_tokens") {
        Some(items) => {
            let ghost all = trees(items@);
            let mut i: usize = 0;
            while i < items.len()
                invariant
                    i <= items@.len(),
                    all == trees(items@),
                    forall|i: int|
                        0 <= i < all.len() ==> ((#[trigger] all[i]).u64_of("id"@) matches Some(id)
                            ==> id < usize::MAX),
                    with_added(all, 0, vocab) == with_added(
                        all,
                        i as int,
                        TokenTable { tokens: texts(tokens@), ids: ids@ },
                    ),
                decreases items@.len() - i,
            {
                assert(all[i as int] == items@[i as int].tree());
                match items[i].u64_of("id") {
                    Some(id) => match items[i].str_of("content") {
                        Some(content) => {
                            put_token(&mut tokens, &mut ids, id as usize, content);
                        },
                        None => {},
                    },
                    None => {},
                }
                i += 1;
            }
        },
        None => {},
    }
    (tokens, ids)
}

/// The line of a merge: a text, or two texts with a space between them. Anything else
/// is no merge.
pub open spec fn merge_line(item: JsonTree) -> Option<Seq<char>> {
    match item {
        JsonTree::Text(s) => Some(s),
        JsonTree::List(pair) => if pair.len() == 2 {
            match (pair[0].as_str(), pair[1].as_str()) {
                (Some(a), Some(b)) => Some(a + " "@ + b),
                _ => None,
            }
        } else {
            None
        },
        _ => None,
    }
}

/// The lines of the merges in a list.
pub open spec fn merge_lines(items: Seq<JsonTree>) -> Seq<Seq<char>>
    decreases items.len(),
{
    if items.len() == 0 {
        seq![]
    } else {
        match merge_line(items.last()) {
            Some(line) => merge_lines(items.drop_last()).push(line),
            None => merge_lines(items.drop_last()),
        }
    }
}

fn read_merge(item: &Json) -> (r: Option<String>)
    ensures
        match r {
            Some(line) => merge_line(item.tree()) == Some(line@),
            None => merge_line(item.tree()) is None,
        },
{
    match item.as_str() {
        Some(line) => {
            return Some(line.to_string());
        },
        None => {},
    }
    match item.as_list() {
        Some(pair) => {
            if pair.len() != 2 {
                return None;
            }
            assert(trees(pair@)[0] == pair@[0].tree() && trees(pair@)[1] == pair@[1].tree());
            match (pair[0].as_str(), pair[1].as_str()) {
                (Some(a), Some(b)) => {
                    let mut line = a.to_string();
                    line.append(" ");
                    line.append(b);
                    Some(line)
                },
                _ => None,
            }
        },
        None => None,
    }
}

/// Reads the merges in a list.
pub fn read_merges(items: &Vec<Json>) -> (r: Vec<String>)
    ensures
        texts(r@) == merge_lines(trees(items@)),
{
    let ghost all = trees(items@);
    let mut lines: Vec<String> = Vec::new();
    let mut i: usize = 0;
    assert(texts(lines@) =~= merge_lines(all.take(0)));
    while i < items.len()
        invariant
            i <= items@.len(),
            all == trees(items@),
            texts(lines@) == merge_lines(all.take(i as int)),
        decreases items@.len() - i,
    {
        assert(all.take(i + 1).drop_last() =~= all.take(i as int));
        assert(all.take(i + 1).last() == items@[i as int].tree());
        match read_merge(&items[i]) {
            Some(line) => {
                let ghost before = texts(lines@);
                lines.push(line);
                assert(texts(lines@) =~= before.push(line@));
            },
            None => {},
        }
        i += 1;
    }
    assert(all.take(i as int) =~= all);
    lines
}

} // verus!
