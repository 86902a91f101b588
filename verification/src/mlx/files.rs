//! Which files of a directory hold a model's weights.

use crate::order::{sort_texts, sorted_texts};
use crate::text::{chars_of, matches_at, texts};
use vstd::prelude::*;

verus! {

/// The name of a file in the safetensors format: something, a dot and the format's name.
pub open spec fn is_weight_file(name: Seq<char>) -> bool {
    let ending = ".safetensors"@;
    name.len() > ending.len() && name.skip(name.len() - ending.len()) == ending
}

/// The names among the first `n` that are those of weight files.
pub open spec fn weight_names(names: Seq<Seq<char>>, n: int) -> Seq<Seq<char>>
    decreases n,
{
    if n <= 0 {
        seq![]
    } else if is_weight_file(names[n - 1]) {
        weight_names(names, n - 1).push(names[n - 1])
    } else {
        weight_names(names, n - 1)
    }
}

fn is_weights(name: &str) -> (r: bool)
    ensures
        r == is_weight_file(name@),
{
    let chars = chars_of(name);
    let ending = chars_of(".safetensors");
    if chars.len() <= ending.len() {
        return false;
    }
    let at: usize = chars.len() - ending.len();
    assert(name@.skip(at as int) =~= name@.subrange(at as int, at + ending@.len()));
    matches_at(&chars, &ending, at)
}

/// The weight files among the names in a directory, in the order of their names. None
/// where there is no such file.
pub fn weight_files(names: Vec<String>) -> (r: Option<Vec<String>>)
    ensures
        ({
            let found = weight_names(texts(names@), names@.len() as int);
            match r {
                Some(files) => found.len() > 0 && texts(files@) == sorted_texts(found),
                None => found.len() == 0,
            }
        }),
{
    let ghost all = texts(names@);
    let mut found: Vec<String> = Vec::new();
    let mut i: usize = 0;
    assert(texts(found@) =~= weight_names(all, 0));
    while i < names.len()
        invariant
            i <= names@.len(),
            all == texts(names@),
            texts(found@) == weight_names(all, i as int),
        decreases names@.len() - i,
    {
        let ghost before = texts(found@);
        assert(all[i as int] == names@[i as int]@);
        if is_weights(names[i].as_str()) {
            let name = names[i].clone();
            found.push(name);
            assert(texts(found@) =~= before.push(all[i as int]));
        }
        i += 1;
    }
    assert(texts(found@).len() == found@.len());
    if found.len() == 0 {
        None
    } else {
        Some(sort_texts(found))
    }
}

} // verus!
