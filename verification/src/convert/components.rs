//! The parts of a tokenizer description.

use crate::json::{trees, Json, JsonTree};
use crate::text::str_eq;
use vstd::prelude::*;

verus! {

/// What a component is made of, under the first of three names that is there.
pub open spec fn parts_of(c: JsonTree) -> Option<JsonTree> {
    match c.get("normalizers"@) {
        Some(v) => Some(v),
        None => match c.get("pretokenizers"@) {
            Some(v) => Some(v),
            None => c.get("decoders"@),
        },
    }
}

proof fn lemma_entry_smaller(entries: Seq<(Seq<char>, JsonTree)>, key: Seq<char>, i: int)
    requires
        0 <= i,
    ensures
        JsonTree::entry_from(entries, key, i) matches Some(v) ==> decreases_to!(entries => v),
    decreases entries.len() - i,
{
    if i < entries.len() {
        if entries[i].0 == key {
            assert(decreases_to!(entries => entries[i]));
            assert(decreases_to!(entries[i] => entries[i].1));
        } else {
            lemma_entry_smaller(entries, key, i + 1);
        }
    }
}

proof fn lemma_get_smaller(c: JsonTree, key: Seq<char>)
    ensures
        c.get(key) matches Some(v) ==> decreases_to!(c => v),
{
    match c {
        JsonTree::Entries(entries) => {
            assert(decreases_to!(c => c->Entries_0));
            lemma_entry_smaller(entries, key, 0);
        },
        _ => {},
    }
}

/// The items of a component's parts come below the component.
pub proof fn lemma_parts_smaller(c: JsonTree)
    ensures
        parts_of(c) matches Some(v) ==> v matches JsonTree::List(items) ==> decreases_to!(c => items),
{
    lemma_get_smaller(c, "normalizers"@);
    lemma_get_smaller(c, "pretokenizers"@);
    lemma_get_smaller(c, "decoders"@);
    match parts_of(c) {
        Some(v) => {
            assert(decreases_to!(c => v));
            match v {
                JsonTree::List(items) => {
                    assert(decreases_to!(v => v->List_0));
                },
                _ => {},
            }
        },
        None => {},
    }
}

/// The component is of a type, or one of its parts is, or one of theirs.
pub open spec fn has_type(c: JsonTree, expected: Seq<char>) -> bool
    decreases c, 0int,
{
    proof {
        lemma_parts_smaller(c);
    }
    c.str_of("type"@) == Some(expected) || match parts_of(c) {
        Some(JsonTree::List(items)) => any_has_type(items, expected, 0),
        _ => false,
    }
}

/// One of the components from place `i` on is of a type, or has a part that is.
pub open spec fn any_has_type(items: Seq<JsonTree>, expected: Seq<char>, i: int) -> bool
    decreases items, items.len() - i,
{
    if i < 0 || i >= items.len() {
        false
    } else {
        has_type(items[i], expected) || any_has_type(items, expected, i + 1)
    }
}

/// There is a component, and it is or has one of a type.
pub open spec fn component_is(c: Option<JsonTree>, expected: Seq<char>) -> bool {
    match c {
        Some(c) => has_type(c, expected),
        None => false,
    }
}

fn has_kind(c: &Json, expected: &str) -> (r: bool)
    ensures
        r == has_type(c.tree(), expected@),
    decreases c.tree(),
{
    proof {
        lemma_parts_smaller(c.tree());
    }
    match c.str_of("type") {
        Some(kind) => {
            if str_eq(kind, expected) {
                return true;
            }
        },
        None => {},
    }
    let parts = match c.get("normalizers") {
        Some(v) => Some(v),
        None => match c.get("pretokenizers") {
            Some(v) => Some(v),
            None => c.get("decoders"),
        },
    };
    let items = match parts {
        Some(v) => match v.as_list() {
            Some(items) => items,
            None => {
                return false;
            },
        },
        None => {
            return false;
        },
    };
    let ghost all = trees(items@);
    let ghost whole = c.tree();
    assert(decreases_to!(whole => all));
    let mut i: usize = 0;
    while i < items.len()
        invariant
            i <= items@.len(),
            whole == c.tree(),
            all == trees(items@),
            decreases_to!(whole => all),
            has_type(whole, expected@) == any_has_type(all, expected@, i as int),
        decreases items@.len() - i,
    {
        assert(all[i as int] == items@[i as int].tree());
        assert(decreases_to!(all => all[i as int]));
        if has_kind(&items[i], expected) {
            return true;
        }
        i += 1;
    }
    false
}

/// Whether there is a component that is or has one of a type.
pub fn tokenizer_component_has_type(component: Option<&Json>, expected: &str) -> (r: bool)
    ensures
        r == component_is(
            match component {
                Some(c) => Some(c.tree()),
                None => None,
            },
            expected@,
        ),
{
    match component {
        Some(c) => has_kind(c, expected),
        None => false,
    }
}

} // verus!
