//! JSON documents.

use crate::text::str_eq;
use vstd::prelude::*;

verus! {

/// A value of a JSON document.
#[derive(Debug)]
pub enum Json {
    Null,
    Bool(bool),
    Number(JsonNumber),
    Text(String),
    List(Vec<Json>),
    Entries(Vec<(String, Json)>),
}

/// A number as the integers that it is equal to, where there is such an integer.
#[derive(Debug, Clone, Copy, PartialEq, Eq, Structural)]
pub struct JsonNumber {
    pub unsigned: Option<u64>,
    pub signed: Option<i64>,
}

/// A value of a JSON document, with its texts and lists as sequences.
pub enum JsonTree {
    Null,
    Bool(bool),
    Number(JsonNumber),
    Text(Seq<char>),
    List(Seq<JsonTree>),
    Entries(Seq<(Seq<char>, JsonTree)>),
}

impl Json {
    /// The value as a tree.
    pub open spec fn tree(self) -> JsonTree
        decreases self,
    {
        match self {
            Json::Null => JsonTree::Null,
            Json::Bool(b) => JsonTree::Bool(b),
            Json::Number(n) => JsonTree::Number(n),
            Json::Text(s) => JsonTree::Text(s@),
            Json::List(items) => JsonTree::List(
                Seq::new(
                    items@.len(),
                    |i: int|
                        if 0 <= i < items@.len() {
                            items@[i].tree()
                        } else {
                            JsonTree::Null
                        },
                ),
            ),
            Json::Entries(entries) => JsonTree::Entries(
                Seq::new(
                    entries@.len(),
                    |i: int|
                        if 0 <= i < entries@.len() {
                            (entries@[i].0@, entries@[i].1.tree())
                        } else {
                            (seq![], JsonTree::Null)
                        },
                ),
            ),
        }
    }
}


impl JsonTree {
    /// The place of an entry, from place `i` on.
    pub open spec fn entry_from(entries: Seq<(Seq<char>, JsonTree)>, key: Seq<char>, i: int) -> Option<
        JsonTree,
    >
        decreases entries.len() - i,
    {
        if i < 0 || i >= entries.len() {
            None
        } else if entries[i].0 == key {
            Some(entries[i].1)
        } else {
            Self::entry_from(entries, key, i + 1)
        }
    }

    /// The entry of an object. Other values have none.
    pub open spec fn get(self, key: Seq<char>) -> Option<JsonTree> {
        match self {
            JsonTree::Entries(entries) => Self::entry_from(entries, key, 0),
            _ => None,
        }
    }

    pub open spec fn as_str(self) -> Option<Seq<char>> {
        match self {
            JsonTree::Text(s) => Some(s),
            _ => None,
        }
    }

    pub open spec fn as_bool(self) -> Option<bool> {
        match self {
            JsonTree::Bool(b) => Some(b),
            _ => None,
        }
    }

    pub open spec fn as_u64(self) -> Option<u64> {
        match self {
            JsonTree::Number(n) => n.unsigned,
            _ => None,
        }
    }

    pub open spec fn as_i64(self) -> Option<i64> {
        match self {
            JsonTree::Number(n) => n.signed,
            _ => None,
        }
    }

    pub open spec fn as_list(self) -> Option<Seq<JsonTree>> {
        match self {
            JsonTree::List(items) => Some(items),
            _ => None,
        }
    }

    pub open spec fn as_entries(self) -> Option<Seq<(Seq<char>, JsonTree)>> {
        match self {
            JsonTree::Entries(entries) => Some(entries),
            _ => None,
        }
    }

    /// No two entries of an object stand under one key.
    pub open spec fn keys_differ(self) -> bool {
        self.as_entries() matches Some(entries) ==> forall|i: int, j: int|
            #![trigger entries[i], entries[j]]
            0 <= i < j < entries.len() ==> entries[i].0 != entries[j].0
    }

    /// The text of an entry.
    pub open spec fn str_of(self, key: Seq<char>) -> Option<Seq<char>> {
        match self.get(key) {
            Some(v) => v.as_str(),
            None => None,
        }
    }

    /// The number of an entry.
    pub open spec fn u64_of(self, key: Seq<char>) -> Option<u64> {
        match self.get(key) {
            Some(v) => v.as_u64(),
            None => None,
        }
    }

    /// The number of an entry.
    pub open spec fn i64_of(self, key: Seq<char>) -> Option<i64> {
        match self.get(key) {
            Some(v) => v.as_i64(),
            None => None,
        }
    }

    /// The list of an entry.
    pub open spec fn list_of(self, key: Seq<char>) -> Option<Seq<JsonTree>> {
        match self.get(key) {
            Some(v) => v.as_list(),
            None => None,
        }
    }

    /// The entry says that something is so. Nothing else counts as such.
    pub open spec fn is_set(self, key: Seq<char>) -> bool {
        match self.get(key) {
            Some(v) => v.as_bool() == Some(true),
            None => false,
        }
    }
}

/// The trees of a list of values.
pub open spec fn trees(items: Seq<Json>) -> Seq<JsonTree> {
    Seq::new(items.len(), |i: int| items[i].tree())
}

/// The entries of an object as trees.
pub open spec fn entry_trees(entries: Seq<(String, Json)>) -> Seq<(Seq<char>, JsonTree)> {
    Seq::new(entries.len(), |i: int| (entries[i].0@, entries[i].1.tree()))
}

/// The value that was found stands for a tree, or both are missing.
pub open spec fn same_value(r: Option<&Json>, t: Option<JsonTree>) -> bool {
    match (r, t) {
        (Some(v), Some(t)) => v.tree() == t,
        (None, None) => true,
        _ => false,
    }
}

/// The text that was found is the expected one, or both are missing.
pub open spec fn same_str(r: Option<&str>, t: Option<Seq<char>>) -> bool {
    match (r, t) {
        (Some(v), Some(t)) => v@ == t,
        (None, None) => true,
        _ => false,
    }
}

impl Json {
    proof fn lemma_list(self)
        ensures
            self matches Json::List(items) ==> self.tree() == JsonTree::List(trees(items@)),
            self matches Json::Entries(entries) ==> self.tree() == JsonTree::Entries(
                entry_trees(entries@),
            ),
    {
        match self {
            Json::List(items) => {
                assert((self.tree()->List_0) =~= trees(items@));
            },
            Json::Entries(entries) => {
                assert((self.tree()->Entries_0) =~= entry_trees(entries@));
            },
            _ => {},
        }
    }

    /// The entry of an object.
    pub fn get(&self, key: &str) -> (r: Option<&Json>)
        ensures
            same_value(r, self.tree().get(key@)),
    {
        proof {
            self.lemma_list();
        }
        match self {
            Json::Entries(entries) => {
                let ghost all = entry_trees(entries@);
                let mut i: usize = 0;
                while i < entries.len()
                    invariant
                        i <= entries@.len(),
                        all == entry_trees(entries@),
                        JsonTree::entry_from(all, key@, 0) == JsonTree::entry_from(
                            all,
                            key@,
                            i as int,
                        ),
                        self.tree() == JsonTree::Entries(all),
                    decreases entries@.len() - i,
                {
                    if str_eq(entries[i].0.as_str(), key) {
                        assert(all[i as int].1 == entries@[i as int].1.tree());
                        return Some(&entries[i].1);
                    }
                    i += 1;
                }
                None
            },
            _ => None,
        }
    }

    pub fn as_str(&self) -> (r: Option<&str>)
        ensures
            same_str(r, self.tree().as_str()),
    {
        match self {
            Json::Text(s) => Some(s.as_str()),
            _ => None,
        }
    }

    pub fn as_bool(&self) -> (r: Option<bool>)
        ensures
            r == self.tree().as_bool(),
    {
        match self {
            Json::Bool(b) => Some(*b),
            _ => None,
        }
    }

    pub fn as_u64(&self) -> (r: Option<u64>)
        ensures
            r == self.tree().as_u64(),
    {
        match self {
            Json::Number(n) => n.unsigned,
            _ => None,
        }
    }

    pub fn as_i64(&self) -> (r: Option<i64>)
        ensures
            r == self.tree().as_i64(),
    {
        match self {
            Json::Number(n) => n.signed,
            _ => None,
        }
    }

    pub fn as_list(&self) -> (r: Option<&Vec<Json>>)
        ensures
            match r {
                Some(items) => self.tree().as_list() == Some(trees(items@)),
                None => self.tree().as_list() is None,
            },
    {
        proof {
            self.lemma_list();
        }
        match self {
            Json::List(items) => Some(items),
            _ => None,
        }
    }

    pub fn as_entries(&self) -> (r: Option<&Vec<(String, Json)>>)
        ensures
            match r {
                Some(entries) => self.tree().as_entries() == Some(entry_trees(entries@)),
                None => self.tree().as_entries() is None,
            },
    {
        proof {
            self.lemma_list();
        }
        match self {
            Json::Entries(entries) => Some(entries),
            _ => None,
        }
    }

    /// The text of an entry.
    pub fn str_of(&self, key: &str) -> (r: Option<&str>)
        ensures
            same_str(r, self.tree().str_of(key@)),
    {
        match self.get(key) {
            Some(v) => v.as_str(),
            None => None,
        }
    }

    /// The number of an entry.
    pub fn u64_of(&self, key: &str) -> (r: Option<u64>)
        ensures
            r == self.tree().u64_of(key@),
    {
        match self.get(key) {
            Some(v) => v.as_u64(),
            None => None,
        }
    }

    /// The number of an entry.
    pub fn i64_of(&self, key: &str) -> (r: Option<i64>)
        ensures
            r == self.tree().i64_of(key@),
    {
        match self.get(key) {
            Some(v) => v.as_i64(),
            None => None,
        }
    }

    /// The list of an entry.
    pub fn list_of(&self, key: &str) -> (r: Option<&Vec<Json>>)
        ensures
            match r {
                Some(items) => self.tree().list_of(key@) == Some(trees(items@)),
                None => self.tree().list_of(key@) is None,
            },
    {
        match self.get(key) {
            Some(v) => v.as_list(),
            None => None,
        }
    }

    /// Whether the entry says that something is so.
    pub fn is_set(&self, key: &str) -> (r: bool)
        ensures
            r == self.tree().is_set(key@),
    {
        match self.get(key) {
            Some(v) => match v.as_bool() {
                Some(b) => b,
                None => false,
            },
            None => false,
        }
    }
}

/// A parsed value of `serde_json`.
#[verifier::external_type_specification]
#[verifier::external_body]
pub struct ExJsonValue(serde_json::Value);

/// What a parsed value of `serde_json` holds: its texts, its integers, its items and
/// its entries, in the order in which its map is walked.
pub uninterp spec fn json_tree(v: serde_json::Value) -> JsonTree;

/// What `serde_json::from_slice` makes of bytes as a value: nothing where they are no
/// JSON document.
pub uninterp spec fn parsed_json(bytes: Seq<u8>) -> Option<JsonTree>;

/// The outermost layer of a parsed value.
enum JsonLayer {
    Null,
    Bool(bool),
    Number(JsonNumber),
    Text(String),
    List(Vec<serde_json::Value>),
    Entries(Vec<(String, serde_json::Value)>),
}

impl JsonLayer {
    spec fn tree(self) -> JsonTree {
        match self {
            JsonLayer::Null => JsonTree::Null,
            JsonLayer::Bool(b) => JsonTree::Bool(b),
            JsonLayer::Number(n) => JsonTree::Number(n),
            JsonLayer::Text(s) => JsonTree::Text(s@),
            JsonLayer::List(items) => JsonTree::List(
                Seq::new(items@.len(), |i: int| json_tree(items@[i])),
            ),
            JsonLayer::Entries(entries) => JsonTree::Entries(
                Seq::new(entries@.len(), |i: int| (entries@[i].0@, json_tree(entries@[i].1))),
            ),
        }
    }
}

/// `serde_json::from_slice` parses bytes as one value. Equal bytes give equal values,
/// and the same bytes are refused each time.
#[verifier::external_body]
fn parse_value(bytes: &[u8]) -> (r: Option<serde_json::Value>)
    ensures
        match r {
            Some(v) => parsed_json(bytes@) == Some(json_tree(v)),
            None => parsed_json(bytes@) is None,
        },
{
    serde_json::from_slice(bytes).ok()
}

/// The variants of `serde_json::Value` are told apart, and their fields handed out:
/// the items of an array in order, and the entries of a map in the map's order, no two of
/// them under one key. Of a number, `as_u64` and `as_i64` give the integers that it is
/// equal to.
#[verifier::external_body]
fn open_value(value: serde_json::Value) -> (r: JsonLayer)
    ensures
        r.tree() == json_tree(value),
        r.tree().keys_differ(),
{
    match value {
        serde_json::Value::Null => JsonLayer::Null,
        serde_json::Value::Bool(b) => JsonLayer::Bool(b),
        serde_json::Value::Number(n) => JsonLayer::Number(
            JsonNumber { unsigned: n.as_u64(), signed: n.as_i64() },
        ),
        serde_json::Value::String(s) => JsonLayer::Text(s),
        serde_json::Value::Array(items) => JsonLayer::List(items),
        serde_json::Value::Object(map) => JsonLayer::Entries(map.into_iter().collect()),
    }
}

/// The items in the opposite order.
fn turned<T>(v: Vec<T>) -> (r: Vec<T>)
    ensures
        r@ == v@.reverse(),
{
    let mut rest = v;
    let mut out: Vec<T> = Vec::new();
    while rest.len() > 0
        invariant
            rest@.len() + out@.len() == v@.len(),
            rest@ == v@.take(rest@.len() as int),
            out@ == v@.reverse().take(out@.len() as int),
        decreases rest@.len(),
    {
        let ghost before = out@;
        let ghost n = rest@.len() as int;
        match rest.pop() {
            Some(item) => {
                assert(item == v@[n - 1]);
                out.push(item);
                assert(rest@ =~= v@.take(n - 1));
                assert(out@ =~= v@.reverse().take(out@.len() as int));
            },
            None => {},
        }
    }
    assert(out@ =~= v@.reverse());
    out
}

/// Takes a parsed value apart, layer by layer.
fn json_from(value: serde_json::Value) -> (r: Json)
    ensures
        r.tree() == json_tree(value),
        r.tree().keys_differ(),
    decreases json_tree(value),
{
    let ghost whole = json_tree(value);
    match open_value(value) {
        JsonLayer::Null => Json::Null,
        JsonLayer::Bool(b) => Json::Bool(b),
        JsonLayer::Number(n) => Json::Number(n),
        JsonLayer::Text(s) => Json::Text(s),
        JsonLayer::List(values) => {
            let ghost all = whole->List_0;
            let ghost n = all.len() as int;
            let mut rest = turned(values);
            let mut items: Vec<Json> = Vec::new();
            while rest.len() > 0
                invariant
                    whole is List,
                    all == whole->List_0,
                    n == all.len(),
                    whole == json_tree(value),
                    rest@.len() + items@.len() == n,
                    forall|i: int|
                        0 <= i < rest@.len() ==> json_tree(#[trigger] rest@[i]) == all[n - 1 - i],
                    forall|i: int|
                        0 <= i < items@.len() ==> (#[trigger] items@[i]).tree() == all[i],
                decreases rest@.len(),
            {
                let ghost k = items@.len() as int;
                match rest.pop() {
                    Some(first) => {
                        assert(json_tree(first) == all[k]);
                        assert(decreases_to!(whole => whole->List_0));
                        assert(decreases_to!(all => all[k]));
                        let item = json_from(first);
                        items.push(item);
                    },
                    None => {},
                }
            }
            let r = Json::List(items);
            proof {
                r.lemma_list();
                assert(trees(items@) =~= all);
            }
            r
        },
        JsonLayer::Entries(values) => {
            let ghost all = whole->Entries_0;
            let ghost n = all.len() as int;
            let mut rest = turned(values);
            let mut entries: Vec<(String, Json)> = Vec::new();
            while rest.len() > 0
                invariant
                    whole is Entries,
                    all == whole->Entries_0,
                    n == all.len(),
                    whole == json_tree(value),
                    rest@.len() + entries@.len() == n,
                    forall|i: int|
                        0 <= i < rest@.len() ==> (
                            (#[trigger] rest@[i]).0@,
                            json_tree(rest@[i].1),
                        ) == all[n - 1 - i],
                    forall|i: int|
                        0 <= i < entries@.len() ==> (
                            (#[trigger] entries@[i]).0@,
                            entries@[i].1.tree(),
                        ) == all[i],
                decreases rest@.len(),
            {
                let ghost k = entries@.len() as int;
                match rest.pop() {
                    Some((key, first)) => {
                        assert((key@, json_tree(first)) == all[k]);
                        assert(decreases_to!(whole => whole->Entries_0));
                        assert(decreases_to!(all => all[k]));
                        assert(decreases_to!(all[k] => all[k].1));
                        let item = json_from(first);
                        entries.push((key, item));
                    },
                    None => {},
                }
            }
            let r = Json::Entries(entries);
            proof {
                r.lemma_list();
                assert(entry_trees(entries@) =~= all);
            }
            r
        },
    }
}

/// Parses a JSON document.
pub fn parse_json(bytes: &[u8]) -> (r: Option<Json>)
    ensures
        match r {
            Some(j) => parsed_json(bytes@) == Some(j.tree()) && j.tree().keys_differ(),
            None => parsed_json(bytes@) is None,
        },
{
    match parse_value(bytes) {
        Some(value) => Some(json_from(value)),
        None => None,
    }
}

/// The first entry under a key is found; a key that no entry has is not.
pub proof fn first_entry_is_found(entries: Seq<(Seq<char>, JsonTree)>, key: Seq<char>, i: int)
    requires
        0 <= i <= entries.len(),
        forall|j: int| 0 <= j < i ==> (#[trigger] entries[j]).0 != key,
    ensures
        i < entries.len() && entries[i].0 == key ==> JsonTree::Entries(entries).get(key) == Some(
            entries[i].1,
        ),
        i == entries.len() ==> JsonTree::Entries(entries).get(key) is None,
{
    lemma_entry_from(entries, key, 0, i);
}

proof fn lemma_entry_from(entries: Seq<(Seq<char>, JsonTree)>, key: Seq<char>, from: int, i: int)
    requires
        0 <= from <= i <= entries.len(),
        forall|j: int| from <= j < i ==> (#[trigger] entries[j]).0 != key,
    ensures
        JsonTree::entry_from(entries, key, from) == JsonTree::entry_from(entries, key, i),
    decreases i - from,
{
    if from < i {
        lemma_entry_from(entries, key, from + 1, i);
    }
}

/// Only an object has entries, and every kind of value is read as that kind alone.
pub proof fn values_are_of_one_kind(v: JsonTree, key: Seq<char>)
    ensures
        !(v is Entries) ==> v.get(key) is None,
        v.as_str() is Some <==> v is Text,
        v.as_bool() is Some <==> v is Bool,
        v.as_list() is Some <==> v is List,
        v.as_entries() is Some <==> v is Entries,
        v.as_u64() is Some ==> v is Number,
        v.as_i64() is Some ==> v is Number,
        v.str_of(key) matches Some(s) ==> v.get(key) == Some(JsonTree::Text(s)),
        v.get(key) matches Some(JsonTree::Text(s)) ==> v.str_of(key) == Some(s),
        v.is_set(key) <==> v.get(key) == Some(JsonTree::Bool(true)),
{
}

} // verus!
