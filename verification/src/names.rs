//! A map from names to values that keeps the order in which names came in.

use crate::text::str_eq;
use std::collections::HashMap;
use vstd::prelude::*;
use vstd::utf8::encode_utf8;

verus! {

broadcast use vstd::std_specs::hash::group_hash_axioms;

/// A number that equal bytes have in common.
spec fn bytes_hash(b: Seq<u8>) -> nat
    decreases b.len(),
{
    if b.len() == 0 {
        0
    } else {
        (bytes_hash(b.drop_last()) * 31 + b.last() as nat) % 0x1_0000_0000_0000
    }
}

/// A number that equal texts have in common.
spec fn text_hash(s: Seq<char>) -> u64 {
    bytes_hash(encode_utf8(s)) as u64
}

fn hash_text(s: &str) -> (r: u64)
    ensures
        r == text_hash(s@),
{
    let b = s.as_bytes();
    let mut h: u64 = 0;
    let mut i: usize = 0;
    assert(b@.take(0) =~= seq![]);
    while i < b.len()
        invariant
            i <= b@.len(),
            h < 0x1_0000_0000_0000,
            h == bytes_hash(b@.take(i as int)),
        decreases b@.len() - i,
    {
        assert(b@.take(i + 1).drop_last() =~= b@.take(i as int));
        assert(b@.take(i + 1).last() == b@[i as int]);
        h = (h * 31 + b[i] as u64) % 0x1_0000_0000_0000;
        i += 1;
    }
    assert(b@.take(i as int) =~= b@);
    h
}

/// Every key's place is listed under the number of its text, and every listed place is
/// that of a key.
spec fn indexed(keys: Seq<String>, index: Map<u64, Vec<usize>>) -> bool {
    &&& forall|i: int|
        0 <= i < keys.len() ==> index.contains_key(text_hash((#[trigger] keys[i])@))
            && index[text_hash(keys[i]@)]@.contains(i as usize)
    &&& forall|h: u64, j: int|
        index.contains_key(h) && 0 <= j < index[h]@.len() ==> (#[trigger] index[h]@[j]) < keys.len()
}

/// Lists the place of a key behind those of the keys ahead of it.
fn add_place(index: &mut HashMap<u64, Vec<usize>>, keys: &Vec<String>, i: usize)
    requires
        i < keys@.len(),
        indexed(keys@.take(i as int), old(index)@),
    ensures
        indexed(keys@.take(i + 1), final(index)@),
{
    let ghost before = index@;
    let ghost init = keys@.take(i as int);
    let ghost all = keys@.take(i + 1);
    let h: u64 = hash_text(keys[i].as_str());
    let mut places = match index.remove(&h) {
        Some(places) => places,
        None => Vec::new(),
    };
    let ghost listed = places@;
    places.push(i);
    assert(places@.last() == i);
    assert forall|x: usize| listed.contains(x) implies places@.contains(x) by {
        let j = listed.index_of(x);
        assert(places@[j] == x);
    }
    let ghost grown = places@;
    index.insert(h, places);
    assert forall|k: int| 0 <= k < all.len() implies index@.contains_key(
        text_hash((#[trigger] all[k])@),
    ) && index@[text_hash(all[k]@)]@.contains(k as usize) by {
        if k < i {
            assert(init[k] == all[k]);
            assert(before.contains_key(text_hash(init[k]@)));
            if text_hash(all[k]@) == h {
                assert(listed.contains(k as usize));
            }
        } else {
            assert(grown[grown.len() - 1] == i);
        }
    }
    assert forall|g: u64, j: int|
        index@.contains_key(g) && 0 <= j < index@[g]@.len() implies (#[trigger] index@[g]@[j])
        < all.len() by {
        if g == h {
            if j < listed.len() {
                assert(grown[j] == listed[j]);
                assert(before[h]@[j] < init.len());
            }
        } else {
            assert(before[g]@[j] < init.len());
        }
    }
}

/// Lists the places of all keys.
fn index_keys(keys: &Vec<String>) -> (r: HashMap<u64, Vec<usize>>)
    ensures
        indexed(keys@, r@),
{
    let mut index: HashMap<u64, Vec<usize>> = HashMap::new();
    let mut i: usize = 0;
    while i < keys.len()
        invariant
            i <= keys@.len(),
            indexed(keys@.take(i as int), index@),
        decreases keys@.len() - i,
    {
        add_place(&mut index, keys, i);
        i += 1;
    }
    assert(keys@.take(i as int) =~= keys@);
    index
}

/// A map keyed by text. No name occurs twice, and a name keeps its place while
/// it stays in the map.
#[derive(Debug)]
pub struct NameMap<V> {
    keys: Vec<String>,
    values: Vec<V>,
    index: HashMap<u64, Vec<usize>>,
}

impl<V: View> View for NameMap<V> {
    type V = Map<Seq<char>, V::V>;

    closed spec fn view(&self) -> Map<Seq<char>, V::V> {
        Map::new(
            |k: Seq<char>| self.names().contains(k),
            |k: Seq<char>| self.values@[self.names().index_of(k)]@,
        )
    }
}

impl<V> NameMap<V> {
    /// The names, in the order in which they came in.
    pub closed spec fn names(&self) -> Seq<Seq<char>> {
        Seq::new(self.keys@.len(), |i: int| self.keys@[i]@)
    }

    #[verifier::type_invariant]
    spec fn wf(self) -> bool {
        &&& self.keys@.len() == self.values@.len()
        &&& self.names().no_duplicates()
        &&& indexed(self.keys@, self.index@)
    }
}

impl<V: View> NameMap<V> {
    proof fn lemma_at(&self, i: int)
        requires
            self.wf(),
            0 <= i < self.names().len(),
        ensures
            self@.contains_key(self.names()[i]),
            self@[self.names()[i]] == self.values@[i]@,
    {
        let names = self.names();
        assert(names.contains(names[i]));
        let j = names.index_of(names[i]);
        assert(names[j] == names[i]);
    }

    /// The empty map.
    pub fn new() -> (r: Self)
        ensures
            r@ == Map::<Seq<char>, V::V>::empty(),
            r.names() == Seq::<Seq<char>>::empty(),
    {
        let r = NameMap { keys: Vec::new(), values: Vec::new(), index: HashMap::new() };
        assert(r.names() =~= Seq::empty());
        assert(r@ =~= Map::empty());
        r
    }

    /// How many names the map has: each has one place in the order.
    pub fn len(&self) -> (r: usize)
        ensures
            r == self.names().len(),
            self.names().no_duplicates(),
            forall|k: Seq<char>| self.names().contains(k) <==> #[trigger] self@.contains_key(k),
    {
        proof {
            use_type_invariant(self);
        }
        self.keys.len()
    }

    /// The name at a place of the order.
    pub fn name_at(&self, i: usize) -> (r: &String)
        requires
            i < self.names().len(),
        ensures
            r@ == self.names()[i as int],
            self@.contains_key(r@),
    {
        proof {
            use_type_invariant(self);
            self.lemma_at(i as int);
        }
        &self.keys[i]
    }

    /// The value at a place of the order.
    pub fn value_at(&self, i: usize) -> (r: &V)
        requires
            i < self.names().len(),
        ensures
            self@.contains_key(self.names()[i as int]),
            r@ == self@[self.names()[i as int]],
    {
        proof {
            use_type_invariant(self);
            self.lemma_at(i as int);
        }
        &self.values[i]
    }

    /// The place of a name.
    pub fn find(&self, key: &str) -> (r: Option<usize>)
        ensures
            r is Some <==> self@.contains_key(key@),
            r matches Some(i) ==> i < self.names().len() && self.names()[i as int] == key@,
    {
        proof {
            use_type_invariant(self);
        }
        let h: u64 = hash_text(key);
        let places = match self.index.get(&h) {
            Some(places) => places,
            None => {
                proof {
                    if self.names().contains(key@) {
                        let i = self.names().index_of(key@);
                        assert(self.keys@[i]@ == key@);
                    }
                }
                return None;
            },
        };
        let mut j: usize = 0;
        while j < places.len()
            invariant
                j <= places@.len(),
                self.wf(),
                self.index@.contains_key(h),
                *places == self.index@[h],
                forall|k: int|
                    0 <= k < j ==> self.names()[(#[trigger] places@[k]) as int] != key@,
            decreases places@.len() - j,
        {
            assert(self.index@[h]@[j as int] < self.keys@.len());
            let i: usize = places[j];
            if str_eq(self.keys[i].as_str(), key) {
                assert(self.names()[i as int] == key@);
                return Some(i);
            }
            j += 1;
        }
        proof {
            if self.names().contains(key@) {
                let i = self.names().index_of(key@);
                assert(self.keys@[i]@ == key@);
                assert(self.keys.len() <= usize::MAX);
                let k = places@.index_of(i as usize);
                assert(places@[k] == i);
            }
        }
        None
    }

    /// Whether the map has a name.
    pub fn contains_key(&self, key: &str) -> (r: bool)
        ensures
            r == self@.contains_key(key@),
    {
        self.find(key).is_some()
    }

    /// The value of a name.
    pub fn get(&self, key: &str) -> (r: Option<&V>)
        ensures
            r is Some <==> self@.contains_key(key@),
            r matches Some(v) ==> v@ == self@[key@],
    {
        match self.find(key) {
            Some(i) => Some(self.value_at(i)),
            None => None,
        }
    }

    /// Gives a name a value: a new name comes last, one that was there keeps its
    /// place and loses its former value.
    pub fn insert(&mut self, key: String, value: V)
        ensures
            final(self)@ == old(self)@.insert(key@, value@),
            final(self).names() == if old(self)@.contains_key(key@) {
                old(self).names()
            } else {
                old(self).names().push(key@)
            },
    {
        proof {
            use_type_invariant(&*self);
        }
        let found = self.find(key.as_str());
        let mut whole = NameMap::new();
        std::mem::swap(self, &mut whole);
        let NameMap { mut keys, mut values, mut index } = whole;
        match found {
            Some(i) => {
                values.set(i, value);
            },
            None => {
                let i: usize = keys.len();
                keys.push(key);
                values.push(value);
                assert(keys@.take(i as int) =~= old(self).keys@);
                add_place(&mut index, &keys, i);
                assert(keys@.take(i + 1) =~= keys@);
            },
        }
        let ghost after = NameMap { keys, values, index };
        proof {
            lemma_insert(*old(self), after, key@, value, found);
        }
        *self = NameMap { keys, values, index };
    }

    /// Takes a name out, and gives back its value.
    pub fn remove(&mut self, key: &str) -> (r: Option<V>)
        ensures
            final(self)@ == old(self)@.remove(key@),
            r is Some <==> old(self)@.contains_key(key@),
            r matches Some(v) ==> v@ == old(self)@[key@],
            final(self).names() == if old(self)@.contains_key(key@) {
                old(self).names().remove(old(self).names().index_of(key@))
            } else {
                old(self).names()
            },
    {
        proof {
            use_type_invariant(&*self);
        }
        match self.find(key) {
            Some(i) => {
                let mut whole = NameMap::new();
                std::mem::swap(self, &mut whole);
                let NameMap { mut keys, mut values, index: _ } = whole;
                let _ = keys.remove(i);
                let gone = values.remove(i);
                let index = index_keys(&keys);
                let ghost after = NameMap { keys, values, index };
                proof {
                    old(self).lemma_at(i as int);
                    lemma_remove(*old(self), after, key@, i as int);
                }
                *self = NameMap { keys, values, index };
                Some(gone)
            },
            None => {
                assert(self@ =~= old(self)@.remove(key@));
                None
            },
        }
    }
}

impl<V: View + Clone> Clone for NameMap<V> {
    /// A copy with the same names in the same order. Where cloning a value keeps
    /// its view, the copy is the same map.
    fn clone(&self) -> (r: Self)
        ensures
            r.names() == self.names(),
            (forall|a: V, b: V| #[trigger] cloned(a, b) ==> a@ == b@) ==> r@ == self@,
    {
        proof {
            use_type_invariant(self);
        }
        let keys = self.keys.clone();
        let values = self.values.clone();
        let index = index_keys(&keys);
        let ghost r = NameMap { keys, values, index };
        assert(r.names() =~= self.names());
        proof {
            if forall|a: V, b: V| #[trigger] cloned(a, b) ==> a@ == b@ {
                assert forall|k: Seq<char>| self.names().contains(k) implies r@[k] == self@[k] by {
                    let i = self.names().index_of(k);
                    assert(cloned(self.values@[i], r.values@[i]));
                    self.lemma_at(i);
                    r.lemma_at(i);
                }
                assert(r@ =~= self@);
            }
        }
        NameMap { keys, values, index }
    }
}

proof fn lemma_insert<V: View>(
    before: NameMap<V>,
    after: NameMap<V>,
    key: Seq<char>,
    value: V,
    found: Option<usize>,
)
    requires
        before.wf(),
        indexed(after.keys@, after.index@),
        found is Some <==> before.names().contains(key),
        found matches Some(i) ==> {
            &&& i < before.names().len()
            &&& before.names()[i as int] == key
            &&& after.keys@ == before.keys@
            &&& after.values@ == before.values@.update(i as int, value)
        },
        found is None ==> {
            &&& after.keys@.len() == before.keys@.len() + 1
            &&& after.keys@.drop_last() =~= before.keys@
            &&& after.keys@.last()@ == key
            &&& after.values@ == before.values@.push(value)
        },
    ensures
        after.wf(),
        after@ == before@.insert(key, value@),
        after.names() == if found is Some {
            before.names()
        } else {
            before.names().push(key)
        },
{
    let b = before.names();
    let a = after.names();
    if found is Some {
        let i = found->0 as int;
        assert(a =~= b);
        assert forall|k: Seq<char>| b.contains(k) && k != key implies after@[k] == before@[k] by {
            assert(b[b.index_of(k)] == k);
        }
        after.lemma_at(i);
    } else {
        assert forall|j: int| 0 <= j < b.len() implies a[j] == b[j] by {
            assert(after.keys@.drop_last()[j] == before.keys@[j]);
        }
        assert(a =~= b.push(key));
        assert(a.no_duplicates()) by {
            assert forall|i: int, j: int| 0 <= i < a.len() && 0 <= j < a.len() && i != j implies a[i]
                != a[j] by {
                if i < b.len() && j < b.len() {
                    assert(b[i] != b[j]);
                } else if i < b.len() {
                    assert(b.contains(b[i]));
                } else {
                    assert(b.contains(b[j]));
                }
            }
        }
        assert forall|k: Seq<char>| b.contains(k) implies a.contains(k) && after@[k] == before@[k] by {
            let j = b.index_of(k);
            assert(a[j] == k);
            after.lemma_at(j);
        }
        after.lemma_at(b.len() as int);
        assert forall|k: Seq<char>| a.contains(k) && k != key implies b.contains(k) by {
            let j = a.index_of(k);
            assert(b[j] == k);
        }
    }
    assert(after@ =~= before@.insert(key, value@));
}

proof fn lemma_remove<V: View>(before: NameMap<V>, after: NameMap<V>, key: Seq<char>, i: int)
    requires
        before.wf(),
        0 <= i < before.names().len(),
        before.names()[i] == key,
        after.keys@ == before.keys@.remove(i),
        after.values@ == before.values@.remove(i),
        indexed(after.keys@, after.index@),
    ensures
        after.wf(),
        after@ == before@.remove(key),
        after.names() == before.names().remove(before.names().index_of(key)),
{
    let b = before.names();
    let a = after.names();
    assert(b.contains(key));
    assert(b.index_of(key) == i);
    assert(a =~= b.remove(i));
    assert forall|k: Seq<char>| a.contains(k) <==> b.contains(k) && k != key by {
        if a.contains(k) {
            let j = a.index_of(k);
            assert(b[if j < i { j } else { j + 1 }] == k);
        }
        if b.contains(k) && k != key {
            let j = b.index_of(k);
            assert(a[if j < i { j } else { j - 1 }] == k);
        }
    }
    assert(a.no_duplicates());
    assert forall|k: Seq<char>| a.contains(k) implies after@[k] == before@[k] by {
        let j = a.index_of(k);
        after.lemma_at(j);
        before.lemma_at(if j < i { j } else { j + 1 });
    }
    assert(after@ =~= before@.remove(key));
}

} // verus!
