//! The order of texts, and sorting by it.

use crate::text::{chars_of, texts};
use vstd::prelude::*;

verus! {

/// Texts in the order of their code points; a text comes after its prefixes. This
/// is also the order of their UTF-8 bytes.
pub open spec fn text_le(a: Seq<char>, b: Seq<char>) -> bool
    decreases a.len(),
{
    if a.len() == 0 {
        true
    } else if b.len() == 0 {
        false
    } else if a[0] != b[0] {
        a[0] < b[0]
    } else {
        text_le(a.skip(1), b.skip(1))
    }
}

/// Of two texts one comes first.
pub proof fn text_le_total(a: Seq<char>, b: Seq<char>)
    ensures
        text_le(a, b) || text_le(b, a),
    decreases a.len(),
{
    if a.len() > 0 && b.len() > 0 && a[0] == b[0] {
        text_le_total(a.skip(1), b.skip(1));
    }
}

/// Only a text itself comes both before and after it.
pub proof fn text_le_antisymmetric(a: Seq<char>, b: Seq<char>)
    requires
        text_le(a, b),
        text_le(b, a),
    ensures
        a == b,
    decreases a.len(),
{
    if a.len() > 0 && b.len() > 0 {
        text_le_antisymmetric(a.skip(1), b.skip(1));
        assert(a =~= seq![a[0]] + a.skip(1));
        assert(b =~= seq![b[0]] + b.skip(1));
    } else {
        assert(a =~= b);
    }
}

/// The order carries over.
pub proof fn text_le_transitive(a: Seq<char>, b: Seq<char>, c: Seq<char>)
    requires
        text_le(a, b),
        text_le(b, c),
    ensures
        text_le(a, c),
    decreases a.len(),
{
    if a.len() > 0 && b.len() > 0 && c.len() > 0 && a[0] == b[0] && b[0] == c[0] {
        text_le_transitive(a.skip(1), b.skip(1), c.skip(1));
    }
}

/// Whether one text does not come after another.
pub fn text_not_after(a: &str, b: &str) -> (r: bool)
    ensures
        r == text_le(a@, b@),
{
    let x = chars_of(a);
    let y = chars_of(b);
    let mut i: usize = 0;
    assert(x@.skip(0) =~= x@);
    assert(y@.skip(0) =~= y@);
    while i < x.len()
        invariant
            i <= x@.len(),
            i <= y@.len(),
            text_le(a@, b@) == text_le(x@.skip(i as int), y@.skip(i as int)),
        decreases x@.len() - i,
    {
        if i == y.len() {
            return false;
        }
        if x[i] != y[i] {
            return x[i] < y[i];
        }
        assert(x@.skip(i as int).skip(1) =~= x@.skip(i + 1));
        assert(y@.skip(i as int).skip(1) =~= y@.skip(i + 1));
        i += 1;
    }
    true
}

/// The places `0..n`, each once, in an order in which the keys ascend.
pub open spec fn ascending(keys: Seq<Seq<char>>, places: Seq<usize>) -> bool {
    &&& forall|i: int| 0 <= i < places.len() ==> #[trigger] places[i] < keys.len()
    &&& places.no_duplicates()
    &&& forall|i: int, j: int|
        #![trigger places[i], places[j]]
        0 <= i < j < places.len() ==> text_le(keys[places[i] as int], keys[places[j] as int])
}

/// The places of keys in ascending order of the keys, equal keys in their order.
pub fn sorted_places(keys: &Vec<String>) -> (r: Vec<usize>)
    ensures
        r@.len() == keys@.len(),
        ascending(texts(keys@), r@),
{
    let ghost ks = texts(keys@);
    let mut out: Vec<usize> = Vec::new();
    let mut n: usize = 0;
    while n < keys.len()
        invariant
            n <= keys@.len(),
            out@.len() == n,
            ks == texts(keys@),
            ascending(ks, out@),
            forall|i: int| 0 <= i < n ==> #[trigger] out@[i] < n,
        decreases keys@.len() - n,
    {
        let mut at: usize = n;
        while at > 0 && !text_not_after(keys[out[at - 1]].as_str(), keys[n].as_str())
            invariant
                at <= n < keys@.len(),
                out@.len() == n,
                ks == texts(keys@),
                ascending(ks, out@),
                forall|i: int| 0 <= i < n ==> #[trigger] out@[i] < n,
                forall|i: int|
                    at <= i < n ==> text_le(ks[n as int], ks[#[trigger] out@[i] as int]),
            decreases at,
        {
            proof {
                text_le_total(ks[n as int], ks[out@[at - 1] as int]);
            }
            at -= 1;
        }
        let ghost before = out@;
        out.insert(at, n);
        proof {
            lemma_inserted(ks, before, out@, at as int, n);
        }
        n += 1;
    }
    out
}

proof fn lemma_inserted(ks: Seq<Seq<char>>, before: Seq<usize>, after: Seq<usize>, at: int, n: usize)
    requires
        ascending(ks, before),
        0 <= at <= before.len(),
        after == before.insert(at, n),
        n < ks.len(),
        forall|i: int| 0 <= i < before.len() ==> #[trigger] before[i] < n,
        forall|i: int| at <= i < before.len() ==> text_le(ks[n as int], ks[#[trigger] before[i] as int]),
        at > 0 ==> text_le(ks[before[at - 1] as int], ks[n as int]),
    ensures
        ascending(ks, after),
        forall|i: int| 0 <= i < after.len() ==> #[trigger] after[i] <= n,
{
    assert forall|i: int| 0 <= i < after.len() implies after[i] == if i < at {
        before[i]
    } else if i == at {
        n
    } else {
        before[i - 1]
    } by {}
    assert forall|i: int, j: int|
        #![trigger after[i], after[j]]
        0 <= i < j < after.len() implies text_le(ks[after[i] as int], ks[after[j] as int])
        && after[i] != after[j] by {
        if j == at {
            if i < at - 1 {
                text_le_transitive(
                    ks[before[i] as int],
                    ks[before[at - 1] as int],
                    ks[n as int],
                );
            }
        } else if i == at {
        } else {
            let p = if i < at {
                i
            } else {
                i - 1
            };
            let q = if j < at {
                j
            } else {
                j - 1
            };
            assert(before[p] != before[q]);
            assert(text_le(ks[before[p] as int], ks[before[q] as int]));
        }
    }
}

/// A text put into its place among texts in ascending order, behind those equal to it.
pub open spec fn placed_text(sorted: Seq<Seq<char>>, t: Seq<char>) -> Seq<Seq<char>>
    decreases sorted.len(),
{
    if sorted.len() == 0 || text_le(sorted.last(), t) {
        sorted.push(t)
    } else {
        placed_text(sorted.drop_last(), t).push(sorted.last())
    }
}

/// Texts in ascending order.
pub open spec fn sorted_texts(ts: Seq<Seq<char>>) -> Seq<Seq<char>>
    decreases ts.len(),
{
    if ts.len() == 0 {
        ts
    } else {
        placed_text(sorted_texts(ts.drop_last()), ts.last())
    }
}

/// No text comes before one that it should follow.
pub open spec fn texts_ascend(ts: Seq<Seq<char>>) -> bool {
    forall|i: int, j: int|
        #![trigger ts[i], ts[j]]
        0 <= i < j < ts.len() ==> text_le(ts[i], ts[j])
}

proof fn lemma_placed(sorted: Seq<Seq<char>>, t: Seq<char>)
    requires
        texts_ascend(sorted),
    ensures
        texts_ascend(placed_text(sorted, t)),
        placed_text(sorted, t).len() == sorted.len() + 1,
        placed_text(sorted, t).to_multiset() == sorted.to_multiset().insert(t),
        forall|k: int|
            0 <= k < placed_text(sorted, t).len() ==> placed_text(sorted, t)[k] == t
                || sorted.contains(#[trigger] placed_text(sorted, t)[k]),
    decreases sorted.len(),
{
    let r = placed_text(sorted, t);
    if sorted.len() == 0 || text_le(sorted.last(), t) {
        sorted.to_multiset_ensures();
        assert forall|i: int, j: int|
            #![trigger r[i], r[j]]
            0 <= i < j < r.len() implies text_le(r[i], r[j]) by {
            if j == r.len() - 1 && i < r.len() - 2 {
                text_le_transitive(sorted[i], sorted.last(), t);
            }
        }
        assert forall|k: int| 0 <= k < r.len() implies r[k] == t || sorted.contains(
            #[trigger] r[k],
        ) by {
            if k < sorted.len() {
                assert(sorted[k] == r[k]);
            }
        }
    } else {
        let init = sorted.drop_last();
        lemma_placed(init, t);
        let q = placed_text(init, t);
        q.to_multiset_ensures();
        init.to_multiset_ensures();
        assert(init.push(sorted.last()) =~= sorted);
        assert(r.to_multiset() =~= sorted.to_multiset().insert(t));
        text_le_total(sorted.last(), t);
        assert forall|k: int| 0 <= k < r.len() implies r[k] == t || sorted.contains(
            #[trigger] r[k],
        ) by {
            if k < q.len() {
                if q[k] != t {
                    let m = choose|m: int| 0 <= m < init.len() && init[m] == q[k];
                    assert(sorted[m] == r[k]);
                }
            } else {
                assert(sorted[sorted.len() - 1] == r[k]);
            }
        }
        assert forall|i: int, j: int|
            #![trigger r[i], r[j]]
            0 <= i < j < r.len() implies text_le(r[i], r[j]) by {
            if j == r.len() - 1 {
                assert(r[j] == sorted.last());
                assert(q[i] == r[i]);
                if q[i] != t {
                    let m = choose|m: int| 0 <= m < init.len() && init[m] == q[i];
                    assert(sorted[m] == r[i]);
                    assert(text_le(sorted[m], sorted[sorted.len() - 1]));
                }
            } else {
                assert(q[i] == r[i] && q[j] == r[j]);
            }
        }
    }
}

/// Sorting puts texts into ascending order, and loses and adds none.
pub proof fn sorted_texts_ascend(ts: Seq<Seq<char>>)
    ensures
        texts_ascend(sorted_texts(ts)),
        sorted_texts(ts).len() == ts.len(),
        sorted_texts(ts).to_multiset() == ts.to_multiset(),
    decreases ts.len(),
{
    if ts.len() > 0 {
        let init = ts.drop_last();
        sorted_texts_ascend(init);
        lemma_placed(sorted_texts(init), ts.last());
        init.to_multiset_ensures();
        assert(init.push(ts.last()) =~= ts);
    }
}

/// Each text comes ahead of those behind it, and no text is there twice.
pub open spec fn strictly_ascend(ts: Seq<Seq<char>>) -> bool {
    texts_ascend(ts) && ts.no_duplicates()
}

/// Sorting texts that differ makes them ascend strictly, and keeps each.
pub proof fn sorted_texts_ascend_strictly(ts: Seq<Seq<char>>)
    requires
        ts.no_duplicates(),
    ensures
        strictly_ascend(sorted_texts(ts)),
        forall|t: Seq<char>| #[trigger] sorted_texts(ts).contains(t) <==> ts.contains(t),
{
    broadcast use vstd::seq_lib::group_to_multiset_ensures;

    sorted_texts_ascend(ts);
    ts.lemma_multiset_has_no_duplicates();
    sorted_texts(ts).lemma_multiset_has_no_duplicates_conv();
    assert forall|t: Seq<char>| #[trigger] sorted_texts(ts).contains(t) <==> ts.contains(t) by {
        assert(sorted_texts(ts).contains(t) <==> sorted_texts(ts).to_multiset().count(t) > 0);
        assert(ts.contains(t) <==> ts.to_multiset().count(t) > 0);
    }
}

/// Texts in ascending order.
pub fn sort_texts(ts: Vec<String>) -> (r: Vec<String>)
    ensures
        texts(r@) == sorted_texts(texts(ts@)),
{
    let ghost all = texts(ts@);
    let mut out: Vec<String> = Vec::new();
    let mut n: usize = 0;
    assert(texts(out@) =~= sorted_texts(all.take(0)));
    while n < ts.len()
        invariant
            n <= ts@.len(),
            all == texts(ts@),
            out@.len() == n,
            texts(out@) == sorted_texts(all.take(n as int)),
        decreases ts@.len() - n,
    {
        let ghost sorted = texts(out@);
        let ghost t = all[n as int];
        let mut at: usize = n;
        assert(sorted.take(n as int) =~= sorted);
        assert(placed_text(sorted, t) =~= placed_text(sorted.take(at as int), t) + sorted.skip(
            at as int,
        ));
        while at > 0 && !text_not_after(out[at - 1].as_str(), ts[n].as_str())
            invariant
                at <= n < ts@.len(),
                out@.len() == n,
                sorted == texts(out@),
                all == texts(ts@),
                t == all[n as int],
                placed_text(sorted, t) == placed_text(sorted.take(at as int), t) + sorted.skip(
                    at as int,
                ),
            decreases at,
        {
            let ghost front = sorted.take(at as int);
            assert(front.drop_last() =~= sorted.take(at - 1));
            assert(front.last() == out@[at - 1]@);
            assert(placed_text(front, t) == placed_text(front.drop_last(), t).push(front.last()));
            assert(placed_text(front.drop_last(), t).push(front.last()) + sorted.skip(at as int)
                =~= placed_text(front.drop_last(), t) + sorted.skip(at - 1));
            at -= 1;
        }
        proof {
            let front = sorted.take(at as int);
            if at > 0 {
                assert(front.last() == out@[at - 1]@);
            }
            assert(placed_text(front, t) == front.push(t));
        }
        let copy = ts[n].clone();
        out.insert(at, copy);
        assert(texts(out@) =~= sorted.take(at as int).push(t) + sorted.skip(at as int));
        assert(all.take(n + 1).drop_last() =~= all.take(n as int));
        n += 1;
    }
    assert(all.take(n as int) =~= all);
    out
}

/// The first character in which two texts differ decides which comes first: the one with
/// the smaller number. A text comes ahead of those that go on behind it.
pub proof fn first_difference_decides(
    front: Seq<char>,
    x: char,
    y: char,
    a: Seq<char>,
    b: Seq<char>,
)
    ensures
        x as u32 != y as u32 ==> (text_le(front + seq![x] + a, front + seq![y] + b) <==> (x as u32) < (
        y as u32)),
        text_le(front, front + a),
        a.len() > 0 ==> !text_le(front + a, front),
    decreases front.len(),
{
    if front.len() > 0 {
        first_difference_decides(front.skip(1), x, y, a, b);
        assert((front + seq![x] + a).skip(1) =~= front.skip(1) + seq![x] + a);
        assert((front + seq![y] + b).skip(1) =~= front.skip(1) + seq![y] + b);
        assert((front + a).skip(1) =~= front.skip(1) + a);
    } else {
        assert(front + seq![x] + a =~= seq![x] + a);
        assert(front + seq![y] + b =~= seq![y] + b);
    }
}

} // verus!
