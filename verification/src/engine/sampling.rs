//! The order of logits, and what is sampled from.
//!
//! Logits are the bits of single-precision numbers. The order is the total order of
//! the numbers, in which the negative zero comes before the positive one.

use crate::quant::formats::ONE_BITS;
use std::collections::HashSet;
use vstd::prelude::*;

verus! {

broadcast use vstd::std_specs::hash::group_hash_axioms;

/// The number with these bits is neither infinite nor undefined.
pub open spec fn finite(bits: u32) -> bool {
    (bits / 0x80_0000) % 0x100 != 0xff
}

/// A place in the total order of the numbers.
pub open spec fn rank(bits: u32) -> int {
    if bits < 0x8000_0000 {
        bits as int
    } else {
        0x7fff_ffff - bits
    }
}

/// The bits are not those of a number.
pub open spec fn undefined(bits: u32) -> bool {
    bits % 0x8000_0000 > 0x7f80_0000
}

/// A place in the order of the numbers, in which both zeros are the same.
pub open spec fn height(bits: u32) -> int {
    if bits < 0x8000_0000 {
        bits as int
    } else {
        0x8000_0000 - bits
    }
}

/// One number is less than another or equal to it.
pub open spec fn at_most(a: u32, b: u32) -> bool {
    !undefined(a) && !undefined(b) && height(a) <= height(b)
}

/// One number is less than another.
pub open spec fn less(a: u32, b: u32) -> bool {
    !undefined(a) && !undefined(b) && height(a) < height(b)
}

/// Whether one number is less than another or equal to it.
pub fn is_at_most(a: u32, b: u32) -> (r: bool)
    ensures
        r == at_most(a, b),
{
    if a % 0x8000_0000 > 0x7f80_0000 || b % 0x8000_0000 > 0x7f80_0000 {
        return false;
    }
    if a < 0x8000_0000 {
        if b < 0x8000_0000 {
            a <= b
        } else {
            a == 0 && b == 0x8000_0000
        }
    } else {
        b < 0x8000_0000 || b <= a
    }
}

/// Whether one number is less than another.
pub fn is_less(a: u32, b: u32) -> (r: bool)
    ensures
        r == less(a, b),
{
    is_at_most(a, b) && !is_at_most(b, a)
}

/// Whether the number with these bits is neither infinite nor undefined.
pub fn is_finite(bits: u32) -> (r: bool)
    ensures
        r == finite(bits),
{
    (bits / 0x80_0000) % 0x100 != 0xff
}

/// Whether one number comes before another in the total order.
pub fn ranks_below(a: u32, b: u32) -> (r: bool)
    ensures
        r == (rank(a) < rank(b)),
{
    if a < 0x8000_0000 {
        b < 0x8000_0000 && a < b
    } else {
        b < 0x8000_0000 || b < a
    }
}

/// The place of the greatest finite number among the first `n`: the last such place
/// where several are as great.
pub open spec fn greatest(logits: Seq<u32>, n: int) -> Option<int>
    decreases n,
{
    if n <= 0 {
        None
    } else {
        match greatest(logits, n - 1) {
            None => if finite(logits[n - 1]) {
                Some(n - 1)
            } else {
                None
            },
            Some(i) => if finite(logits[n - 1]) && rank(logits[i]) <= rank(logits[n - 1]) {
                Some(n - 1)
            } else {
                Some(i)
            },
        }
    }
}

/// A greedy choice is finite, and no finite logit is greater, nor one as great further
/// back. There is none only where no logit is finite.
pub proof fn greatest_is_greatest(logits: Seq<u32>, n: int)
    requires
        0 <= n <= logits.len(),
    ensures
        match greatest(logits, n) {
            Some(i) => {
                &&& 0 <= i < n
                &&& finite(logits[i])
                &&& forall|j: int|
                    0 <= j < n && finite(logits[j]) ==> rank(#[trigger] logits[j]) <= rank(
                        logits[i],
                    )
                &&& forall|j: int|
                    i < j < n && finite(logits[j]) ==> rank(#[trigger] logits[j]) < rank(
                        logits[i],
                    )
            },
            None => forall|j: int| 0 <= j < n ==> !finite(#[trigger] logits[j]),
        },
    decreases n,
{
    if n > 0 {
        greatest_is_greatest(logits, n - 1);
    }
}

/// The token with the greatest finite logit, or token zero where none is finite. A
/// place is cut to the 32 bits of a token.
pub fn greedy_token(logits: &[u32]) -> (r: u32)
    ensures
        r == (match greatest(logits@, logits@.len() as int) {
            Some(i) => i as u32,
            None => 0,
        }),
{
    let mut best: Option<usize> = None;
    let mut i: usize = 0;
    while i < logits.len()
        invariant
            i <= logits@.len(),
            match best {
                Some(b) => b < i && greatest(logits@, i as int) == Some(b as int),
                None => greatest(logits@, i as int) is None,
            },
        decreases logits@.len() - i,
    {
        if is_finite(logits[i]) {
            match best {
                None => {
                    best = Some(i);
                },
                Some(b) => {
                    if !ranks_below(logits[i], logits[b]) {
                        best = Some(i);
                    }
                },
            }
        }
        i += 1;
    }
    match best {
        Some(b) => b as u32,
        None => 0,
    }
}

/// The places of the finite logits among the first `n`, in order.
pub open spec fn finite_among(logits: Seq<u32>, n: int) -> Seq<usize>
    decreases n,
{
    if n <= 0 {
        seq![]
    } else if finite(logits[n - 1]) {
        finite_among(logits, n - 1).push((n - 1) as usize)
    } else {
        finite_among(logits, n - 1)
    }
}

/// The places of the finite logits, in order: the tokens that can be sampled.
pub fn finite_places(logits: &[u32]) -> (r: Vec<usize>)
    ensures
        r@ == finite_among(logits@, logits@.len() as int),
{
    let mut out: Vec<usize> = Vec::new();
    let mut i: usize = 0;
    while i < logits.len()
        invariant
            i <= logits@.len(),
            out@ == finite_among(logits@, i as int),
        decreases logits@.len() - i,
    {
        if is_finite(logits[i]) {
            out.push(i);
        }
        i += 1;
    }
    out
}

/// The token where nothing is left to chance: zero where there are no logits, and the
/// greedy choice where the temperature is not above zero.
pub open spec fn settled(logits: Seq<u32>, temperature: u32) -> Option<u32> {
    if logits.len() == 0 {
        Some(0)
    } else if at_most(temperature, 0) {
        Some(
            match greatest(logits, logits.len() as int) {
                Some(i) => i as u32,
                None => 0,
            },
        )
    } else if finite_among(logits, logits.len() as int).len() == 0 {
        Some(0)
    } else {
        None
    }
}

/// The token where nothing is left to chance. Where there is none, one is drawn.
pub fn settled_token(logits: &[u32], temperature: u32) -> (r: Option<u32>)
    ensures
        r == settled(logits@, temperature),
{
    if logits.len() == 0 {
        return Some(0);
    }
    if is_at_most(temperature, 0) {
        return Some(greedy_token(logits));
    }
    if finite_places(logits).len() == 0 {
        return Some(0);
    }
    None
}

/// Whether each place, as a token, stands in the output already.
pub fn repeated(places: &Vec<usize>, output: &[u32]) -> (r: Vec<bool>)
    ensures
        r@ == Seq::new(places@.len(), |i: int| output@.contains(places@[i] as u32)),
{
    let mut seen: HashSet<u32> = HashSet::new();
    let mut k: usize = 0;
    while k < output.len()
        invariant
            k <= output@.len(),
            forall|t: u32|
                #![trigger seen@.contains(t)]
                seen@.contains(t) <==> output@.take(k as int).contains(t),
        decreases output@.len() - k,
    {
        let ghost before = seen@;
        let ghost front = output@.take(k as int);
        seen.insert(output[k]);
        k += 1;
        assert(output@.take(k as int) =~= front.push(output@[k - 1]));
        assert forall|t: u32| #![trigger seen@.contains(t)] seen@.contains(t)
            <==> output@.take(k as int).contains(t) by {
            if front.contains(t) {
                let i = choose|i: int| 0 <= i < front.len() && front[i] == t;
                assert(output@.take(k as int)[i] == t);
            }
            assert(output@.take(k as int)[k - 1] == output@[k - 1]);
            assert(before.contains(t) <==> front.contains(t));
        }
    }
    assert(output@.take(k as int) =~= output@);
    let mut out: Vec<bool> = Vec::new();
    let mut i: usize = 0;
    while i < places.len()
        invariant
            i <= places@.len(),
            forall|t: u32|
                #![trigger seen@.contains(t)]
                seen@.contains(t) <==> output@.contains(t),
            out@ == Seq::new(i as nat, |i: int| output@.contains(places@[i] as u32)),
        decreases places@.len() - i,
    {
        let token: u32 = places[i] as u32;
        let known = seen.contains(&token);
        assert(known == seen@.contains(token));
        out.push(known);
        i += 1;
        assert(out@ =~= Seq::new(i as nat, |i: int| output@.contains(places@[i] as u32)));
    }
    out
}

/// What the repetition penalty does to a logit.
#[derive(Debug, Clone, Copy, PartialEq, Eq, Structural)]
pub enum Penalty {
    Keep,
    Divide,
    Multiply,
}

/// What the repetition penalty does to a logit: one that stands in the output already
/// moves down, and only a penalty above one counts.
pub open spec fn penalty_of(seen: bool, penalty: u32, logit: u32) -> Penalty {
    if !seen || !less(ONE_BITS, penalty) {
        Penalty::Keep
    } else if at_most(0, logit) {
        Penalty::Divide
    } else {
        Penalty::Multiply
    }
}

/// What the repetition penalty does to a logit.
pub fn penalty_for(seen: bool, penalty: u32, logit: u32) -> (r: Penalty)
    ensures
        r == penalty_of(seen, penalty, logit),
{
    if !seen || !is_less(ONE_BITS, penalty) {
        Penalty::Keep
    } else if is_at_most(0, logit) {
        Penalty::Divide
    } else {
        Penalty::Multiply
    }
}

/// The first place, from `i` on, at which the sums reach a bound.
pub open spec fn first_reaching(sums: Seq<u32>, bound: u32, i: int) -> Option<int>
    decreases sums.len() - i,
{
    if i < 0 || i >= sums.len() {
        None
    } else if at_most(bound, sums[i]) {
        Some(i)
    } else {
        first_reaching(sums, bound, i + 1)
    }
}

/// How many of the candidates make up the nucleus, given the sums of their
/// probabilities: as few as reach the bound, and all where the bound is not below one.
pub open spec fn nucleus(sums: Seq<u32>, top_p: u32) -> nat {
    if !less(top_p, ONE_BITS) {
        sums.len()
    } else {
        match first_reaching(
            sums,
            if less(top_p, 0) {
                0
            } else {
                top_p
            },
            0,
        ) {
            Some(i) => (i + 1) as nat,
            None => sums.len(),
        }
    }
}

/// How many of the candidates are drawn from, best first, given the sums of their
/// probabilities up to each.
pub fn nucleus_size(sums: &Vec<u32>, top_p: u32) -> (r: usize)
    ensures
        r == nucleus(sums@, top_p),
        r <= sums@.len(),
{
    if !is_less(top_p, ONE_BITS) {
        return sums.len();
    }
    let bound: u32 = if is_less(top_p, 0) {
        0
    } else {
        top_p
    };
    let mut i: usize = 0;
    while i < sums.len()
        invariant
            i <= sums@.len(),
            less(top_p, ONE_BITS),
            bound == (if less(top_p, 0) {
                0
            } else {
                top_p
            }),
            first_reaching(sums@, bound, 0) == first_reaching(sums@, bound, i as int),
        decreases sums@.len() - i,
    {
        if is_at_most(bound, sums[i]) {
            return i + 1;
        }
        i += 1;
    }
    sums.len()
}

/// The first candidate, from `i` on, whose probability covers what is left of the draw.
pub open spec fn first_covering(rests: Seq<u32>, probs: Seq<u32>, i: int) -> Option<int>
    decreases rests.len() - i,
{
    if i < 0 || i >= rests.len() {
        None
    } else if at_most(rests[i], probs[i]) {
        Some(i)
    } else {
        first_covering(rests, probs, i + 1)
    }
}

/// The token that is drawn, given the candidates, their probabilities, and what is left
/// of the draw at each: the first that covers it, and the greedy choice where none does.
pub open spec fn drawn(
    logits: Seq<u32>,
    candidates: Seq<usize>,
    probs: Seq<u32>,
    rests: Seq<u32>,
) -> u32 {
    match first_covering(rests, probs, 0) {
        Some(i) => candidates[i] as u32,
        None => match greatest(logits, logits.len() as int) {
            Some(i) => i as u32,
            None => 0,
        },
    }
}

/// The token that is drawn.
pub fn drawn_token(
    logits: &[u32],
    candidates: &Vec<usize>,
    probs: &Vec<u32>,
    rests: &Vec<u32>,
) -> (r: u32)
    requires
        rests@.len() <= probs@.len() <= candidates@.len(),
    ensures
        r == drawn(logits@, candidates@, probs@, rests@),
{
    let mut i: usize = 0;
    while i < rests.len()
        invariant
            i <= rests@.len() <= probs@.len() <= candidates@.len(),
            first_covering(rests@, probs@, 0) == first_covering(rests@, probs@, i as int),
        decreases rests@.len() - i,
    {
        if is_at_most(rests[i], probs[i]) {
            return candidates[i] as u32;
        }
        i += 1;
    }
    greedy_token(logits)
}

/// Place `a` comes before place `b`: its number is greater, or as great and further to
/// the front.
pub open spec fn outranks(bits: Seq<u32>, a: int, b: int) -> bool {
    rank(bits[a]) > rank(bits[b]) || (rank(bits[a]) == rank(bits[b]) && a < b)
}

/// The places are those of all the numbers, each once, from the greatest number to the
/// least; equal numbers keep their order.
pub open spec fn ranked(bits: Seq<u32>, places: Seq<usize>) -> bool {
    &&& places.len() == bits.len()
    &&& forall|i: int| 0 <= i < places.len() ==> (#[trigger] places[i]) < bits.len()
    &&& forall|i: int, j: int|
        0 <= i < j < places.len() ==> outranks(
            bits,
            (#[trigger] places[i]) as int,
            (#[trigger] places[j]) as int,
        )
}

/// The places of the numbers, from the greatest to the least. There is one such order,
/// as `order_is_unique` shows.
pub open spec fn order_of(bits: Seq<u32>) -> Seq<usize> {
    choose|places: Seq<usize>| ranked(bits, places)
}

/// The places from `lo` up to `hi`, each once, from the greatest number to the least.
pub open spec fn ranked_run(bits: Seq<u32>, places: Seq<usize>, lo: int, hi: int) -> bool {
    &&& places.len() == hi - lo
    &&& forall|i: int| 0 <= i < places.len() ==> lo <= (#[trigger] places[i]) < hi
    &&& forall|i: int, j: int|
        0 <= i < j < places.len() ==> outranks(
            bits,
            (#[trigger] places[i]) as int,
            (#[trigger] places[j]) as int,
        )
}

fn merge_runs(
    bits: &Vec<u32>,
    left: &Vec<usize>,
    right: &Vec<usize>,
    lo: usize,
    mid: usize,
    hi: usize,
) -> (r: Vec<usize>)
    requires
        lo <= mid <= hi <= bits@.len(),
        ranked_run(bits@, left@, lo as int, mid as int),
        ranked_run(bits@, right@, mid as int, hi as int),
    ensures
        ranked_run(bits@, r@, lo as int, hi as int),
{
    let mut out: Vec<usize> = Vec::new();
    let mut i: usize = 0;
    let mut j: usize = 0;
    while i < left.len() || j < right.len()
        invariant
            lo <= mid <= hi <= bits@.len(),
            ranked_run(bits@, left@, lo as int, mid as int),
            ranked_run(bits@, right@, mid as int, hi as int),
            i <= left@.len(),
            j <= right@.len(),
            out@.len() == i + j,
            forall|k: int| 0 <= k < out@.len() ==> lo <= (#[trigger] out@[k]) < hi,
            forall|k: int, l: int|
                0 <= k < l < out@.len() ==> outranks(
                    bits@,
                    (#[trigger] out@[k]) as int,
                    (#[trigger] out@[l]) as int,
                ),
            forall|k: int, l: int|
                0 <= k < out@.len() && i <= l < left@.len() ==> outranks(
                    bits@,
                    (#[trigger] out@[k]) as int,
                    (#[trigger] left@[l]) as int,
                ),
            forall|k: int, l: int|
                0 <= k < out@.len() && j <= l < right@.len() ==> outranks(
                    bits@,
                    (#[trigger] out@[k]) as int,
                    (#[trigger] right@[l]) as int,
                ),
        decreases left@.len() - i + right@.len() - j,
    {
        if i < left.len() && (j >= right.len() || !ranks_below(bits[left[i]], bits[right[j]])) {
            let place: usize = left[i];
            assert forall|l: int| j <= l < right@.len() implies outranks(
                bits@,
                place as int,
                (#[trigger] right@[l]) as int,
            ) by {
                if l > j {
                    assert(outranks(bits@, right@[j as int] as int, right@[l] as int));
                }
            }
            out.push(place);
            i += 1;
        } else {
            let place: usize = right[j];
            assert forall|l: int| i <= l < left@.len() implies outranks(
                bits@,
                place as int,
                (#[trigger] left@[l]) as int,
            ) by {
                if l > i {
                    assert(outranks(bits@, left@[i as int] as int, left@[l] as int));
                }
            }
            out.push(place);
            j += 1;
        }
    }
    out
}

fn rank_run(bits: &Vec<u32>, lo: usize, hi: usize) -> (r: Vec<usize>)
    requires
        lo <= hi <= bits@.len(),
    ensures
        ranked_run(bits@, r@, lo as int, hi as int),
    decreases hi - lo,
{
    if hi - lo <= 1 {
        let mut out: Vec<usize> = Vec::new();
        if lo < hi {
            out.push(lo);
        }
        out
    } else {
        let mid: usize = lo + (hi - lo) / 2;
        let left = rank_run(bits, lo, mid);
        let right = rank_run(bits, mid, hi);
        merge_runs(bits, &left, &right, lo, mid, hi)
    }
}

/// The places of the numbers, from the greatest to the least.
pub fn ranked_places(bits: &Vec<u32>) -> (r: Vec<usize>)
    ensures
        ranked(bits@, r@),
        r@ == order_of(bits@),
{
    let places = rank_run(bits, 0, bits.len());
    proof {
        assert(ranked(bits@, places@));
        assert(bits.len() <= usize::MAX);
        order_is_unique(bits@, places@, order_of(bits@));
    }
    places
}

/// How many candidates stay: the best `top_k`, or all where `top_k` is zero.
pub open spec fn kept_candidates(n: nat, top_k: usize) -> nat {
    if top_k > 0 && n > top_k {
        top_k as nat
    } else {
        n
    }
}

/// The places of the candidates that are sampled from, best first.
pub fn candidate_order(scores: &Vec<u32>, top_k: usize) -> (r: Vec<usize>)
    ensures
        ranked(scores@, order_of(scores@)),
        r@ == order_of(scores@).take(kept_candidates(scores@.len(), top_k) as int),
{
    let mut places = ranked_places(scores);
    if top_k > 0 && places.len() > top_k {
        places.truncate(top_k);
    }
    assert(places@ =~= order_of(scores@).take(kept_candidates(scores@.len(), top_k) as int));
    places
}

/// There is one order of the places of given numbers, from the greatest to the least.
pub proof fn order_is_unique(bits: Seq<u32>, a: Seq<usize>, b: Seq<usize>)
    requires
        bits.len() <= usize::MAX,
        ranked(bits, a),
        ranked(bits, b),
    ensures
        a == b,
{
    let n = bits.len() as int;
    assert forall|k: int| 0 <= k < n implies a[k] == b[k] by {
        lemma_same_front(bits, a, b, k);
    }
    assert(a =~= b);
}

/// Every place stands somewhere in an order of the places.
pub proof fn lemma_place_of(bits: Seq<u32>, a: Seq<usize>, x: usize) -> (k: int)
    requires
        bits.len() <= usize::MAX,
        ranked(bits, a),
        x < bits.len(),
    ensures
        0 <= k < a.len(),
        a[k] == x,
{
    let n = bits.len();
    let values = a.to_set();
    assert(a.no_duplicates()) by {
        assert forall|i: int, j: int| 0 <= i < a.len() && 0 <= j < a.len() && i != j implies a[i]
            != a[j] by {
            if i < j {
                assert(outranks(bits, a[i] as int, a[j] as int));
            } else {
                assert(outranks(bits, a[j] as int, a[i] as int));
            }
        }
    }
    a.unique_seq_to_set();
    let all = Set::new(|v: usize| v < n);
    lemma_below(n);
    assert(values.subset_of(all)) by {
        assert forall|v: usize| values.contains(v) implies all.contains(v) by {
            let i = choose|i: int| 0 <= i < a.len() && a[i] == v;
            assert(a[i] < bits.len());
        }
    }
    vstd::set_lib::lemma_subset_equality(values, all);
    assert(values.contains(x));
    choose|k: int| 0 <= k < a.len() && a[k] == x
}

proof fn lemma_below(n: nat)
    requires
        n <= usize::MAX + 1,
    ensures
        Set::new(|v: usize| v < n).finite(),
        Set::new(|v: usize| v < n).len() == n,
    decreases n,
{
    let s = Set::new(|v: usize| v < n);
    if n == 0 {
        assert(s =~= Set::empty());
    } else {
        lemma_below((n - 1) as nat);
        let t = Set::new(|v: usize| v < (n - 1) as nat);
        assert(s =~= t.insert((n - 1) as usize));
    }
}

proof fn lemma_same_front(bits: Seq<u32>, a: Seq<usize>, b: Seq<usize>, k: int)
    requires
        bits.len() <= usize::MAX,
        ranked(bits, a),
        ranked(bits, b),
        0 <= k < bits.len(),
    ensures
        a[k] == b[k],
    decreases k,
{
    if a[k] != b[k] {
        assert forall|i: int| 0 <= i < k implies a[i] == b[i] by {
            lemma_same_front(bits, a, b, i);
        }
        let i = lemma_place_of(bits, b, a[k]);
        let j = lemma_place_of(bits, a, b[k]);
        if i < k {
            assert(outranks(bits, a[i] as int, a[k] as int));
        } else if j < k {
            assert(outranks(bits, b[j] as int, b[k] as int));
        } else {
            assert(outranks(bits, b[k] as int, b[i] as int));
            assert(outranks(bits, a[k] as int, a[j] as int));
        }
    }
}

/// The logits at the given places.
pub open spec fn picked(logits: Seq<u32>, places: Seq<usize>) -> Seq<u32> {
    Seq::new(places.len(), |i: int| logits[places[i] as int])
}

/// The places of the greatest finite logits, the greatest first: `k` of them, or all
/// where there are fewer.
pub open spec fn best_among(logits: Seq<u32>, k: usize) -> Seq<usize> {
    let places = finite_among(logits, logits.len() as int);
    let order = order_of(picked(logits, places));
    Seq::new(
        if k < places.len() {
            k as nat
        } else {
            places.len()
        },
        |i: int| places[order[i] as int],
    )
}

proof fn lemma_finite_among(logits: Seq<u32>, n: int)
    requires
        0 <= n <= logits.len() <= usize::MAX,
    ensures
        finite_among(logits, n).len() <= n,
        forall|i: int|
            0 <= i < finite_among(logits, n).len() ==> (#[trigger] finite_among(logits, n)[i]) < n,
    decreases n,
{
    if n > 0 {
        lemma_finite_among(logits, n - 1);
    }
}

/// The places of the greatest finite logits, the greatest first.
pub fn best_places(logits: &[u32], k: usize) -> (r: Vec<usize>)
    ensures
        ({
            let scores = picked(logits@, finite_among(logits@, logits@.len() as int));
            ranked(scores, order_of(scores))
        }),
        r@ == best_among(logits@, k),
        forall|i: int| 0 <= i < r@.len() ==> (#[trigger] r@[i]) < logits@.len(),
{
    assert(logits.len() <= usize::MAX);
    let places = finite_places(logits);
    proof {
        lemma_finite_among(logits@, logits@.len() as int);
    }
    let mut scores: Vec<u32> = Vec::new();
    let mut i: usize = 0;
    while i < places.len()
        invariant
            i <= places@.len(),
            scores@ == picked(logits@, places@).take(i as int),
            forall|j: int| 0 <= j < places@.len() ==> (#[trigger] places@[j]) < logits@.len(),
        decreases places@.len() - i,
    {
        scores.push(logits[places[i]]);
        i += 1;
        assert(scores@ =~= picked(logits@, places@).take(i as int));
    }
    assert(scores@ =~= picked(logits@, places@));
    let order = ranked_places(&scores);
    let count: usize = if k < places.len() {
        k
    } else {
        places.len()
    };
    let ghost all = best_among(logits@, k);
    let mut out: Vec<usize> = Vec::new();
    let mut j: usize = 0;
    while j < count
        invariant
            j <= count <= order@.len(),
            ranked(scores@, order@),
            scores@.len() == places@.len(),
            order@ == order_of(picked(logits@, places@)),
            places@ == finite_among(logits@, logits@.len() as int),
            forall|j: int| 0 <= j < places@.len() ==> (#[trigger] places@[j]) < logits@.len(),
            all == best_among(logits@, k),
            count == all.len(),
            out@ == all.take(j as int),
            forall|i: int| 0 <= i < out@.len() ==> (#[trigger] out@[i]) < logits@.len(),
        decreases count - j,
    {
        out.push(places[order[j]]);
        j += 1;
        assert(out@ =~= all.take(j as int));
    }
    assert(out@ =~= all);
    out
}

} // verus!
