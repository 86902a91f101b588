//! What sampling does, over the signs and sizes of single-precision numbers.

use crate::engine::sampling::{
    at_most, best_among, drawn, finite, finite_among, first_covering, first_reaching, greatest,
    greatest_is_greatest, kept_candidates, lemma_place_of, less, nucleus, order_of, outranks,
    penalty_of, picked, rank, ranked, settled, Penalty,
};
use vstd::prelude::*;

verus! {

/// The sign bit is set.
pub open spec fn negative(bits: u32) -> bool {
    bits >= 0x8000_0000
}

/// The bits without the sign: the greater they are, the further the number is from zero.
pub open spec fn size_bits(bits: u32) -> int {
    bits as int % 0x8000_0000
}

/// The bits are those of a number, possibly infinite.
pub open spec fn is_number(bits: u32) -> bool {
    size_bits(bits) <= 0x7f80_0000
}

/// The number is zero, of either sign.
pub open spec fn is_zero(bits: u32) -> bool {
    size_bits(bits) == 0
}

/// The number is above zero.
pub open spec fn above_zero(bits: u32) -> bool {
    is_number(bits) && !negative(bits) && !is_zero(bits)
}

/// A number is above another: it is further up among numbers that are not negative, or
/// closer to zero among negative ones.
pub open spec fn above(a: u32, b: u32) -> bool {
    if negative(a) && negative(b) {
        size_bits(a) < size_bits(b)
    } else if negative(a) {
        false
    } else if negative(b) {
        !(is_zero(a) && is_zero(b))
    } else {
        size_bits(a) > size_bits(b)
    }
}

/// Numbers are compared by their signs and sizes. What is not a number is neither below,
/// above nor equal to anything.
pub proof fn numbers_are_compared(a: u32, b: u32)
    ensures
        less(a, b) <==> is_number(a) && is_number(b) && above(b, a),
        at_most(a, b) <==> is_number(a) && is_number(b) && !above(a, b),
{
}

/// Infinite numbers, and what is not a number, are not finite, and all else is.
pub proof fn finite_numbers(a: u32)
    ensures
        finite(a) <==> size_bits(a) < 0x7f80_0000,
{
}

/// A token is settled ahead of drawing exactly where no logit is finite, or where the
/// temperature is a number that is not above zero.
pub proof fn settled_without_heat(logits: Seq<u32>, temperature: u32)
    ensures
        settled(logits, temperature) is None <==> {
            &&& exists|i: int|
                0 <= i < logits.len() && size_bits(#[trigger] logits[i]) < 0x7f80_0000
            &&& above_zero(temperature) || !is_number(temperature)
        },
{
    lemma_finite_among(logits, logits.len() as int);
    let all = finite_among(logits, logits.len() as int);
    if exists|i: int| 0 <= i < logits.len() && size_bits(#[trigger] logits[i]) < 0x7f80_0000 {
        let i = choose|i: int|
            0 <= i < logits.len() && size_bits(#[trigger] logits[i]) < 0x7f80_0000;
        assert(finite(logits[i]));
        assert(all.len() > 0);
    }
}

/// A settled token is the last of those with the greatest finite logit, and token zero
/// where no logit is finite.
pub proof fn settled_is_greatest(logits: Seq<u32>, temperature: u32)
    requires
        logits.len() <= 0x1_0000_0000,
        settled(logits, temperature) is Some,
    ensures
        ({
            let token = settled(logits, temperature)->0 as int;
            if exists|i: int|
                0 <= i < logits.len() && size_bits(#[trigger] logits[i]) < 0x7f80_0000 {
                &&& token < logits.len()
                &&& size_bits(logits[token]) < 0x7f80_0000
                &&& forall|j: int|
                    0 <= j < logits.len() && size_bits(logits[j]) < 0x7f80_0000 ==> !above(
                        #[trigger] logits[j],
                        logits[token],
                    )
                &&& forall|j: int|
                    token < j < logits.len() && size_bits(logits[j]) < 0x7f80_0000
                        ==> #[trigger] logits[j] != logits[token]
            } else {
                token == 0
            }
        }),
{
    settled_without_heat(logits, temperature);
    lemma_greatest(logits);
    lemma_finite_among(logits, logits.len() as int);
}

proof fn lemma_greatest(logits: Seq<u32>)
    ensures
        match greatest(logits, logits.len() as int) {
            Some(i) => {
                &&& 0 <= i < logits.len()
                &&& size_bits(logits[i]) < 0x7f80_0000
                &&& forall|j: int|
                    0 <= j < logits.len() && size_bits(logits[j]) < 0x7f80_0000 ==> !above(
                        #[trigger] logits[j],
                        logits[i],
                    )
                &&& forall|j: int|
                    i < j < logits.len() && size_bits(logits[j]) < 0x7f80_0000
                        ==> #[trigger] logits[j] != logits[i]
            },
            None => forall|j: int|
                0 <= j < logits.len() ==> size_bits(#[trigger] logits[j]) >= 0x7f80_0000,
        },
{
    greatest_is_greatest(logits, logits.len() as int);
    match greatest(logits, logits.len() as int) {
        Some(i) => {
            assert forall|j: int|
                0 <= j < logits.len() && size_bits(logits[j]) < 0x7f80_0000 implies !above(
                #[trigger] logits[j],
                logits[i],
            ) by {
                assert(rank(logits[j]) <= rank(logits[i]));
            }
            assert forall|j: int|
                i < j < logits.len() && size_bits(logits[j]) < 0x7f80_0000
                implies #[trigger] logits[j] != logits[i] by {
                assert(rank(logits[j]) < rank(logits[i]));
            }
        },
        None => {
            assert forall|j: int| 0 <= j < logits.len() implies size_bits(#[trigger] logits[j])
                >= 0x7f80_0000 by {
                assert(!finite(logits[j]));
            }
        },
    }
}

proof fn lemma_finite_among(logits: Seq<u32>, n: int)
    requires
        0 <= n <= logits.len(),
    ensures
        forall|i: int|
            0 <= i < n && finite(#[trigger] logits[i]) ==> finite_among(logits, n).len() > 0,
        n <= usize::MAX + 1 ==> forall|x: usize| #[trigger]
            finite_among(logits, n).contains(x) <==> x < n && size_bits(logits[x as int])
                < 0x7f80_0000,
        n <= usize::MAX + 1 ==> forall|i: int, j: int|
            0 <= i < j < finite_among(logits, n).len() ==> (#[trigger] finite_among(logits, n)[i])
                < #[trigger] finite_among(logits, n)[j],
        finite_among(logits, n).len() <= n,
        finite_among(logits, n).len() > 0 ==> exists|i: int|
            0 <= i < n && size_bits(#[trigger] logits[i]) < 0x7f80_0000,
    decreases n,
{
    if n > 0 {
        lemma_finite_among(logits, n - 1);
        let before = finite_among(logits, n - 1);
        let all = finite_among(logits, n);
        if finite(logits[n - 1]) {
            assert(size_bits(logits[n - 1]) < 0x7f80_0000);
            if n <= usize::MAX + 1 {
                let last = (n - 1) as usize;
                assert(all == before.push(last));
                assert forall|x: usize| #[trigger] all.contains(x) <==> x < n && size_bits(
                    logits[x as int],
                ) < 0x7f80_0000 by {
                    if all.contains(x) {
                        let i = all.index_of(x);
                        if i < before.len() {
                            assert(before[i] == x);
                            assert(before.contains(x));
                        }
                    }
                    if x == last {
                        assert(all[before.len() as int] == x);
                    } else if before.contains(x) {
                        assert(all[before.index_of(x)] == x);
                    }
                }
                assert forall|i: int, j: int|
                    0 <= i < j < all.len() implies (#[trigger] all[i]) < #[trigger] all[j] by {
                    if j == before.len() {
                        assert(before.contains(before[i]));
                        assert(all[i] == before[i]);
                    } else {
                        assert(before[i] < before[j]);
                    }
                }
            }
        }
    }
}

/// The tokens that can be sampled are those with a finite logit, each once, in order.
pub proof fn finite_logits_are_sampled(logits: Seq<u32>)
    requires
        logits.len() <= usize::MAX,
    ensures
        ({
            let all = finite_among(logits, logits.len() as int);
            &&& forall|x: usize| #[trigger]
                all.contains(x) <==> x < logits.len() && size_bits(logits[x as int]) < 0x7f80_0000
            &&& forall|i: int, j: int|
                0 <= i < j < all.len() ==> (#[trigger] all[i]) < #[trigger] all[j]
        }),
{
    lemma_finite_among(logits, logits.len() as int);
}

/// The repetition penalty moves the logits of tokens that were given already down: those
/// that are not negative are divided by it, and negative ones multiplied. Only a penalty
/// above one counts.
pub proof fn repeated_tokens_are_penalized(seen: bool, penalty: u32, logit: u32)
    requires
        is_number(logit),
    ensures
        penalty_of(seen, penalty, logit) == Penalty::Keep <==> !(seen && is_number(penalty)
            && above(penalty, 0x3f80_0000)),
        penalty_of(seen, penalty, logit) == Penalty::Divide ==> !negative(logit) || is_zero(logit),
        penalty_of(seen, penalty, logit) == Penalty::Multiply ==> negative(logit) && !is_zero(
            logit,
        ),
{
}

proof fn lemma_first_reaching(sums: Seq<u32>, bound: u32, i: int)
    requires
        0 <= i,
    ensures
        match first_reaching(sums, bound, i) {
            Some(k) => {
                &&& i <= k < sums.len()
                &&& at_most(bound, sums[k])
                &&& forall|j: int| i <= j < k ==> !at_most(bound, #[trigger] sums[j])
            },
            None => forall|j: int| i <= j < sums.len() ==> !at_most(bound, #[trigger] sums[j]),
        },
    decreases sums.len() - i,
{
    if i < sums.len() && !at_most(bound, sums[i]) {
        lemma_first_reaching(sums, bound, i + 1);
    }
}

/// The nucleus is the shortest front of the candidates whose probabilities reach a bound
/// between zero and one together, or all of them where these never do. A bound of one or
/// more keeps all, and so does one that is not a number.
pub proof fn nucleus_reaches_bound(sums: Seq<u32>, top_p: u32)
    requires
        forall|i: int| 0 <= i < sums.len() ==> is_number(#[trigger] sums[i]),
    ensures
        nucleus(sums, top_p) <= sums.len(),
        sums.len() > 0 ==> nucleus(sums, top_p) >= 1,
        !is_number(top_p) || !above(0x3f80_0000, top_p) ==> nucleus(sums, top_p) == sums.len(),
        is_number(top_p) && !negative(top_p) && above(0x3f80_0000, top_p) ==> {
            let n = nucleus(sums, top_p) as int;
            &&& forall|i: int| 0 <= i < n - 1 ==> above(top_p, #[trigger] sums[i])
            &&& n > 0 && !above(top_p, sums[n - 1]) || n == sums.len()
        },
        is_number(top_p) && negative(top_p) && sums.len() > 0 && !negative(sums[0]) ==> nucleus(
            sums,
            top_p,
        ) == 1,
{
    let bound = if less(top_p, 0) {
        0
    } else {
        top_p
    };
    lemma_first_reaching(sums, bound, 0);
    let n = nucleus(sums, top_p) as int;
    if is_number(top_p) && above(0x3f80_0000, top_p) {
        assert forall|i: int| 0 <= i < n - 1 && !negative(top_p) implies above(
            top_p,
            #[trigger] sums[i],
        ) by {
            assert(!at_most(bound, sums[i]));
            assert(is_number(sums[i]));
        }
        if n < sums.len() {
            assert(at_most(bound, sums[n - 1]));
        }
        if sums.len() > 0 {
            assert(is_number(sums[0]));
            if !negative(sums[0]) && negative(top_p) {
                assert(at_most(bound, sums[0]));
            }
        }
    }
}

proof fn lemma_first_covering(rests: Seq<u32>, probs: Seq<u32>, i: int)
    requires
        0 <= i,
    ensures
        match first_covering(rests, probs, i) {
            Some(k) => {
                &&& i <= k < rests.len()
                &&& at_most(rests[k], probs[k])
                &&& forall|j: int| i <= j < k ==> !at_most(#[trigger] rests[j], probs[j])
            },
            None => forall|j: int|
                i <= j < rests.len() ==> !at_most(#[trigger] rests[j], probs[j]),
        },
    decreases rests.len() - i,
{
    if i < rests.len() && !at_most(rests[i], probs[i]) {
        lemma_first_covering(rests, probs, i + 1);
    }
}

/// The candidate is drawn whose probability covers what is left of the draw, where none
/// ahead of it does.
pub proof fn drawn_candidate_covers(
    logits: Seq<u32>,
    candidates: Seq<usize>,
    probs: Seq<u32>,
    rests: Seq<u32>,
    i: int,
)
    requires
        0 <= i < rests.len(),
        rests.len() <= probs.len() <= candidates.len(),
        forall|j: int| 0 <= j <= i ==> is_number(#[trigger] rests[j]) && is_number(probs[j]),
        forall|j: int| 0 <= j < i ==> above(#[trigger] rests[j], probs[j]),
        !above(rests[i], probs[i]),
    ensures
        drawn(logits, candidates, probs, rests) == candidates[i] as u32,
{
    lemma_first_covering(rests, probs, 0);
    assert(is_number(rests[i]));
    match first_covering(rests, probs, 0) {
        Some(k) => {
            if k < i {
                assert(above(rests[k], probs[k]));
            } else if k > i {
                assert(!at_most(rests[i], probs[i]));
            }
        },
        None => {
            assert(!at_most(rests[i], probs[i]));
        },
    }
}

/// The candidates that stay are the best ones, the best first: as many as are asked for
/// where there are more, and all where no number is asked for.
pub proof fn best_candidates_stay(scores: Seq<u32>, top_k: usize, i: int, j: int)
    requires
        ranked(scores, order_of(scores)),
        0 <= i < kept_candidates(scores.len(), top_k),
        i < j < scores.len(),
    ensures
        top_k == 0 || scores.len() <= top_k ==> kept_candidates(scores.len(), top_k)
            == scores.len(),
        top_k > 0 && scores.len() > top_k ==> kept_candidates(scores.len(), top_k) == top_k,
        !above(scores[order_of(scores)[j] as int], scores[order_of(scores)[i] as int]),
        order_of(scores)[i] != order_of(scores)[j],
{
    let order = order_of(scores);
    assert(outranks(scores, order[i] as int, order[j] as int));
}

/// The places of the best logits are those of finite ones, the greatest first, and no
/// finite logit that is left out is above one of them.
pub proof fn best_logits_come_first(logits: Seq<u32>, k: usize, i: int)
    requires
        logits.len() <= usize::MAX,
        ({
            let scores = picked(logits, finite_among(logits, logits.len() as int));
            ranked(scores, order_of(scores))
        }),
        0 <= i < best_among(logits, k).len(),
    ensures
        best_among(logits, k).len() <= k,
        best_among(logits, k)[i] < logits.len(),
        size_bits(logits[best_among(logits, k)[i] as int]) < 0x7f80_0000,
        forall|j: int|
            i < j < best_among(logits, k).len() ==> !above(
                logits[#[trigger] best_among(logits, k)[j] as int],
                logits[best_among(logits, k)[i] as int],
            ),
        forall|x: usize|
            x < logits.len() && size_bits(logits[x as int]) < 0x7f80_0000
                && !#[trigger] best_among(logits, k).contains(x) ==> !above(
                logits[x as int],
                logits[best_among(logits, k)[i] as int],
            ),
        forall|x: usize|
            best_among(logits, k).len() < k && x < logits.len() && size_bits(logits[x as int])
                < 0x7f80_0000 ==> #[trigger] best_among(logits, k).contains(x),
{
    let places = finite_among(logits, logits.len() as int);
    let scores = picked(logits, places);
    let order = order_of(scores);
    let best = best_among(logits, k);
    lemma_finite_among(logits, logits.len() as int);
    assert forall|a: int| 0 <= a < places.len() implies (#[trigger] places[a]) < logits.len()
        && size_bits(logits[places[a] as int]) < 0x7f80_0000 by {
        assert(places.contains(places[a]));
    }
    assert(order[i] < scores.len());
    assert(best[i] == places[order[i] as int]);
    assert forall|j: int| i < j < best.len() implies !above(
        logits[#[trigger] best[j] as int],
        logits[best[i] as int],
    ) by {
        assert(outranks(scores, order[i] as int, order[j] as int));
        assert(order[j] < scores.len());
    }
    assert forall|x: usize|
        x < logits.len() && size_bits(logits[x as int]) < 0x7f80_0000 implies (best.len() < k
        ==> #[trigger] best.contains(x)) && (!best.contains(x) ==> !above(
        logits[x as int],
        logits[best[i] as int],
    )) by {
        assert(places.contains(x));
        let a = places.index_of(x);
        let p = lemma_place_of(scores, order, a as usize);
        if p < best.len() {
            assert(best[p] == places[order[p] as int]);
            assert(best.contains(x));
        } else {
            assert(outranks(scores, order[i] as int, order[p] as int));
        }
    }
}

} // verus!
