//! When runs of generation end, and what caches give back.

use crate::engine::generation::{
    stop_len, GenerationView, SpeculationView, SpeculativeStats,
};
use crate::engine::kv::{all_terms, KvTerm, RowView};
use vstd::prelude::*;

verus! {

/// The generated part of an output ends with a sequence of tokens.
pub open spec fn generated_ends_with(output: Seq<u32>, prompt_len: int, stop: Seq<u32>) -> bool {
    exists|front: Seq<u32>|
        front.len() >= prompt_len && #[trigger] (front + stop) == output
}

proof fn lemma_ends(output: Seq<u32>, prompt_len: int, stop: Seq<u32>)
    requires
        0 <= prompt_len,
    ensures
        generated_ends_with(output, prompt_len, stop) <==> output.len() >= prompt_len + stop.len()
            && output.skip(output.len() - stop.len()) == stop,
{
    if generated_ends_with(output, prompt_len, stop) {
        let front = choose|front: Seq<u32>|
            front.len() >= prompt_len && #[trigger] (front + stop) == output;
        assert(output.skip(output.len() - stop.len()) =~= stop);
    }
    if output.len() >= prompt_len + stop.len() && output.skip(output.len() - stop.len()) == stop {
        let front = output.take(output.len() - stop.len());
        assert(front + stop =~= output);
    }
}

proof fn lemma_stop_len(output: Seq<u32>, prompt_len: int, stops: Seq<Seq<u32>>, i: int)
    requires
        0 <= prompt_len,
        0 <= i,
    ensures
        match stop_len(output, prompt_len, stops, i) {
            Some(n) => exists|k: int|
                i <= k < stops.len() && (#[trigger] stops[k]).len() == n && n > 0
                    && generated_ends_with(output, prompt_len, stops[k]),
            None => forall|k: int|
                i <= k < stops.len() && (#[trigger] stops[k]).len() > 0 ==> !generated_ends_with(
                    output,
                    prompt_len,
                    stops[k],
                ),
        },
    decreases stops.len() - i,
{
    if i < stops.len() {
        lemma_ends(output, prompt_len, stops[i]);
        if stop_len(output, prompt_len, stops, i) == stop_len(output, prompt_len, stops, i + 1) {
            lemma_stop_len(output, prompt_len, stops, i + 1);
        }
        let a = stop_len(output, prompt_len, stops, i);
        if a is Some && a == Some(stops[i].len()) && stops[i].len() > 0 && generated_ends_with(
            output,
            prompt_len,
            stops[i],
        ) {
            assert(generated_ends_with(output, prompt_len, stops[i]));
        } else {
            lemma_stop_len(output, prompt_len, stops, i + 1);
        }
    }
}

/// A token ends a run exactly where what was generated then ends with one of the stop
/// sequences. That sequence is cut off; any other token stays.
pub proof fn runs_end_at_stop_sequences(run: GenerationView, token: u32)
    requires
        run.wants_token(),
    ensures
        run.accepted(token).stopped <==> exists|k: int|
            0 <= k < run.stops.len() && (#[trigger] run.stops[k]).len() > 0
                && generated_ends_with(run.output.push(token), run.prompt_len as int, run.stops[k]),
        run.accepted(token).stopped ==> exists|k: int|
            0 <= k < run.stops.len() && (#[trigger] run.stops[k]).len() > 0 && run.accepted(
                token,
            ).output + run.stops[k] == run.output.push(token),
        !run.accepted(token).stopped ==> run.accepted(token).output == run.output.push(token),
        run.accepted(token).remaining == run.remaining - 1,
        run.accepted(token).prompt_len == run.prompt_len,
        run.accepted(token).stops == run.stops,
{
    let grown = run.output.push(token);
    let p = run.prompt_len as int;
    lemma_stop_len(grown, p, run.stops, 0);
    match stop_len(grown, p, run.stops, 0) {
        Some(n) => {
            let k = choose|k: int|
                0 <= k < run.stops.len() && (#[trigger] run.stops[k]).len() == n && n > 0
                    && generated_ends_with(grown, p, run.stops[k]);
            lemma_ends(grown, p, run.stops[k]);
            assert(grown.take(grown.len() - n) + run.stops[k] =~= grown);
        },
        None => {},
    }
}

/// A run goes on exactly while it may have more tokens and has not ended.
pub proof fn runs_go_on(run: GenerationView)
    ensures
        run.wants_token() <==> !run.stopped && run.remaining >= 1,
{
}

/// A drafted token that the model gives too is counted as accepted, any other as rejected,
/// and the next one is compared with the next token.
pub proof fn drafts_are_compared(run: GenerationView, token: u32)
    requires
        run.draft.len() > 0,
        run.stats.accepted < usize::MAX,
        run.stats.rejected < usize::MAX,
    ensures
        run.draft[0] == token ==> run.accepted(token).stats.accepted == run.stats.accepted + 1
            && run.accepted(token).stats.rejected == run.stats.rejected,
        run.draft[0] != token ==> run.accepted(token).stats.rejected == run.stats.rejected + 1
            && run.accepted(token).stats.accepted == run.stats.accepted,
        run.accepted(token).draft == run.draft.skip(1),
{
}

/// A round drafts no more than a window of tokens and no more than are still asked for,
/// and there are rounds until as many tokens were generated as were asked for.
pub proof fn rounds_fill_the_window(run: SpeculationView)
    requires
        run.prompt_len <= run.output.len(),
        run.window > 0,
    ensures
        run.draft_budget() is None <==> run.done || run.output.len() - run.prompt_len
            >= run.max_tokens,
        run.draft_budget() matches Some(n) ==> {
            &&& 1 <= n <= run.window
            &&& run.output.len() - run.prompt_len + n <= run.max_tokens
            &&& n == run.window || run.output.len() - run.prompt_len + n == run.max_tokens
        },
{
}

/// What another model proposed behind the output is the draft, and the model is to
/// generate as many tokens as there are in it, one at least.
pub proof fn proposals_are_drafts(run: SpeculationView, draft: Seq<u32>)
    requires
        run.prompt_len <= run.output.len(),
    ensures
        run.drafted(run.output + draft) == draft,
        draft.len() > 0 && run.output.len() - run.prompt_len + draft.len() <= run.max_tokens
            ==> run.verify_budget(draft) == draft.len(),
        draft.len() == 0 && run.output.len() - run.prompt_len < run.max_tokens
            ==> run.verify_budget(draft) == 1,
        run.output.len() - run.prompt_len + run.verify_budget(draft) <= run.max_tokens
            || run.verify_budget(draft) == 0,
{
    assert(run.drafted(run.output + draft) =~= draft);
}

/// A round ends the run exactly where it added nothing, or where what was generated ends
/// with a stop sequence. The counts of rounds add up.
pub proof fn rounds_end_runs(run: SpeculationView, verified: Seq<u32>, step: SpeculativeStats)
    requires
        run.stats.accepted + step.accepted <= usize::MAX,
        run.stats.rejected + step.rejected <= usize::MAX,
    ensures
        run.after_round(verified, step).output == verified,
        run.after_round(verified, step).done <==> verified.len() == run.output.len() || exists|
            k: int,
        |
            0 <= k < run.stops.len() && (#[trigger] run.stops[k]).len() > 0
                && generated_ends_with(verified, run.prompt_len as int, run.stops[k]),
        run.after_round(verified, step).stats.accepted == run.stats.accepted + step.accepted,
        run.after_round(verified, step).stats.rejected == run.stats.rejected + step.rejected,
        run.after_round(verified, step).max_tokens == run.max_tokens,
        run.after_round(verified, step).prompt_len == run.prompt_len,
{
    lemma_stop_len(verified, run.prompt_len as int, run.stops, 0);
}

proof fn lemma_terms_len(rows: Seq<RowView>, dim: int)
    requires
        0 <= dim,
    ensures
        all_terms(rows, dim).len() == rows.len() * dim,
    decreases rows.len(),
{
    if rows.len() > 0 {
        lemma_terms_len(rows.drop_last(), dim);
        let n = rows.len() as int;
        assert((n - 1) * dim + dim == n * dim) by (nonlinear_arith);
    } else {
        assert(0 * dim == 0) by (nonlinear_arith);
    }
}

/// The elements of rows follow each other row by row: element `d` of row `p` stands at
/// `p * dim + d`, as the number or the code that was stored.
pub proof fn rows_follow_each_other(rows: Seq<RowView>, dim: int, p: int, d: int)
    requires
        0 <= d < dim,
        0 <= p < rows.len(),
    ensures
        all_terms(rows, dim).len() == rows.len() * dim,
        0 <= p * dim + d < rows.len() * dim,
        rows[p] matches RowView::Float(v) ==> all_terms(rows, dim)[p * dim + d] == KvTerm::Value(
            v[d],
        ),
        rows[p] matches RowView::Quantized { low, step, codes } ==> all_terms(rows, dim)[p * dim
            + d] == (KvTerm::Affine { low, level: codes[d], step }),
    decreases rows.len(),
{
    let n = rows.len() as int;
    lemma_terms_len(rows, dim);
    lemma_terms_len(rows.drop_last(), dim);
    assert(0 <= p * dim && p * dim + dim <= n * dim && (n - 1) * dim + dim == n * dim)
        by (nonlinear_arith)
        requires
            0 <= p < n,
            0 < dim,
    ;
    if p < n - 1 {
        rows_follow_each_other(rows.drop_last(), dim, p, d);
        assert(p * dim + dim <= (n - 1) * dim) by (nonlinear_arith)
            requires
                p + 1 <= n - 1,
                0 < dim,
        ;
    } else {
        assert(p == n - 1);
    }
}

} // verus!
