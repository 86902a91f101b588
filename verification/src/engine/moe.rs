//! Which experts a token goes to.

use crate::engine::config::MoeDispatchConfig;
use crate::engine::load::InferenceEngine;
use crate::engine::sampling::{best_among, best_places};
use crate::text::{decimal, decimal_string};
use vstd::prelude::*;

verus! {

/// An expert that a token goes to, with the bits of its logit.
#[derive(Debug, Clone, Copy, PartialEq, Eq, Structural)]
pub struct MoeRoute {
    pub expert: usize,
    pub logit: u32,
}

/// The lesser of two numbers.
pub open spec fn lesser(a: nat, b: nat) -> nat {
    if a <= b {
        a
    } else {
        b
    }
}

/// The experts of one token: those with the greatest finite logits, best first.
pub open spec fn routed(logits: Seq<u32>, top_k: usize) -> Seq<MoeRoute> {
    let best = best_among(logits, top_k);
    Seq::new(
        best.len(),
        |i: int| MoeRoute { expert: best[i], logit: logits[best[i] as int] },
    )
}

/// The logits of one token's experts.
pub open spec fn token_logits(logits: Seq<u32>, token: int, num_experts: int) -> Seq<u32> {
    logits.subrange(token * num_experts, (token + 1) * num_experts)
}

/// The routes of a list of tokens.
pub open spec fn route_views(v: Seq<Vec<MoeRoute>>) -> Seq<Seq<MoeRoute>> {
    Seq::new(v.len(), |i: int| v[i]@)
}

/// The tokens that have a logit for every expert.
pub open spec fn routed_tokens(len: nat, num_tokens: usize, num_experts: usize, top_k: usize) -> nat {
    if num_tokens == 0 || num_experts == 0 || top_k == 0 {
        0
    } else {
        lesser(num_tokens as nat, len / (num_experts as nat))
    }
}

/// The experts of one token.
pub fn route_token(logits: &[u32], top_k: usize) -> (r: Vec<MoeRoute>)
    ensures
        r@ == routed(logits@, top_k),
{
    let best = best_places(logits, top_k);
    let mut out: Vec<MoeRoute> = Vec::new();
    let mut k: usize = 0;
    while k < best.len()
        invariant
            k <= best@.len(),
            best@ == best_among(logits@, top_k),
            forall|i: int| 0 <= i < best@.len() ==> (#[trigger] best@[i]) < logits@.len(),
            out@ == routed(logits@, top_k).take(k as int),
        decreases best@.len() - k,
    {
        let expert: usize = best[k];
        out.push(MoeRoute { expert, logit: logits[expert] });
        k += 1;
        assert(out@ =~= routed(logits@, top_k).take(k as int));
    }
    assert(out@ =~= routed(logits@, top_k));
    out
}

impl InferenceEngine {
    /// The experts of each token, for as many tokens as there are logits for.
    pub fn route_moe_experts(
        router_logits: &[u32],
        num_tokens: usize,
        num_experts: usize,
        top_k: usize,
    ) -> (r: Vec<Vec<MoeRoute>>)
        ensures
            route_views(r@) == Seq::new(
                routed_tokens(router_logits@.len(), num_tokens, num_experts, top_k),
                |t: int| routed(token_logits(router_logits@, t, num_experts as int), top_k),
            ),
    {
        let mut routes: Vec<Vec<MoeRoute>> = Vec::new();
        let ghost expected = Seq::new(
            routed_tokens(router_logits@.len(), num_tokens, num_experts, top_k),
            |t: int| routed(token_logits(router_logits@, t, num_experts as int), top_k),
        );
        if num_tokens == 0 || num_experts == 0 || top_k == 0 {
            assert(route_views(routes@) =~= expected);
            return routes;
        }
        assert(router_logits.len() <= usize::MAX);
        let possible: usize = router_logits.len() / num_experts;
        let count: usize = if num_tokens < possible {
            num_tokens
        } else {
            possible
        };
        let mut token: usize = 0;
        assert(route_views(routes@) =~= expected.take(0));
        while token < count
            invariant
                token <= count == expected.len(),
                num_experts > 0,
                count <= possible,
                router_logits@.len() <= usize::MAX,
                possible == router_logits@.len() / (num_experts as nat),
                expected == Seq::new(
                    count as nat,
                    |t: int| routed(token_logits(router_logits@, t, num_experts as int), top_k),
                ),
                route_views(routes@) == expected.take(token as int),
            decreases count - token,
        {
            proof {
                let len = router_logits@.len();
                assert((token + 1) * num_experts <= len) by (nonlinear_arith)
                    requires
                        token + 1 <= possible,
                        possible == len / (num_experts as nat),
                        num_experts > 0,
                ;
                assert(token * num_experts + num_experts == (token + 1) * num_experts)
                    by (nonlinear_arith);
                assert(token * num_experts >= 0) by (nonlinear_arith);
            }
            let start: usize = token * num_experts;
            let window = vstd::slice::slice_subrange(router_logits, start, start + num_experts);
            assert(window@ =~= token_logits(router_logits@, token as int, num_experts as int));
            let ghost before = route_views(routes@);
            routes.push(route_token(window, top_k));
            token += 1;
            assert(route_views(routes@) =~= before.push(expected[token - 1]));
            assert(route_views(routes@) =~= expected.take(token as int));
        }
        assert(route_views(routes@) =~= expected);
        routes
    }
}

/// Why a token cannot be sent through experts.
#[derive(Debug, Clone, Copy, PartialEq, Eq, Structural)]
pub enum MoeError {
    /// There are no experts, or not as many of each kind of weights.
    UnalignedExperts,
    /// The hidden state does not have the size that it should have.
    HiddenShape { got: usize, expected: usize },
    /// There are no logits for the experts.
    NoRoutes,
}

impl MoeError {
    pub open spec fn spec_message(self) -> Seq<char> {
        match self {
            MoeError::UnalignedExperts =>
                "MoE expert weight lists must be non-empty and aligned"@,
            MoeError::HiddenShape { got, expected } => "MoE hidden shape mismatch: got "@
                + decimal(got as nat) + ", expected "@ + decimal(expected as nat),
            MoeError::NoRoutes => "MoE router produced no routes"@,
        }
    }

    /// The error in words.
    pub fn message(&self) -> (r: String)
        ensures
            r@ == self.spec_message(),
    {
        match self {
            MoeError::UnalignedExperts =>
                "MoE expert weight lists must be non-empty and aligned".to_string(),
            MoeError::HiddenShape { got, expected } => {
                let mut out = "MoE hidden shape mismatch: got ".to_string();
                out.append(decimal_string(*got as u64).as_str());
                out.append(", expected ");
                out.append(decimal_string(*expected as u64).as_str());
                out
            },
            MoeError::NoRoutes => "MoE router produced no routes".to_string(),
        }
    }
}

/// The experts that one hidden state goes to, given how many experts there are of each
/// kind of weights and the size of the state.
pub fn dispatch_routes(
    gate: usize,
    up: usize,
    down: usize,
    hidden_len: usize,
    router_logits: &[u32],
    config: MoeDispatchConfig,
) -> (r: Result<Vec<MoeRoute>, MoeError>)
    ensures
        match r {
            Ok(routes) => {
                &&& gate != 0 && up == gate && down == gate
                &&& hidden_len == config.hidden_size
                &&& config.top_k > 0 && router_logits@.len() >= gate
                &&& routes@ == routed(router_logits@.take(gate as int), config.top_k)
            },
            Err(e) => if gate == 0 || up != gate || down != gate {
                e == MoeError::UnalignedExperts
            } else if hidden_len != config.hidden_size {
                e == (MoeError::HiddenShape { got: hidden_len, expected: config.hidden_size })
            } else {
                e == MoeError::NoRoutes && (config.top_k == 0 || router_logits@.len() < gate)
            },
        },
{
    if gate == 0 || up != gate || down != gate {
        return Err(MoeError::UnalignedExperts);
    }
    if hidden_len != config.hidden_size {
        return Err(MoeError::HiddenShape { got: hidden_len, expected: config.hidden_size });
    }
    let mut routes = InferenceEngine::route_moe_experts(router_logits, 1, gate, config.top_k);
    proof {
        let len = router_logits@.len();
        assert(len >= gate <==> len / (gate as nat) >= 1) by (nonlinear_arith)
            requires
                gate > 0,
        ;
        assert(routes@.len() == route_views(routes@).len());
        if routes@.len() > 0 {
            assert(0 * gate == 0 && (0 + 1) * gate == gate) by (nonlinear_arith);
            assert(token_logits(router_logits@, 0, gate as int) =~= router_logits@.take(gate as int));
            assert(routes@[0]@ == route_views(routes@)[0]);
        }
    }
    if routes.len() == 0 {
        return Err(MoeError::NoRoutes);
    }
    Ok(routes.swap_remove(0))
}

/// A token goes to as many experts as are asked for where there are as many with a finite
/// logit, each of them once. The logit of a route is that of its expert.
pub proof fn routes_are_best_experts(logits: Seq<u32>, top_k: usize, i: int)
    requires
        0 <= i < routed(logits, top_k).len(),
    ensures
        routed(logits, top_k).len() == best_among(logits, top_k).len(),
        routed(logits, top_k)[i].expert == best_among(logits, top_k)[i],
        routed(logits, top_k)[i].logit == logits[routed(logits, top_k)[i].expert as int],
{
}

/// The logits of a token stand behind those of the tokens before it, one for each expert,
/// and every token is routed that has all of its logits, up to the number of tokens.
pub proof fn tokens_have_their_own_logits(
    logits: Seq<u32>,
    num_tokens: usize,
    num_experts: usize,
    top_k: usize,
    token: int,
)
    requires
        num_experts > 0,
        top_k > 0,
        0 <= token < num_tokens,
    ensures
        token < routed_tokens(logits.len(), num_tokens, num_experts, top_k) <==> (token + 1)
            * num_experts <= logits.len(),
        (token + 1) * num_experts <= logits.len() ==> {
            let own = token_logits(logits, token, num_experts as int);
            &&& own.len() == num_experts
            &&& forall|e: int|
                0 <= e < num_experts ==> #[trigger] own[e] == logits[token * num_experts + e]
        },
{
    let len = logits.len() as int;
    let n = num_experts as int;
    let q = len / n;
    assert(token < q <==> (token + 1) * n <= len) by (nonlinear_arith)
        requires
            q == len / n,
            n > 0,
            0 <= token,
            0 <= len,
    ;
    assert(0 <= token * n && (token + 1) * n == token * n + n) by (nonlinear_arith)
        requires
            0 <= token,
            0 < n,
    ;
}

} // verus!
