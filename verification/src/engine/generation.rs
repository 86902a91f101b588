//! How output grows, token by token, and when it ends.

use vstd::prelude::*;

verus! {

/// How many drafted tokens the model agreed with and how many it did not.
#[derive(Debug, Clone, Copy, PartialEq, Eq, Structural)]
pub struct SpeculativeStats {
    pub accepted: usize,
    pub rejected: usize,
}

impl Default for SpeculativeStats {
    fn default() -> (r: Self)
        ensures
            r == (SpeculativeStats { accepted: 0, rejected: 0 }),
    {
        SpeculativeStats { accepted: 0, rejected: 0 }
    }
}

/// Lists of tokens as sequences.
pub open spec fn token_lists(v: Seq<Vec<u32>>) -> Seq<Seq<u32>> {
    Seq::new(v.len(), |i: int| v[i]@)
}

/// The output ends with a stop sequence, all of it behind the prompt.
pub open spec fn stops_with(output: Seq<u32>, prompt_len: int, stop: Seq<u32>) -> bool {
    &&& stop.len() > 0
    &&& output.len() >= prompt_len + stop.len()
    &&& output.skip(output.len() - stop.len()) == stop
}

/// The length of the first stop sequence, from place `i` on, that the output ends with.
pub open spec fn stop_len(output: Seq<u32>, prompt_len: int, stops: Seq<Seq<u32>>, i: int) -> Option<
    nat,
>
    decreases stops.len() - i,
{
    if i < 0 || i >= stops.len() {
        None
    } else if stops_with(output, prompt_len, stops[i]) {
        Some(stops[i].len())
    } else {
        stop_len(output, prompt_len, stops, i + 1)
    }
}

fn ends_with(output: &Vec<u32>, stop: &Vec<u32>) -> (r: bool)
    requires
        stop@.len() <= output@.len(),
    ensures
        r == (output@.skip(output@.len() - stop@.len()) == stop@),
{
    let from: usize = output.len() - stop.len();
    let mut i: usize = 0;
    while i < stop.len()
        invariant
            i <= stop@.len() <= output@.len() <= usize::MAX,
            from == output@.len() - stop@.len(),
            forall|j: int| 0 <= j < i ==> output@[from + j] == #[trigger] stop@[j],
        decreases stop@.len() - i,
    {
        if output[from + i] != stop[i] {
            assert(output@.skip(from as int)[i as int] != stop@[i as int]);
            return false;
        }
        i += 1;
    }
    assert(output@.skip(from as int) =~= stop@);
    true
}

/// The length of the first stop sequence that the output ends with behind the prompt.
pub fn matched_stop_len(output: &Vec<u32>, prompt_len: usize, stop_sequences: &Vec<Vec<u32>>) -> (r:
    Option<usize>)
    ensures
        match r {
            Some(n) => stop_len(output@, prompt_len as int, token_lists(stop_sequences@), 0)
                == Some(n as nat),
            None => stop_len(output@, prompt_len as int, token_lists(stop_sequences@), 0) is None,
        },
{
    let ghost stops = token_lists(stop_sequences@);
    let mut i: usize = 0;
    while i < stop_sequences.len()
        invariant
            i <= stop_sequences@.len(),
            stops == token_lists(stop_sequences@),
            stop_len(output@, prompt_len as int, stops, 0) == stop_len(
                output@,
                prompt_len as int,
                stops,
                i as int,
            ),
        decreases stop_sequences@.len() - i,
    {
        let n: usize = stop_sequences[i].len();
        if n > 0 && output.len() >= prompt_len && output.len() - prompt_len >= n && ends_with(
            output,
            &stop_sequences[i],
        ) {
            assert(stops[i as int] == stop_sequences@[i as int]@);
            return Some(n);
        }
        i += 1;
    }
    None
}

/// A run of generation.
#[verifier::ext_equal]
pub struct GenerationView {
    pub output: Seq<u32>,
    pub prompt_len: nat,
    /// The tokens that may still come.
    pub remaining: nat,
    pub stops: Seq<Seq<u32>>,
    /// The drafted tokens that are still to be compared.
    pub draft: Seq<u32>,
    pub stats: SpeculativeStats,
    pub stopped: bool,
}

/// The run before its first token.
pub open spec fn started(
    prompt: Seq<u32>,
    max_tokens: nat,
    stops: Seq<Seq<u32>>,
    draft: Seq<u32>,
) -> GenerationView {
    GenerationView {
        output: prompt,
        prompt_len: prompt.len(),
        remaining: max_tokens,
        stops,
        draft,
        stats: SpeculativeStats { accepted: 0, rejected: 0 },
        stopped: false,
    }
}

impl GenerationView {
    /// Another token is to be sampled.
    pub open spec fn wants_token(self) -> bool {
        !self.stopped && self.remaining > 0
    }

    /// The stop sequence that ends the run with this token.
    pub open spec fn stop_with(self, token: u32) -> Option<nat> {
        stop_len(self.output.push(token), self.prompt_len as int, self.stops, 0)
    }

    /// The run after a sampled token. A stop sequence is cut off and ends the run.
    pub open spec fn accepted(self, token: u32) -> GenerationView {
        let grown = self.output.push(token);
        GenerationView {
            output: match self.stop_with(token) {
                Some(n) => grown.take(grown.len() - n),
                None => grown,
            },
            remaining: (self.remaining - 1) as nat,
            draft: if self.draft.len() > 0 {
                self.draft.skip(1)
            } else {
                self.draft
            },
            stats: if self.draft.len() == 0 {
                self.stats
            } else if self.draft[0] == token {
                SpeculativeStats { accepted: (self.stats.accepted + 1) as usize, ..self.stats }
            } else {
                SpeculativeStats { rejected: (self.stats.rejected + 1) as usize, ..self.stats }
            },
            stopped: self.stop_with(token) is Some,
            ..self
        }
    }

    /// The run after a list of sampled tokens, of which it takes as many as it wants.
    pub open spec fn accepted_all(self, tokens: Seq<u32>) -> GenerationView
        decreases tokens.len(),
    {
        if tokens.len() == 0 {
            self
        } else {
            let before = self.accepted_all(tokens.drop_last());
            if before.wants_token() {
                before.accepted(tokens.last())
            } else {
                before
            }
        }
    }
}

/// A run of generation: the output so far and what is still to come.
#[derive(Debug)]
pub struct Generation {
    output: Vec<u32>,
    prompt_len: usize,
    remaining: usize,
    stop_sequences: Vec<Vec<u32>>,
    draft: Vec<u32>,
    draft_index: usize,
    stats: SpeculativeStats,
    stopped: bool,
}

impl View for Generation {
    type V = GenerationView;

    closed spec fn view(&self) -> GenerationView {
        GenerationView {
            output: self.output@,
            prompt_len: self.prompt_len as nat,
            remaining: self.remaining as nat,
            stops: token_lists(self.stop_sequences@),
            draft: self.draft@.skip(self.draft_index as int),
            stats: self.stats,
            stopped: self.stopped,
        }
    }
}

/// The same tokens.
pub(crate) fn copy_tokens(v: &[u32]) -> (r: Vec<u32>)
    ensures
        r@ == v@,
{
    let mut out: Vec<u32> = Vec::new();
    let mut i: usize = 0;
    while i < v.len()
        invariant
            i <= v@.len(),
            out@ == v@.take(i as int),
        decreases v@.len() - i,
    {
        out.push(v[i]);
        i += 1;
        assert(out@ =~= v@.take(i as int));
    }
    assert(v@.take(i as int) =~= v@);
    out
}

fn copy_lists(v: &Vec<Vec<u32>>) -> (r: Vec<Vec<u32>>)
    ensures
        token_lists(r@) == token_lists(v@),
{
    let mut out: Vec<Vec<u32>> = Vec::new();
    let mut i: usize = 0;
    while i < v.len()
        invariant
            i <= v@.len(),
            token_lists(out@) == token_lists(v@).take(i as int),
        decreases v@.len() - i,
    {
        let ghost before = token_lists(out@);
        let copy = copy_tokens(v[i].as_slice());
        out.push(copy);
        i += 1;
        assert(token_lists(out@) =~= before.push(copy@));
        assert(token_lists(out@) =~= token_lists(v@).take(i as int));
    }
    assert(token_lists(out@) =~= token_lists(v@));
    out
}

impl Generation {
    /// Every compared draft token was counted.
    pub closed spec fn wf(&self) -> bool {
        &&& self.draft_index <= self.draft@.len()
        &&& self.stats.accepted + self.stats.rejected == self.draft_index
    }

    /// A run behind a prompt, which drafted tokens are compared with.
    pub fn new(
        prompt: &[u32],
        max_tokens: usize,
        stop_sequences: &Vec<Vec<u32>>,
        draft_tokens: &[u32],
    ) -> (r: Self)
        ensures
            r.wf(),
            r@ == started(
                prompt@,
                max_tokens as nat,
                token_lists(stop_sequences@),
                draft_tokens@,
            ),
    {
        let r = Generation {
            output: copy_tokens(prompt),
            prompt_len: prompt.len(),
            remaining: max_tokens,
            stop_sequences: copy_lists(stop_sequences),
            draft: copy_tokens(draft_tokens),
            draft_index: 0,
            stats: SpeculativeStats { accepted: 0, rejected: 0 },
            stopped: false,
        };
        assert(r@.draft =~= draft_tokens@);
        r
    }

    /// Whether another token is to be sampled.
    pub fn wants_token(&self) -> (r: bool)
        ensures
            r == self@.wants_token(),
    {
        !self.stopped && self.remaining > 0
    }

    /// Takes a sampled token. Gives the position at which the model is to decode it,
    /// or nothing where a stop sequence ended the run.
    pub fn accept(&mut self, token: u32) -> (r: Option<usize>)
        requires
            old(self).wf(),
            old(self)@.wants_token(),
        ensures
            final(self).wf(),
            final(self)@ == old(self)@.accepted(token),
            match r {
                Some(position) => old(self)@.stop_with(token) is None && position
                    == old(self)@.output.len(),
                None => old(self)@.stop_with(token) is Some,
            },
    {
        let ghost before = self@;
        let position: usize = self.output.len();
        if self.draft_index < self.draft.len() {
            if self.draft[self.draft_index] == token {
                self.stats = SpeculativeStats {
                    accepted: self.stats.accepted + 1,
                    rejected: self.stats.rejected,
                };
            } else {
                self.stats = SpeculativeStats {
                    accepted: self.stats.accepted,
                    rejected: self.stats.rejected + 1,
                };
            }
            self.draft_index += 1;
            assert(self@.draft =~= before.draft.skip(1));
        }
        self.output.push(token);
        self.remaining -= 1;
        let ghost grown = self.output@;
        match matched_stop_len(&self.output, self.prompt_len, &self.stop_sequences) {
            Some(n) => {
                proof {
                    lemma_stop_len(grown, self.prompt_len as int, self@.stops, 0);
                }
                let grown_len: usize = self.output.len();
                self.output.truncate(grown_len - n);
                self.stopped = true;
                assert(self.output@ =~= grown.take(grown.len() - n));
                None
            },
            None => Some(position),
        }
    }

    /// The prompt and what was generated behind it.
    pub fn output(&self) -> (r: Vec<u32>)
        ensures
            r@ == self@.output,
    {
        copy_tokens(self.output.as_slice())
    }

    pub fn stats(&self) -> (r: SpeculativeStats)
        ensures
            r == self@.stats,
    {
        self.stats
    }
}

proof fn lemma_stop_len(output: Seq<u32>, prompt_len: int, stops: Seq<Seq<u32>>, i: int)
    requires
        0 <= prompt_len,
    ensures
        stop_len(output, prompt_len, stops, i) matches Some(n) ==> 0 < n && prompt_len + n
            <= output.len(),
    decreases stops.len() - i,
{
    if 0 <= i < stops.len() && !stops_with(output, prompt_len, stops[i]) {
        lemma_stop_len(output, prompt_len, stops, i + 1);
    }
}

/// Whatever tokens are sampled, the output starts with the prompt, and no more tokens
/// stand behind it than were asked for.
pub proof fn prompt_is_kept(
    prompt: Seq<u32>,
    max_tokens: nat,
    stops: Seq<Seq<u32>>,
    draft: Seq<u32>,
    tokens: Seq<u32>,
)
    ensures
        ({
            let run = started(prompt, max_tokens, stops, draft).accepted_all(tokens);
            &&& prompt.len() <= run.output.len() <= prompt.len() + max_tokens
            &&& run.output.take(prompt.len() as int) == prompt
            &&& run.output.len() + run.remaining <= prompt.len() + max_tokens
            &&& run.prompt_len == prompt.len()
            &&& run.stops == stops
        }),
    decreases tokens.len(),
{
    let start = started(prompt, max_tokens, stops, draft);
    if tokens.len() == 0 {
        assert(start.output.take(prompt.len() as int) =~= prompt);
    } else {
        prompt_is_kept(prompt, max_tokens, stops, draft, tokens.drop_last());
        let before = start.accepted_all(tokens.drop_last());
        if before.wants_token() {
            let grown = before.output.push(tokens.last());
            lemma_stop_len(grown, before.prompt_len as int, before.stops, 0);
            let run = before.accepted(tokens.last());
            assert(run.output.take(prompt.len() as int) =~= before.output.take(
                prompt.len() as int,
            ));
        }
    }
}

/// Drafted tokens change the counts only, never the output: it is the same with any
/// draft as without one.
pub proof fn draft_changes_no_output(
    prompt: Seq<u32>,
    max_tokens: nat,
    stops: Seq<Seq<u32>>,
    draft: Seq<u32>,
    tokens: Seq<u32>,
)
    ensures
        ({
            let with_draft = started(prompt, max_tokens, stops, draft).accepted_all(tokens);
            let without = started(prompt, max_tokens, stops, seq![]).accepted_all(tokens);
            &&& with_draft.output == without.output
            &&& with_draft.remaining == without.remaining
            &&& with_draft.stopped == without.stopped
            &&& with_draft.prompt_len == without.prompt_len
            &&& with_draft.stops == without.stops
        }),
    decreases tokens.len(),
{
    if tokens.len() > 0 {
        draft_changes_no_output(prompt, max_tokens, stops, draft, tokens.drop_last());
    }
}

/// Every drafted token that was compared was counted once: as one that the model agreed
/// with, or as one that it did not.
pub proof fn compared_drafts_are_counted(
    prompt: Seq<u32>,
    max_tokens: nat,
    stops: Seq<Seq<u32>>,
    draft: Seq<u32>,
    tokens: Seq<u32>,
)
    requires
        draft.len() <= usize::MAX,
    ensures
        ({
            let run = started(prompt, max_tokens, stops, draft).accepted_all(tokens);
            &&& run.draft.len() <= draft.len()
            &&& run.stats.accepted + run.stats.rejected + run.draft.len() == draft.len()
            &&& run.draft == draft.skip(draft.len() - run.draft.len())
        }),
    decreases tokens.len(),
{
    if tokens.len() == 0 {
        assert(draft.skip(0) =~= draft);
    } else {
        compared_drafts_are_counted(prompt, max_tokens, stops, draft, tokens.drop_last());
        let before = started(prompt, max_tokens, stops, draft).accepted_all(tokens.drop_last());
        let run = started(prompt, max_tokens, stops, draft).accepted_all(tokens);
        assert(run.draft =~= draft.skip(draft.len() - run.draft.len()));
        assert(before.stats.accepted + 1 <= usize::MAX || before.draft.len() == 0);
    }
}

/// A run without stop sequences outputs the prompt and the sampled tokens, as many as
/// were asked for.
pub proof fn output_is_prompt_and_tokens(
    prompt: Seq<u32>,
    max_tokens: nat,
    draft: Seq<u32>,
    tokens: Seq<u32>,
)
    requires
        tokens.len() <= max_tokens,
    ensures
        started(prompt, max_tokens, seq![], draft).accepted_all(tokens).output == prompt + tokens,
        started(prompt, max_tokens, seq![], draft).accepted_all(tokens).remaining == max_tokens
            - tokens.len(),
        !started(prompt, max_tokens, seq![], draft).accepted_all(tokens).stopped,
        started(prompt, max_tokens, seq![], draft).accepted_all(tokens).stops == Seq::<
            Seq<u32>,
        >::empty(),
    decreases tokens.len(),
{
    let start = started(prompt, max_tokens, seq![], draft);
    if tokens.len() == 0 {
        assert(start.output =~= prompt + tokens);
        assert(start.stops =~= Seq::empty());
    } else {
        output_is_prompt_and_tokens(prompt, max_tokens, draft, tokens.drop_last());
        let before = start.accepted_all(tokens.drop_last());
        assert(before.output.push(tokens.last()) =~= prompt + tokens);
    }
}

/// A run in which another model drafts, a window of tokens at a time.
#[verifier::ext_equal]
pub struct SpeculationView {
    pub output: Seq<u32>,
    pub prompt_len: nat,
    pub max_tokens: nat,
    pub window: nat,
    pub stops: Seq<Seq<u32>>,
    pub stats: SpeculativeStats,
    pub done: bool,
}

impl SpeculationView {
    /// The tokens that may still come.
    pub open spec fn remaining(self) -> nat {
        let generated = self.output.len() - self.prompt_len;
        if generated <= 0 {
            self.max_tokens
        } else if generated >= self.max_tokens {
            0
        } else {
            (self.max_tokens - generated) as nat
        }
    }

    /// The tokens that are to be drafted in a round, if there is another round.
    pub open spec fn draft_budget(self) -> Option<nat> {
        if self.done || self.remaining() == 0 {
            None
        } else if self.remaining() < self.window {
            Some(self.remaining())
        } else {
            Some(self.window)
        }
    }

    /// The drafted tokens in what the drafting model gave back.
    pub open spec fn drafted(self, proposed: Seq<u32>) -> Seq<u32> {
        if proposed.len() <= self.output.len() {
            seq![]
        } else {
            proposed.skip(self.output.len() as int)
        }
    }

    /// The tokens that the model is to generate against a draft: one at least.
    pub open spec fn verify_budget(self, draft: Seq<u32>) -> nat {
        let wanted: nat = if draft.len() == 0 {
            1
        } else {
            draft.len()
        };
        if wanted < self.remaining() {
            wanted
        } else {
            self.remaining()
        }
    }

    /// The run after a round. It ends where nothing was added or a stop sequence
    /// stands at the end.
    pub open spec fn after_round(self, verified: Seq<u32>, step: SpeculativeStats) -> SpeculationView {
        SpeculationView {
            output: verified,
            stats: SpeculativeStats {
                accepted: (self.stats.accepted + step.accepted) as usize,
                rejected: (self.stats.rejected + step.rejected) as usize,
            },
            done: verified.len() == self.output.len() || stop_len(
                verified,
                self.prompt_len as int,
                self.stops,
                0,
            ) is Some,
            ..self
        }
    }
}

/// A run in which another model drafts.
#[derive(Debug)]
pub struct Speculation {
    output: Vec<u32>,
    prompt_len: usize,
    max_tokens: usize,
    window: usize,
    stop_sequences: Vec<Vec<u32>>,
    stats: SpeculativeStats,
    done: bool,
}

impl View for Speculation {
    type V = SpeculationView;

    closed spec fn view(&self) -> SpeculationView {
        SpeculationView {
            output: self.output@,
            prompt_len: self.prompt_len as nat,
            max_tokens: self.max_tokens as nat,
            window: self.window as nat,
            stops: token_lists(self.stop_sequences@),
            stats: self.stats,
            done: self.done,
        }
    }
}

impl Speculation {
    pub fn new(
        prompt: &[u32],
        max_tokens: usize,
        stop_sequences: &Vec<Vec<u32>>,
        draft_window: usize,
    ) -> (r: Self)
        ensures
            r@ == (SpeculationView {
                output: prompt@,
                prompt_len: prompt@.len(),
                max_tokens: max_tokens as nat,
                window: if draft_window == 0 {
                    1
                } else {
                    draft_window as nat
                },
                stops: token_lists(stop_sequences@),
                stats: SpeculativeStats { accepted: 0, rejected: 0 },
                done: false,
            }),
    {
        Speculation {
            output: copy_tokens(prompt),
            prompt_len: prompt.len(),
            max_tokens,
            window: if draft_window == 0 {
                1
            } else {
                draft_window
            },
            stop_sequences: copy_lists(stop_sequences),
            stats: SpeculativeStats { accepted: 0, rejected: 0 },
            done: false,
        }
    }

    fn remaining(&self) -> (r: usize)
        ensures
            r == self@.remaining(),
    {
        if self.output.len() <= self.prompt_len {
            self.max_tokens
        } else {
            let generated: usize = self.output.len() - self.prompt_len;
            if generated >= self.max_tokens {
                0
            } else {
                self.max_tokens - generated
            }
        }
    }

    /// How many tokens are to be drafted in the next round, if there is one.
    pub fn draft_budget(&self) -> (r: Option<usize>)
        ensures
            match r {
                Some(n) => self@.draft_budget() == Some(n as nat),
                None => self@.draft_budget() is None,
            },
    {
        let remaining: usize = self.remaining();
        if self.done || remaining == 0 {
            None
        } else if remaining < self.window {
            Some(remaining)
        } else {
            Some(self.window)
        }
    }

    /// The drafted tokens, and how many the model is to generate against them.
    pub fn draft(&self, proposed: &[u32]) -> (r: (Vec<u32>, usize))
        ensures
            r.0@ == self@.drafted(proposed@),
            r.1 == self@.verify_budget(r.0@),
    {
        let drafted = if proposed.len() <= self.output.len() {
            Vec::new()
        } else {
            let tail = vstd::slice::slice_subrange(proposed, self.output.len(), proposed.len());
            assert(tail@ =~= proposed@.skip(self.output@.len() as int));
            copy_tokens(tail)
        };
        let wanted: usize = if drafted.len() == 0 {
            1
        } else {
            drafted.len()
        };
        let remaining: usize = self.remaining();
        let budget: usize = if wanted < remaining {
            wanted
        } else {
            remaining
        };
        assert(drafted@ =~= self@.drafted(proposed@));
        (drafted, budget)
    }

    /// Takes what the model gave back in a round.
    pub fn finish_round(&mut self, verified: Vec<u32>, step: SpeculativeStats)
        requires
            old(self)@.stats.accepted + step.accepted <= usize::MAX,
            old(self)@.stats.rejected + step.rejected <= usize::MAX,
        ensures
            final(self)@ == old(self)@.after_round(verified@, step),
    {
        let before: usize = self.output.len();
        let stopped = match matched_stop_len(&verified, self.prompt_len, &self.stop_sequences) {
            Some(_) => true,
            None => false,
        };
        self.done = verified.len() == before || stopped;
        self.output = verified;
        self.stats = SpeculativeStats {
            accepted: self.stats.accepted + step.accepted,
            rejected: self.stats.rejected + step.rejected,
        };
    }

    pub fn output(&self) -> (r: Vec<u32>)
        ensures
            r@ == self@.output,
    {
        copy_tokens(self.output.as_slice())
    }

    pub fn stats(&self) -> (r: SpeculativeStats)
        ensures
            r == self@.stats,
    {
        self.stats
    }
}

/// Every token of the output behind the prompt is the one that a model gives for what
/// stands before it.
pub open spec fn continues(
    next: spec_fn(Seq<u32>) -> u32,
    prompt: Seq<u32>,
    output: Seq<u32>,
) -> bool {
    &&& prompt.len() <= output.len()
    &&& output.take(prompt.len() as int) == prompt
    &&& forall|i: int|
        prompt.len() <= i < output.len() ==> #[trigger] output[i] == next(output.take(i))
}

/// A model that gives the same token for the same text continues a prompt in one way
/// only.
pub proof fn continuation_is_unique(
    next: spec_fn(Seq<u32>) -> u32,
    prompt: Seq<u32>,
    a: Seq<u32>,
    b: Seq<u32>,
)
    requires
        continues(next, prompt, a),
        continues(next, prompt, b),
        a.len() <= b.len(),
    ensures
        a == b.take(a.len() as int),
    decreases a.len(),
{
    if a.len() == prompt.len() {
        assert(a.take(prompt.len() as int) =~= a);
    } else {
        let shorter = a.drop_last();
        assert(shorter.take(prompt.len() as int) =~= a.take(prompt.len() as int));
        assert forall|i: int| prompt.len() <= i < shorter.len() implies #[trigger] shorter[i]
            == next(shorter.take(i)) by {
            assert(a[i] == next(a.take(i)));
            assert(shorter.take(i) =~= a.take(i));
        }
        continuation_is_unique(next, prompt, shorter, b);
        let last = a.len() - 1;
        assert(a[last] == next(a.take(last)));
        assert(b[last] == next(b.take(last)));
        assert(a.take(last) =~= shorter);
        assert(a =~= b.take(a.len() as int));
    }
}

/// A round of a model that gives the same token for the same text leaves an output that
/// the model alone would have generated, whatever was drafted, where no stop sequence is
/// asked for.
pub proof fn rounds_follow_the_model(
    next: spec_fn(Seq<u32>) -> u32,
    prompt: Seq<u32>,
    output: Seq<u32>,
    max_tokens: nat,
    draft: Seq<u32>,
    tokens: Seq<u32>,
)
    requires
        continues(next, prompt, output),
        continues(next, output, output + tokens),
        tokens.len() <= max_tokens,
    ensures
        continues(
            next,
            prompt,
            started(output, max_tokens, seq![], draft).accepted_all(tokens).output,
        ),
{
    output_is_prompt_and_tokens(output, max_tokens, draft, tokens);
    let verified = output + tokens;
    assert(verified.take(prompt.len() as int) =~= output.take(prompt.len() as int));
    assert forall|i: int| prompt.len() <= i < verified.len() implies #[trigger] verified[i]
        == next(verified.take(i)) by {
        if i < output.len() {
            assert(verified.take(i) =~= output.take(i));
            assert(output[i] == next(output.take(i)));
        }
    }
}

/// A round that keeps to its budget never takes the output past the tokens that were
/// asked for, and a round after which another follows leaves fewer to come.
pub proof fn rounds_keep_to_budget(
    run: SpeculationView,
    proposed: Seq<u32>,
    verified: Seq<u32>,
    step: SpeculativeStats,
)
    requires
        run.draft_budget() is Some,
        run.prompt_len <= run.output.len(),
        run.output.len() <= verified.len() <= run.output.len() + run.verify_budget(
            run.drafted(proposed),
        ),
    ensures
        verified.len() <= run.prompt_len + run.max_tokens,
        !run.after_round(verified, step).done ==> run.after_round(verified, step).remaining()
            < run.remaining(),
{
}

} // verus!
