//! Inference requests and their life cycle.

use vstd::prelude::*;

verus! {

/// Where a request is in its life.
#[derive(Debug, Clone, Copy, PartialEq, Eq, Structural)]
pub enum RequestState {
    /// Waiting to be scheduled.
    Pending,
    /// Being worked on: tokens generated so far, tokens to generate, and position
    /// in the context.
    Running { generated: usize, max_tokens: usize, position: usize },
    /// Completed.
    Done,
}

/// One inference request.
#[derive(Debug)]
pub struct Request {
    pub id: String,
    pub tokens: Vec<u32>,
    pub state: RequestState,
    pub prompt_len: usize,
    pub max_tokens: usize,
    pub kv_pages: Vec<u64>,
}

/// A request with its collections as sequences.
#[verifier::ext_equal]
pub struct RequestView {
    pub id: Seq<char>,
    pub tokens: Seq<u32>,
    pub state: RequestState,
    pub prompt_len: usize,
    pub max_tokens: usize,
    pub kv_pages: Seq<u64>,
}

impl View for Request {
    type V = RequestView;

    open spec fn view(&self) -> RequestView {
        RequestView {
            id: self.id@,
            tokens: self.tokens@,
            state: self.state,
            prompt_len: self.prompt_len,
            max_tokens: self.max_tokens,
            kv_pages: self.kv_pages@,
        }
    }
}

/// The views of a list of requests.
pub open spec fn request_views(v: Seq<Request>) -> Seq<RequestView> {
    Seq::new(v.len(), |i: int| v[i]@)
}

impl RequestView {
    /// A request that has just come in.
    pub open spec fn fresh(id: Seq<char>, tokens: Seq<u32>, max_tokens: usize) -> RequestView {
        RequestView {
            id,
            tokens,
            state: RequestState::Pending,
            prompt_len: tokens.len() as usize,
            max_tokens,
            kv_pages: seq![],
        }
    }

    /// The request after one more token, and whether there was one to come. A
    /// running request is done as soon as it has all its tokens.
    pub open spec fn advanced(self) -> (RequestView, bool) {
        match self.state {
            RequestState::Running { generated, max_tokens, position } => if generated >= max_tokens {
                (RequestView { state: RequestState::Done, ..self }, false)
            } else if generated + 1 >= max_tokens {
                (RequestView { state: RequestState::Done, ..self }, true)
            } else {
                (
                    RequestView {
                        state: RequestState::Running {
                            generated: (generated + 1) as usize,
                            max_tokens,
                            position: (position + 1) as usize,
                        },
                        ..self
                    },
                    true,
                )
            },
            _ => (self, false),
        }
    }

    /// The request once it runs with the given pages.
    pub open spec fn started(self, kv_pages: Seq<u64>) -> RequestView {
        RequestView {
            kv_pages,
            state: RequestState::Running {
                generated: 0,
                max_tokens: self.max_tokens,
                position: self.prompt_len,
            },
            ..self
        }
    }

    /// The request once it is completed.
    pub open spec fn finished(self) -> RequestView {
        RequestView { state: RequestState::Done, ..self }
    }

    /// Tokens generated so far.
    pub open spec fn generated(self) -> int {
        match self.state {
            RequestState::Running { generated, .. } => generated as int,
            RequestState::Done => if self.tokens.len() >= self.prompt_len {
                self.tokens.len() - self.prompt_len
            } else {
                0
            },
            RequestState::Pending => 0,
        }
    }

    /// Position in the context.
    pub open spec fn at(self) -> int {
        match self.state {
            RequestState::Running { position, .. } => position as int,
            _ => self.tokens.len() as int,
        }
    }

    /// A running request stands as far behind its prompt as it has generated
    /// tokens, and has not generated more than it may.
    pub open spec fn runs_well(self) -> bool {
        match self.state {
            RequestState::Running { generated, max_tokens, position } => {
                &&& max_tokens == self.max_tokens
                &&& position == self.prompt_len + generated
                &&& generated < max_tokens || generated == 0
                &&& self.prompt_len + self.max_tokens <= usize::MAX
            },
            _ => false,
        }
    }
}

impl Clone for Request {
    fn clone(&self) -> (r: Self)
        ensures
            r@ == self@,
    {
        let r = Request {
            id: self.id.clone(),
            tokens: self.tokens.clone(),
            state: self.state,
            prompt_len: self.prompt_len,
            max_tokens: self.max_tokens,
            kv_pages: self.kv_pages.clone(),
        };
        assert(r@ =~= self@);
        r
    }
}

impl Request {
    pub fn new(id: String, tokens: Vec<u32>, max_tokens: usize) -> (r: Self)
        ensures
            r@ == RequestView::fresh(id@, tokens@, max_tokens),
    {
        let prompt_len: usize = tokens.len();
        let r = Request {
            id,
            tokens,
            state: RequestState::Pending,
            prompt_len,
            max_tokens,
            kv_pages: Vec::new(),
        };
        assert(r@ =~= RequestView::fresh(id@, tokens@, max_tokens));
        r
    }

    /// Counts one more generated token. Says whether there was one to come.
    pub fn advance(&mut self) -> (r: bool)
        requires
            old(self).state matches RequestState::Running { generated, max_tokens, position }
                ==> generated < max_tokens ==> position < usize::MAX,
        ensures
            (final(self)@, r) == old(self)@.advanced(),
    {
        match self.state {
            RequestState::Running { generated, max_tokens, position } => {
                if generated >= max_tokens {
                    self.state = RequestState::Done;
                    return false;
                }
                if generated + 1 >= max_tokens {
                    self.state = RequestState::Done;
                } else {
                    self.state = RequestState::Running {
                        generated: generated + 1,
                        max_tokens,
                        position: position + 1,
                    };
                }
                true
            },
            _ => false,
        }
    }

    pub fn mark_running(&mut self, kv_pages: Vec<u64>)
        ensures
            final(self)@ == old(self)@.started(kv_pages@),
    {
        self.kv_pages = kv_pages;
        self.state = RequestState::Running {
            generated: 0,
            max_tokens: self.max_tokens,
            position: self.prompt_len,
        };
    }

    pub fn is_running(&self) -> (r: bool)
        ensures
            r == (self.state is Running),
    {
        matches!(self.state, RequestState::Running { .. })
    }

    pub fn is_done(&self) -> (r: bool)
        ensures
            r == (self.state is Done),
    {
        matches!(self.state, RequestState::Done)
    }

    pub fn generated_tokens(&self) -> (r: usize)
        ensures
            r == self@.generated(),
    {
        match self.state {
            RequestState::Running { generated, .. } => generated,
            RequestState::Done => self.tokens.len().saturating_sub(self.prompt_len),
            RequestState::Pending => 0,
        }
    }

    pub fn position(&self) -> (r: usize)
        ensures
            r == self@.at(),
    {
        match self.state {
            RequestState::Running { position, .. } => position,
            _ => self.tokens.len(),
        }
    }
}

/// A request after a number of tokens.
pub open spec fn after_tokens(r: RequestView, n: nat) -> RequestView
    decreases n,
{
    if n == 0 {
        r
    } else {
        after_tokens(r, (n - 1) as nat).advanced().0
    }
}

/// A request that was started runs for as many tokens as it asked for. So many calls say
/// that a token was to come, and every later one that none was. The request is done with
/// the last of them, or with the first call where it asked for none; until it is, it
/// stands one further in the context with each call. Nothing but its state changes.
pub proof fn runs_for_max_tokens(r: RequestView, pages: Seq<u64>, calls: nat)
    requires
        r.prompt_len + r.max_tokens <= usize::MAX,
    ensures
        ({
            let s = after_tokens(r.started(pages), calls);
            &&& s == (RequestView { state: s.state, ..r.started(pages) })
            &&& s.advanced().1 == (calls < r.max_tokens)
            &&& s.state is Done <==> calls >= 1 && calls >= r.max_tokens
            &&& !(s.state is Done) ==> {
                &&& s.state == (RequestState::Running {
                    generated: calls as usize,
                    max_tokens: r.max_tokens,
                    position: (r.prompt_len + calls) as usize,
                })
                &&& s.generated() == calls
                &&& s.at() == r.prompt_len + calls
            }
        }),
    decreases calls,
{
    if calls > 0 {
        runs_for_max_tokens(r, pages, (calls - 1) as nat);
    }
}

} // verus!
