//! The scheduler.

use crate::gguf::types::blocks_for;
use crate::names::NameMap;
use crate::scheduler::model::{
    decode_items, first_named, lemma_advanced, lemma_allocate, lemma_filled, lemma_pages_prefix,
    lemma_place,
    lemma_released, lemma_running_changed, none_named, pages_of, scheduler_wf, AllocationView,
    DecodeView, SchedulerView,
};
use crate::scheduler::request::{request_views, Request, RequestState, RequestView};
use crate::text::{str_eq, texts};
use std::collections::VecDeque;
use vstd::prelude::*;

verus! {

/// One running request, ready for its next token.
#[derive(Debug, PartialEq, Eq)]
pub struct ScheduledDecode {
    pub id: String,
    pub token: u32,
    pub position: usize,
    pub generated: usize,
    pub prompt_len: usize,
    pub kv_pages: Vec<u64>,
}

impl View for ScheduledDecode {
    type V = DecodeView;

    open spec fn view(&self) -> DecodeView {
        DecodeView {
            id: self.id@,
            token: self.token,
            position: self.position,
            generated: self.generated,
            prompt_len: self.prompt_len,
            kv_pages: self.kv_pages@,
        }
    }
}

/// The views of a list of decode items.
pub open spec fn decode_views(v: Seq<ScheduledDecode>) -> Seq<DecodeView> {
    Seq::new(v.len(), |i: int| v[i]@)
}

/// The pages that one request holds.
#[derive(Debug, PartialEq, Eq)]
pub struct KvPageAllocation {
    pub request_id: String,
    pub page_ids: Vec<u64>,
    pub page_size_tokens: usize,
    pub capacity_tokens: usize,
}

impl View for KvPageAllocation {
    type V = AllocationView;

    open spec fn view(&self) -> AllocationView {
        AllocationView {
            request_id: self.request_id@,
            page_ids: self.page_ids@,
            page_size_tokens: self.page_size_tokens,
            capacity_tokens: self.capacity_tokens,
        }
    }
}

impl Clone for KvPageAllocation {
    fn clone(&self) -> (r: Self)
        ensures
            r@ == self@,
    {
        let r = KvPageAllocation {
            request_id: self.request_id.clone(),
            page_ids: self.page_ids.clone(),
            page_size_tokens: self.page_size_tokens,
            capacity_tokens: self.capacity_tokens,
        };
        assert(r@ =~= self@);
        r
    }
}

/// Takes requests in, runs as many at a time as there are slots and pages, and keeps
/// those that are done until they are fetched.
#[derive(Debug)]
pub struct Scheduler {
    pending: VecDeque<Request>,
    running: Vec<Request>,
    completed: Vec<Request>,
    max_batch_size: usize,
    page_size_tokens: usize,
    max_kv_pages: usize,
    next_page_id: u64,
    kv_pages: NameMap<KvPageAllocation>,
}

impl View for Scheduler {
    type V = SchedulerView;

    closed spec fn view(&self) -> SchedulerView {
        SchedulerView {
            pending: request_views(self.pending@),
            running: request_views(self.running@),
            completed: request_views(self.completed@),
            max_batch_size: self.max_batch_size,
            page_size_tokens: self.page_size_tokens,
            max_kv_pages: self.max_kv_pages,
            next_page_id: self.next_page_id,
            kv_pages: self.kv_pages@,
            holders: self.kv_pages.names(),
        }
    }
}

/// A scheduler without requests.
pub open spec fn idle(
    max_batch_size: usize,
    page_size_tokens: usize,
    max_kv_pages: usize,
) -> SchedulerView {
    SchedulerView {
        pending: seq![],
        running: seq![],
        completed: seq![],
        max_batch_size,
        page_size_tokens,
        max_kv_pages,
        next_page_id: 0,
        kv_pages: Map::empty(),
        holders: seq![],
    }
}

fn find_request(requests: &Vec<Request>, id: &str) -> (r: Option<usize>)
    ensures
        match r {
            Some(i) => first_named(request_views(requests@), id@, i as int),
            None => none_named(request_views(requests@), id@),
        },
{
    let mut i: usize = 0;
    while i < requests.len()
        invariant
            i <= requests@.len(),
            forall|j: int| 0 <= j < i ==> (#[trigger] request_views(requests@)[j]).id != id@,
        decreases requests@.len() - i,
    {
        if str_eq(requests[i].id.as_str(), id) {
            assert(request_views(requests@)[i as int].id == id@);
            return Some(i);
        }
        i += 1;
    }
    None
}

fn find_pending(requests: &VecDeque<Request>, id: &str) -> (r: Option<usize>)
    ensures
        match r {
            Some(i) => first_named(request_views(requests@), id@, i as int),
            None => none_named(request_views(requests@), id@),
        },
{
    let mut i: usize = 0;
    while i < requests.len()
        invariant
            i <= requests@.len(),
            forall|j: int| 0 <= j < i ==> (#[trigger] request_views(requests@)[j]).id != id@,
        decreases requests@.len() - i,
    {
        if str_eq(requests[i].id.as_str(), id) {
            assert(request_views(requests@)[i as int].id == id@);
            return Some(i);
        }
        i += 1;
    }
    None
}

impl Default for Scheduler {
    /// A scheduler that runs eight requests at a time.
    fn default() -> (r: Self)
        ensures
            r@ == idle(8, 16, usize::MAX / 2),
            scheduler_wf(r@),
    {
        Self::new(8)
    }
}

impl Scheduler {
    /// A scheduler with pages of sixteen tokens and as many pages as can be counted
    /// with room to spare.
    pub fn new(max_batch_size: usize) -> (r: Self)
        ensures
            r@ == idle(max_batch_size, 16, usize::MAX / 2),
            scheduler_wf(r@),
    {
        Self::with_kv_pages(max_batch_size, 16, usize::MAX / 2)
    }

    /// A scheduler with a given page size, at least one token, and number of pages.
    pub fn with_kv_pages(max_batch_size: usize, page_size_tokens: usize, max_kv_pages: usize) -> (r:
        Self)
        ensures
            r@ == idle(
                max_batch_size,
                if page_size_tokens == 0 {
                    1
                } else {
                    page_size_tokens
                },
                max_kv_pages,
            ),
            scheduler_wf(r@),
    {
        let r = Scheduler {
            pending: VecDeque::new(),
            running: Vec::new(),
            completed: Vec::new(),
            max_batch_size,
            page_size_tokens: if page_size_tokens == 0 {
                1
            } else {
                page_size_tokens
            },
            max_kv_pages,
            next_page_id: 0,
            kv_pages: NameMap::new(),
        };
        assert(request_views(r.pending@) =~= seq![]);
        assert(request_views(r.running@) =~= seq![]);
        assert(request_views(r.completed@) =~= seq![]);
        r
    }

    /// Takes a request in, behind those that wait.
    pub fn add_request(&mut self, id: String, tokens: Vec<u32>, max_tokens: usize)
        requires
            scheduler_wf(old(self)@),
            tokens@.len() + max_tokens <= usize::MAX,
        ensures
            scheduler_wf(final(self)@),
            final(self)@ == (SchedulerView {
                pending: old(self)@.pending.push(RequestView::fresh(id@, tokens@, max_tokens)),
                ..old(self)@
            }),
    {
        let r = Request::new(id, tokens, max_tokens);
        self.pending.push_back(r);
        assert(request_views(self.pending@) =~= old(self)@.pending.push(r@));
        assert forall|i: int| 0 <= i < self@.pending.len() implies (#[trigger] self@.pending[i]).state
            is Pending && self@.pending[i].prompt_len + self@.pending[i].max_tokens <= usize::MAX by {
            if i < old(self)@.pending.len() {
                assert(self@.pending[i] == old(self)@.pending[i]);
            }
        }
    }

    /// Pages that are in use.
    fn used_pages(&self) -> (r: usize)
        requires
            scheduler_wf(self@),
        ensures
            r == self@.used(),
    {
        let mut used: usize = 0;
        let mut i: usize = 0;
        let ghost names = self.kv_pages.names();
        let ghost m = self.kv_pages@;
        while i < self.kv_pages.len()
            invariant
                i <= names.len(),
                names == self.kv_pages.names(),
                m == self.kv_pages@,
                used == pages_of(names.take(i as int), m),
                pages_of(names, m) <= usize::MAX,
            decreases names.len() - i,
        {
            assert(names.take(i + 1).drop_last() =~= names.take(i as int));
            proof {
                lemma_pages_prefix(names, m, i + 1);
            }
            used = used + self.kv_pages.value_at(i).page_ids.len();
            i += 1;
        }
        assert(names.take(i as int) =~= names);
        used
    }

    /// Gives pages to a request.
    fn allocate_kv_pages(&mut self, req: &Request) -> (r: Option<Vec<u64>>)
        requires
            scheduler_wf(old(self)@),
            req.prompt_len + req.max_tokens <= usize::MAX,
        ensures
            match old(self)@.allocate(req@) {
                Some((after, a)) => final(self)@ == after && r is Some && r->0@ == a.page_ids
                    && scheduler_wf(after),
                None => final(self)@ == old(self)@ && r is None,
            },
    {
        let capacity_tokens: usize = req.prompt_len + req.max_tokens;
        let blocks: usize = blocks_for(capacity_tokens, self.page_size_tokens);
        let needed: usize = if blocks < 1 {
            1
        } else {
            blocks
        };
        let used: usize = self.used_pages();
        if needed > self.max_kv_pages - used {
            return None;
        }
        if needed as u64 > u64::MAX - self.next_page_id {
            return None;
        }
        let first: u64 = self.next_page_id;
        let mut page_ids: Vec<u64> = Vec::new();
        let mut i: usize = 0;
        while i < needed
            invariant
                i <= needed,
                first + needed <= u64::MAX,
                page_ids@ == Seq::new(i as nat, |i: int| (first + i) as u64),
            decreases needed - i,
        {
            page_ids.push(first + i as u64);
            i += 1;
            assert(page_ids@ =~= Seq::new(i as nat, |i: int| (first + i) as u64));
        }
        proof {
            lemma_allocate(self@, req@);
        }
        self.next_page_id = first + needed as u64;
        let allocation = KvPageAllocation {
            request_id: req.id.clone(),
            page_ids: page_ids.clone(),
            page_size_tokens: self.page_size_tokens,
            capacity_tokens,
        };
        assert(allocation.page_ids@ =~= page_ids@);
        self.kv_pages.insert(req.id.clone(), allocation);
        Some(page_ids)
    }

    fn release_kv_pages(&mut self, id: &str)
        requires
            scheduler_wf(old(self)@),
        ensures
            final(self)@ == old(self)@.released(id@),
            scheduler_wf(final(self)@),
    {
        proof {
            lemma_released(self@, id@);
        }
        let _ = self.kv_pages.remove(id);
    }

    /// Starts waiting requests in their order, while there are free slots and pages,
    /// and gives those that were started.
    pub fn get_next_batch(&mut self) -> (r: Vec<Request>)
        requires
            scheduler_wf(old(self)@),
        ensures
            scheduler_wf(final(self)@),
            final(self)@ == old(self)@.filled().0,
            request_views(r@) == old(self)@.filled().1,
    {
        self.fill_running()
    }

    fn fill_running(&mut self) -> (r: Vec<Request>)
        requires
            scheduler_wf(old(self)@),
        ensures
            scheduler_wf(final(self)@),
            final(self)@ == old(self)@.filled().0,
            request_views(r@) == old(self)@.filled().1,
    {
        let slots: usize = self.max_batch_size.saturating_sub(self.running.len());
        let mut batch: Vec<Request> = Vec::new();
        let mut stop: bool = false;
        assert(request_views(batch@) =~= seq![]);
        while !stop && batch.len() < slots
            invariant
                batch@.len() <= slots,
                scheduler_wf(self@),
                !stop ==> old(self)@.start_pending(slots as nat, seq![]) == self@.start_pending(
                    (slots - batch@.len()) as nat,
                    request_views(batch@),
                ),
                stop ==> old(self)@.start_pending(slots as nat, seq![]) == (
                    self@,
                    request_views(batch@),
                ),
            decreases
                slots - batch@.len(),
                if stop {
                    0int
                } else {
                    1int
                },
        {
            let ghost s = self@;
            match self.pending.pop_front() {
                Some(req) => {
                    let mut req = req;
                    assert(request_views(self.pending@) =~= s.pending.skip(1));
                    assert(s.pending[0] == req@);
                    let ghost popped = self@;
                    assert(popped == (SchedulerView { pending: s.pending.skip(1), ..s }));
                    assert(scheduler_wf(popped)) by {
                        assert forall|i: int| 0 <= i < popped.pending.len() implies (
                        #[trigger] popped.pending[i]).state is Pending
                            && popped.pending[i].prompt_len + popped.pending[i].max_tokens
                            <= usize::MAX by {
                            assert(popped.pending[i] == s.pending[i + 1]);
                        }
                    }
                    let allocation = self.allocate_kv_pages(&req);
                    assert(s.allocate(req@) is Some <==> popped.allocate(req@) is Some);
                    match allocation {
                        Some(pages) => {
                            let ghost (t, a) = s.allocate(req@)->0;
                            assert(self@ =~= (SchedulerView { pending: t.pending.skip(1), ..t }));
                            req.mark_running(pages);
                            let ghost before = request_views(batch@);
                            batch.push(req);
                            assert(request_views(batch@) =~= before.push(req@));
                        },
                        None => {
                            let ghost rest = request_views(self.pending@);
                            assert(rest == self@.pending);
                            self.pending.push_front(req);
                            assert(request_views(self.pending@) =~= seq![req@] + rest);
                            assert(seq![req@] + rest =~= s.pending);
                            stop = true;
                        },
                    }
                },
                None => {
                    assert(self@ =~= s);
                    stop = true;
                },
            }
        }
        let ghost s = self@;
        proof {
            lemma_filled(old(self)@);
        }
        let started = copy_requests(&batch);
        let mut more = copy_requests(&batch);
        self.running.append(&mut more);
        assert(request_views(self.running@) =~= s.running + request_views(batch@));
        started
    }

    /// Fills free slots, and gives a decode item for every running request.
    pub fn decode_batch(&mut self) -> (r: Vec<ScheduledDecode>)
        requires
            scheduler_wf(old(self)@),
        ensures
            scheduler_wf(final(self)@),
            final(self)@ == old(self)@.filled().0,
            decode_views(r@) == decode_items(final(self)@.running),
            decode_views(r@).len() == final(self)@.running.len(),
            forall|i: int|
                0 <= i < r@.len() ==> (#[trigger] decode_views(r@)[i]).id
                    == final(self)@.running[i].id,
    {
        let _ = self.fill_running();
        let mut out: Vec<ScheduledDecode> = Vec::new();
        let ghost views = self@.running;
        let mut i: usize = 0;
        assert(decode_views(out@) =~= decode_items(views).take(0));
        while i < self.running.len()
            invariant
                i <= self.running@.len(),
                views == request_views(self.running@),
                decode_views(out@) == decode_items(views).take(i as int),
            decreases self.running@.len() - i,
        {
            let req = &self.running[i];
            assert(views[i as int] == req@);
            let n: usize = req.tokens.len();
            let item = ScheduledDecode {
                id: req.id.clone(),
                token: if n == 0 {
                    0
                } else {
                    req.tokens[n - 1]
                },
                position: req.position(),
                generated: req.generated_tokens(),
                prompt_len: req.prompt_len,
                kv_pages: req.kv_pages.clone(),
            };
            assert(item.kv_pages@ =~= req.kv_pages@);
            let ghost before = decode_views(out@);
            out.push(item);
            assert(decode_views(out@) =~= before.push(item@));
            i += 1;
            assert(decode_views(out@) =~= decode_items(views).take(i as int));
        }
        assert(decode_views(out@) =~= decode_items(views));
        out
    }

    /// Gives a running request its next token. Says whether the request was found.
    pub fn append_generated(&mut self, id: &str, token: u32) -> (r: bool)
        requires
            scheduler_wf(old(self)@),
        ensures
            scheduler_wf(final(self)@),
            (final(self)@, r) == old(self)@.given(id@, token),
    {
        proof {
            lemma_place(self@.running, id@);
        }
        let i: usize = match find_request(&self.running, id) {
            Some(i) => i,
            None => {
                return false;
            },
        };
        let ghost s = self@;
        let mut req = self.running.remove(i);
        assert(s.running[i as int] == req@);
        assert(s.running[i as int].runs_well());
        proof {
            lemma_advanced(s.running[i as int]);
        }
        assert(request_views(self.running@) =~= s.running.remove(i as int));
        let advanced = req.advance();
        if advanced {
            req.tokens.push(token);
        }
        if req.is_done() {
            let name = req.id.clone();
            self.completed.push(req);
            assert(request_views(self.completed@) =~= s.completed.push(req@));
            let ghost t = self@;
            proof {
                assert forall|j: int| 0 <= j < t.running.len() implies (
                #[trigger] t.running[j]).runs_well() by {
                    assert(t.running[j] == s.running[if j < i {
                        j
                    } else {
                        j + 1
                    }]);
                }
                lemma_running_changed(s, t);
            }
            self.release_kv_pages(name.as_str());
            assert(self@ == s.appended(i as int, token));
        } else {
            self.running.insert(i, req);
            assert(request_views(self.running@) =~= s.running.update(i as int, req@));
            let ghost t = self@;
            proof {
                assert forall|j: int| 0 <= j < t.running.len() implies (
                #[trigger] t.running[j]).runs_well() by {
                    if j != i {
                        assert(t.running[j] == s.running[j]);
                    }
                }
                lemma_running_changed(s, t);
            }
            assert(self@ =~= s.appended(i as int, token));
        }
        true
    }

    /// Advances every running request by one token, and gives the names of those that
    /// had one to come. Requests that are done leave with their pages.
    pub fn step(&mut self) -> (r: Vec<String>)
        requires
            scheduler_wf(old(self)@),
        ensures
            scheduler_wf(final(self)@),
            final(self)@ == old(self)@.ticked(0, seq![]).0,
            texts(r@) == old(self)@.ticked(0, seq![]).1,
    {
        let mut results: Vec<String> = Vec::new();
        let mut i: usize = 0;
        assert(texts(results@) =~= seq![]);
        while i < self.running.len()
            invariant
                i <= self.running@.len(),
                scheduler_wf(self@),
                old(self)@.ticked(0, seq![]) == self@.ticked(i as int, texts(results@)),
            decreases self.running@.len() - i,
        {
            let ghost s = self@;
            let mut req = self.running.remove(i);
            assert(s.running[i as int] == req@);
            assert(s.running[i as int].runs_well());
            proof {
                lemma_advanced(s.running[i as int]);
            }
            assert(request_views(self.running@) =~= s.running.remove(i as int));
            let ghost names = texts(results@);
            let advanced = req.advance();
            if advanced {
                let name = req.id.clone();
                results.push(name);
                assert(texts(results@) =~= names.push(req@.id));
            }
            if req.is_done() {
                let name = req.id.clone();
                self.completed.push(req);
                assert(request_views(self.completed@) =~= s.completed.push(req@));
                let ghost t = self@;
                proof {
                    assert forall|j: int| 0 <= j < t.running.len() implies (
                    #[trigger] t.running[j]).runs_well() by {
                        assert(t.running[j] == s.running[if j < i {
                            j
                        } else {
                            j + 1
                        }]);
                    }
                    lemma_running_changed(s, t);
                }
                self.release_kv_pages(name.as_str());
            } else {
                self.running.insert(i, req);
                assert(request_views(self.running@) =~= s.running.update(i as int, req@));
                let ghost t = self@;
                proof {
                    assert forall|j: int| 0 <= j < t.running.len() implies (
                    #[trigger] t.running[j]).runs_well() by {
                        if j != i {
                            assert(t.running[j] == s.running[j]);
                        }
                    }
                    lemma_running_changed(s, t);
                }
                i += 1;
            }
        }
        results
    }

    /// Fetches the requests that are done; none are kept.
    pub fn get_completed(&mut self) -> (r: Vec<Request>)
        requires
            scheduler_wf(old(self)@),
        ensures
            scheduler_wf(final(self)@),
            request_views(r@) == old(self)@.completed,
            forall|i: int| 0 <= i < r@.len() ==> (#[trigger] r@[i]).state is Done,
            final(self)@ == (SchedulerView { completed: seq![], ..old(self)@ }),
    {
        let mut out: Vec<Request> = Vec::new();
        std::mem::swap(&mut out, &mut self.completed);
        assert forall|i: int| 0 <= i < out@.len() implies (#[trigger] out@[i]).state is Done by {
            assert(request_views(out@)[i] == old(self)@.completed[i]);
        }
        assert(request_views(self.completed@) =~= seq![]);
        out
    }

    /// Completes a running or else a waiting request ahead of time. Says whether one
    /// was found.
    pub fn complete_request(&mut self, id: &str) -> (r: bool)
        requires
            scheduler_wf(old(self)@),
        ensures
            scheduler_wf(final(self)@),
            (final(self)@, r) == old(self)@.ended(id@),
    {
        let ghost s = self@;
        proof {
            lemma_place(s.running, id@);
            lemma_place(s.pending, id@);
        }
        match find_request(&self.running, id) {
            Some(i) => {
                let mut req = self.running.remove(i);
                assert(s.running[i as int] == req@);
                assert(request_views(self.running@) =~= s.running.remove(i as int));
                req.state = RequestState::Done;
                self.completed.push(req);
                assert(request_views(self.completed@) =~= s.completed.push(
                    s.running[i as int].finished(),
                ));
                let ghost t = self@;
                proof {
                    assert forall|j: int| 0 <= j < t.running.len() implies (
                    #[trigger] t.running[j]).runs_well() by {
                        assert(t.running[j] == s.running[if j < i {
                            j
                        } else {
                            j + 1
                        }]);
                    }
                    lemma_running_changed(s, t);
                }
                self.release_kv_pages(id);
                true
            },
            None => match find_pending(&self.pending, id) {
                Some(i) => {
                    let removed = self.pending.remove(i);
                    let mut req = removed.unwrap();
                    assert(s.pending[i as int] == req@);
                    assert(request_views(self.pending@) =~= s.pending.remove(i as int));
                    req.state = RequestState::Done;
                    self.completed.push(req);
                    assert(request_views(self.completed@) =~= s.completed.push(
                        s.pending[i as int].finished(),
                    ));
                    let ghost t = self@;
                    assert forall|j: int| 0 <= j < t.pending.len() implies (
                    #[trigger] t.pending[j]).state is Pending && t.pending[j].prompt_len
                        + t.pending[j].max_tokens <= usize::MAX by {
                        assert(t.pending[j] == s.pending[if j < i {
                            j
                        } else {
                            j + 1
                        }]);
                    }
                    self.release_kv_pages(id);
                    true
                },
                None => false,
            },
        }
    }

    /// How many requests wait, run and are done.
    pub fn stats(&self) -> (r: (usize, usize, usize))
        ensures
            r.0 == self@.pending.len(),
            r.1 == self@.running.len(),
            r.2 == self@.completed.len(),
    {
        (self.pending.len(), self.running.len(), self.completed.len())
    }

    /// How many pages are in use, and how many there are.
    pub fn kv_page_stats(&self) -> (r: (usize, usize))
        requires
            scheduler_wf(self@),
        ensures
            r.0 == self@.used(),
            r.1 == self@.max_kv_pages,
    {
        (self.used_pages(), self.max_kv_pages)
    }

    /// The pages held under a name.
    pub fn kv_allocation(&self, id: &str) -> (r: Option<KvPageAllocation>)
        ensures
            r is Some <==> self@.kv_pages.contains_key(id@),
            r matches Some(a) ==> a@ == self@.kv_pages[id@],
    {
        match self.kv_pages.get(id) {
            Some(a) => Some(a.clone()),
            None => None,
        }
    }
}

fn copy_requests(v: &Vec<Request>) -> (r: Vec<Request>)
    ensures
        request_views(r@) == request_views(v@),
{
    let r = v.clone();
    assert forall|i: int| 0 <= i < v@.len() implies r@[i]@ == v@[i]@ by {
        assert(cloned(v@[i], r@[i]));
    }
    assert(request_views(r@) =~= request_views(v@));
    r
}

} // verus!
