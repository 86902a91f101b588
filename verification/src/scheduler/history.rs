//! What holds of a scheduler after any calls.

use crate::scheduler::laws::{completed_holds_no_pages, lemma_start_order};
use crate::scheduler::model::{
    lemma_advanced, lemma_allocate, lemma_filled, lemma_pages_same, lemma_place, lemma_released,
    lemma_running_changed, lemma_ticked, pages_for, place_of, scheduler_wf, SchedulerView,
};
use crate::scheduler::queue::idle;
use crate::scheduler::request::RequestView;
use vstd::multiset::Multiset;
use vstd::prelude::*;

verus! {

/// A call that changes a scheduler.
pub enum SchedulerCall {
    Add { id: Seq<char>, tokens: Seq<u32>, max_tokens: usize },
    /// Free slots are filled, for a batch of requests or of decode items.
    Fill,
    Give { id: Seq<char>, token: u32 },
    Tick,
    Complete { id: Seq<char> },
    Fetch,
}

/// A scheduler, the names of the requests that were added to it, and the requests that
/// were fetched from it.
#[verifier::ext_equal]
pub struct History {
    pub now: SchedulerView,
    pub added: Seq<Seq<char>>,
    pub fetched: Seq<RequestView>,
}

impl History {
    /// A scheduler that was just made.
    pub open spec fn start(
        max_batch_size: usize,
        page_size_tokens: usize,
        max_kv_pages: usize,
    ) -> History {
        History {
            now: idle(max_batch_size, page_size_tokens, max_kv_pages),
            added: seq![],
            fetched: seq![],
        }
    }

    /// The history with one more call.
    pub open spec fn with_call(self, call: SchedulerCall) -> History {
        let s = self.now;
        match call {
            SchedulerCall::Add { id, tokens, max_tokens } => History {
                now: SchedulerView {
                    pending: s.pending.push(RequestView::fresh(id, tokens, max_tokens)),
                    ..s
                },
                added: self.added.push(id),
                ..self
            },
            SchedulerCall::Fill => History { now: s.filled().0, ..self },
            SchedulerCall::Give { id, token } => History { now: s.given(id, token).0, ..self },
            SchedulerCall::Tick => History { now: s.ticked(0, seq![]).0, ..self },
            SchedulerCall::Complete { id } => History { now: s.ended(id).0, ..self },
            SchedulerCall::Fetch => History {
                now: SchedulerView { completed: seq![], ..s },
                fetched: self.fetched + s.completed,
                ..self
            },
        }
    }

    /// The history with more calls.
    pub open spec fn after(self, calls: Seq<SchedulerCall>) -> History
        decreases calls.len(),
    {
        if calls.len() == 0 {
            self
        } else {
            self.after(calls.drop_last()).with_call(calls.last())
        }
    }

    /// A request that is added has a length that can be counted.
    pub open spec fn allows(self, call: SchedulerCall) -> bool {
        call matches SchedulerCall::Add { id, tokens, max_tokens } ==> tokens.len() + max_tokens
            <= usize::MAX
    }

    /// So do all that are added.
    pub open spec fn allows_all(self, calls: Seq<SchedulerCall>) -> bool
        decreases calls.len(),
    {
        calls.len() > 0 ==> {
            &&& self.allows_all(calls.drop_last())
            &&& self.after(calls.drop_last()).allows(calls.last())
        }
    }

    /// A request that is added has a name that no unfinished one has.
    pub open spec fn new_name(self, call: SchedulerCall) -> bool {
        call matches SchedulerCall::Add { id, tokens, max_tokens } ==> !ids_of(
            self.now.pending,
        ).contains(id) && !ids_of(self.now.running).contains(id)
    }

    /// So have all that are added.
    pub open spec fn new_names(self, calls: Seq<SchedulerCall>) -> bool
        decreases calls.len(),
    {
        calls.len() > 0 ==> {
            &&& self.new_names(calls.drop_last())
            &&& self.after(calls.drop_last()).new_name(calls.last())
        }
    }
}

/// The names of requests.
pub open spec fn ids_of(s: Seq<RequestView>) -> Seq<Seq<char>> {
    Seq::new(s.len(), |i: int| s[i].id)
}

/// The names of all requests that a scheduler has, or that were fetched from it.
pub open spec fn known_ids(h: History) -> Multiset<Seq<char>> {
    ids_of(h.now.pending).to_multiset().add(ids_of(h.now.running).to_multiset()).add(
        ids_of(h.now.completed).to_multiset(),
    ).add(ids_of(h.fetched).to_multiset())
}

/// The names of the requests in a scheduler.
spec fn held_ids(s: SchedulerView) -> Multiset<Seq<char>> {
    ids_of(s.pending).to_multiset().add(ids_of(s.running).to_multiset()).add(
        ids_of(s.completed).to_multiset(),
    )
}

proof fn lemma_ids_push(s: Seq<RequestView>, r: RequestView)
    ensures
        ids_of(s.push(r)).to_multiset() == ids_of(s).to_multiset().insert(r.id),
{
    broadcast use vstd::seq_lib::group_to_multiset_ensures;

    assert(ids_of(s.push(r)) =~= ids_of(s).push(r.id));
}

proof fn lemma_ids_remove(s: Seq<RequestView>, i: int)
    requires
        0 <= i < s.len(),
    ensures
        ids_of(s.remove(i)).to_multiset().insert(s[i].id) == ids_of(s).to_multiset(),
{
    broadcast use vstd::seq_lib::group_to_multiset_ensures;

    assert(ids_of(s.remove(i)) =~= ids_of(s).remove(i));
    assert(ids_of(s)[i] == s[i].id);
    assert(ids_of(s).contains(s[i].id));
    assert(ids_of(s).to_multiset().remove(s[i].id).insert(s[i].id) =~= ids_of(s).to_multiset());
}

proof fn lemma_ids_join(a: Seq<RequestView>, b: Seq<RequestView>)
    ensures
        ids_of(a + b).to_multiset() == ids_of(a).to_multiset().add(ids_of(b).to_multiset()),
{
    assert(ids_of(a + b) =~= ids_of(a) + ids_of(b));
    vstd::seq_lib::lemma_multiset_commutative(ids_of(a), ids_of(b));
}

/// Filling free slots keeps all requests.
proof fn lemma_fill_keeps(s: SchedulerView)
    ensures
        held_ids(s.filled().0) == held_ids(s),
{
    let slots = if s.max_batch_size >= s.running.len() {
        (s.max_batch_size - s.running.len()) as nat
    } else {
        0
    };
    lemma_start_order(s, slots, seq![]);
    let (t, batch) = s.start_pending(slots, seq![]);
    let n = batch.len() as int;
    let first = s.pending.take(n);
    assert(first + s.pending.skip(n) =~= s.pending);
    lemma_ids_join(first, s.pending.skip(n));
    lemma_ids_join(s.running, batch);
    assert forall|i: int| 0 <= i < n implies ids_of(first)[i] == ids_of(batch)[i] by {
        assert(s.pending[i].started(batch[i].kv_pages) == batch[i]);
    }
    assert(ids_of(first) =~= ids_of(batch));
    assert(held_ids(s.filled().0) =~= held_ids(s));
}

/// A running request that is taken out and completed is kept.
proof fn lemma_done_keeps(s: SchedulerView, i: int, r: RequestView)
    requires
        0 <= i < s.running.len(),
        r.id == s.running[i].id,
    ensures
        held_ids(
            SchedulerView { running: s.running.remove(i), completed: s.completed.push(r), ..s },
        ) == held_ids(s),
{
    lemma_ids_remove(s.running, i);
    lemma_ids_push(s.completed, r);
    let t = SchedulerView { running: s.running.remove(i), completed: s.completed.push(r), ..s };
    assert(held_ids(t) =~= held_ids(s));
}

/// A running request that changes keeps its name.
proof fn lemma_update_keeps(s: SchedulerView, i: int, r: RequestView)
    requires
        0 <= i < s.running.len(),
        r.id == s.running[i].id,
    ensures
        held_ids(SchedulerView { running: s.running.update(i, r), ..s }) == held_ids(s),
{
    assert(ids_of(s.running.update(i, r)) =~= ids_of(s.running));
}

/// A tick keeps all requests.
proof fn lemma_tick_keeps(s: SchedulerView, i: int, names: Seq<Seq<char>>)
    requires
        0 <= i,
    ensures
        held_ids(s.ticked(i, names).0) == held_ids(s),
    decreases s.running.len() - i,
{
    if i < s.running.len() {
        let (r, advanced) = s.running[i].advanced();
        let more = if advanced {
            names.push(r.id)
        } else {
            names
        };
        if s.running[i].state is Running && r.state is Done {
            let t = SchedulerView {
                running: s.running.remove(i),
                completed: s.completed.push(r),
                ..s
            };
            lemma_done_keeps(s, i, r);
            lemma_tick_keeps(t.released(r.id), i, more);
        } else {
            let t = SchedulerView { running: s.running.update(i, r), ..s };
            lemma_update_keeps(s, i, r);
            lemma_tick_keeps(t, i + 1, more);
        }
    }
}

/// No call loses a request or makes one up.
proof fn lemma_call_keeps(h: History, call: SchedulerCall)
    requires
        known_ids(h) == h.added.to_multiset(),
    ensures
        known_ids(h.with_call(call)) == h.with_call(call).added.to_multiset(),
{
    broadcast use vstd::seq_lib::group_to_multiset_ensures;

    let s = h.now;
    let after = h.with_call(call);
    match call {
        SchedulerCall::Add { id, tokens, max_tokens } => {
            lemma_ids_push(s.pending, RequestView::fresh(id, tokens, max_tokens));
            assert(known_ids(after) =~= known_ids(h).insert(id));
        },
        SchedulerCall::Fill => {
            lemma_fill_keeps(s);
            assert(known_ids(after) =~= known_ids(h));
        },
        SchedulerCall::Give { id, token } => {
            lemma_place(s.running, id);
            if place_of(s.running, id) is Some {
                let i = place_of(s.running, id)->0;
                let (r, grew) = s.running[i].advanced();
                let r = if grew {
                    RequestView { tokens: r.tokens.push(token), ..r }
                } else {
                    r
                };
                lemma_done_keeps(s, i, r);
                lemma_update_keeps(s, i, r);
            }
            assert(known_ids(after) =~= known_ids(h));
        },
        SchedulerCall::Tick => {
            lemma_tick_keeps(s, 0, seq![]);
            assert(known_ids(after) =~= known_ids(h));
        },
        SchedulerCall::Complete { id } => {
            lemma_place(s.running, id);
            lemma_place(s.pending, id);
            if place_of(s.running, id) is Some {
                let i = place_of(s.running, id)->0;
                lemma_done_keeps(s, i, s.running[i].finished());
            } else if place_of(s.pending, id) is Some {
                let i = place_of(s.pending, id)->0;
                lemma_ids_remove(s.pending, i);
                lemma_ids_push(s.completed, s.pending[i].finished());
            }
            assert(known_ids(after) =~= known_ids(h));
        },
        SchedulerCall::Fetch => {
            lemma_ids_join(h.fetched, s.completed);
            assert(ids_of(Seq::<RequestView>::empty()) =~= seq![]);
            assert(known_ids(after) =~= known_ids(h));
        },
    }
}

/// No request is lost: after any calls, those that wait, run, are done, and were fetched
/// are together those that were added.
pub proof fn no_request_is_lost(
    max_batch_size: usize,
    page_size_tokens: usize,
    max_kv_pages: usize,
    calls: Seq<SchedulerCall>,
)
    ensures
        ({
            let h = History::start(max_batch_size, page_size_tokens, max_kv_pages).after(calls);
            &&& known_ids(h) == h.added.to_multiset()
            &&& h.now.pending.len() + h.now.running.len() + h.now.completed.len()
                + h.fetched.len() == h.added.len()
        }),
    decreases calls.len(),
{
    broadcast use vstd::seq_lib::group_to_multiset_ensures;

    let start = History::start(max_batch_size, page_size_tokens, max_kv_pages);
    let h = start.after(calls);
    if calls.len() == 0 {
        assert(ids_of(Seq::<RequestView>::empty()) =~= seq![]);
        assert(known_ids(h) =~= h.added.to_multiset());
    } else {
        no_request_is_lost(max_batch_size, page_size_tokens, max_kv_pages, calls.drop_last());
        lemma_call_keeps(start.after(calls.drop_last()), calls.last());
    }
    let a = ids_of(h.now.pending);
    let b = ids_of(h.now.running);
    let c = ids_of(h.now.completed);
    let d = ids_of(h.fetched);
    assert(known_ids(h).len() == a.to_multiset().len() + b.to_multiset().len()
        + c.to_multiset().len() + d.to_multiset().len());
}

/// Completing a request keeps a scheduler well-formed.
proof fn lemma_done_wf(s: SchedulerView, i: int, r: RequestView)
    requires
        scheduler_wf(s),
        0 <= i < s.running.len(),
        r.state is Done,
    ensures
        scheduler_wf(
            SchedulerView { running: s.running.remove(i), completed: s.completed.push(r), ..s },
        ),
{
    let t = SchedulerView { running: s.running.remove(i), completed: s.completed.push(r), ..s };
    assert forall|j: int| 0 <= j < t.running.len() implies (#[trigger] t.running[j]).runs_well() by {
        assert(t.running[j] == s.running[if j < i {
            j
        } else {
            j + 1
        }]);
    }
    lemma_running_changed(s, t);
}

/// Every call keeps a scheduler well-formed.
proof fn lemma_call_wf(h: History, call: SchedulerCall)
    requires
        scheduler_wf(h.now),
        h.allows(call),
    ensures
        scheduler_wf(h.with_call(call).now),
{
    let s = h.now;
    let t = h.with_call(call).now;
    match call {
        SchedulerCall::Add { id, tokens, max_tokens } => {
            assert forall|i: int| 0 <= i < t.pending.len() implies (#[trigger] t.pending[i]).state
                is Pending && t.pending[i].prompt_len + t.pending[i].max_tokens <= usize::MAX by {
                if i < s.pending.len() {
                    assert(t.pending[i] == s.pending[i]);
                }
            }
        },
        SchedulerCall::Fill => {
            lemma_filled(s);
        },
        SchedulerCall::Give { id, token } => {
            lemma_place(s.running, id);
            if place_of(s.running, id) is Some {
                let i = place_of(s.running, id)->0;
                assert(s.running[i].runs_well());
                lemma_advanced(s.running[i]);
                let (r, grew) = s.running[i].advanced();
                let r = if grew {
                    RequestView { tokens: r.tokens.push(token), ..r }
                } else {
                    r
                };
                if r.state is Done {
                    lemma_done_wf(s, i, r);
                    lemma_released(
                        SchedulerView {
                            running: s.running.remove(i),
                            completed: s.completed.push(r),
                            ..s
                        },
                        r.id,
                    );
                } else {
                    lemma_running_changed(s, t);
                }
            }
        },
        SchedulerCall::Tick => {
            lemma_ticked(s, 0, seq![]);
        },
        SchedulerCall::Complete { id } => {
            lemma_place(s.running, id);
            lemma_place(s.pending, id);
            if place_of(s.running, id) is Some {
                let i = place_of(s.running, id)->0;
                let r = s.running[i].finished();
                lemma_done_wf(s, i, r);
                lemma_released(
                    SchedulerView {
                        running: s.running.remove(i),
                        completed: s.completed.push(r),
                        ..s
                    },
                    id,
                );
            } else if place_of(s.pending, id) is Some {
                let i = place_of(s.pending, id)->0;
                let u = SchedulerView {
                    pending: s.pending.remove(i),
                    completed: s.completed.push(s.pending[i].finished()),
                    ..s
                };
                assert forall|j: int| 0 <= j < u.pending.len() implies (
                #[trigger] u.pending[j]).state is Pending && u.pending[j].prompt_len
                    + u.pending[j].max_tokens <= usize::MAX by {
                    assert(u.pending[j] == s.pending[if j < i {
                        j
                    } else {
                        j + 1
                    }]);
                }
                lemma_released(u, id);
            }
        },
        SchedulerCall::Fetch => {},
    }
}

/// After any calls a scheduler is well-formed, and every request that was fetched from
/// it is done.
pub proof fn stays_well_formed(
    max_batch_size: usize,
    page_size_tokens: usize,
    max_kv_pages: usize,
    calls: Seq<SchedulerCall>,
)
    requires
        page_size_tokens >= 1,
        History::start(max_batch_size, page_size_tokens, max_kv_pages).allows_all(calls),
    ensures
        ({
            let h = History::start(max_batch_size, page_size_tokens, max_kv_pages).after(calls);
            &&& scheduler_wf(h.now)
            &&& forall|i: int| 0 <= i < h.fetched.len() ==> (#[trigger] h.fetched[i]).state is Done
        }),
    decreases calls.len(),
{
    if calls.len() > 0 {
        let start = History::start(max_batch_size, page_size_tokens, max_kv_pages);
        stays_well_formed(max_batch_size, page_size_tokens, max_kv_pages, calls.drop_last());
        lemma_call_wf(start.after(calls.drop_last()), calls.last());
    }
}

/// The pages that requests need together.
pub open spec fn pages_needed(page_size_tokens: usize, rs: Seq<RequestView>) -> nat
    decreases rs.len(),
{
    if rs.len() == 0 {
        0
    } else {
        pages_needed(page_size_tokens, rs.drop_last()) + pages_for(page_size_tokens, rs.last())
    }
}

proof fn lemma_needed_remove(size: usize, rs: Seq<RequestView>, i: int)
    requires
        0 <= i < rs.len(),
    ensures
        pages_needed(size, rs) == pages_needed(size, rs.remove(i)) + pages_for(size, rs[i]),
    decreases rs.len(),
{
    if i == rs.len() - 1 {
        assert(rs.remove(i) =~= rs.drop_last());
    } else {
        lemma_needed_remove(size, rs.drop_last(), i);
        assert(rs.remove(i).drop_last() =~= rs.drop_last().remove(i));
        assert(rs.remove(i).last() == rs.last());
    }
}

proof fn lemma_needed_update(size: usize, rs: Seq<RequestView>, i: int, r: RequestView)
    requires
        0 <= i < rs.len(),
        pages_for(size, r) == pages_for(size, rs[i]),
    ensures
        pages_needed(size, rs.update(i, r)) == pages_needed(size, rs),
{
    lemma_needed_remove(size, rs, i);
    lemma_needed_remove(size, rs.update(i, r), i);
    assert(rs.update(i, r).remove(i) =~= rs.remove(i));
}

/// The names of the requests that wait or run.
pub open spec fn unfinished_ids(s: SchedulerView) -> Multiset<Seq<char>> {
    ids_of(s.pending).to_multiset().add(ids_of(s.running).to_multiset())
}

/// No two unfinished requests share a name, every running request holds the pages that
/// it needs, and no other pages are in use.
pub open spec fn pages_match(s: SchedulerView) -> bool {
    &&& forall|id: Seq<char>| #[trigger] unfinished_ids(s).count(id) <= 1
    &&& forall|i: int|
        0 <= i < s.running.len() ==> {
            let r = #[trigger] s.running[i];
            &&& s.kv_pages.contains_key(r.id)
            &&& s.kv_pages[r.id].page_ids == r.kv_pages
            &&& r.kv_pages.len() == s.needed(r)
        }
    &&& forall|k: Seq<char>| #[trigger]
        s.kv_pages.contains_key(k) ==> ids_of(s.running).contains(k)
    &&& s.used() == pages_needed(s.page_size_tokens, s.running)
}

proof fn lemma_counted_once(s: SchedulerView)
    requires
        forall|id: Seq<char>| #[trigger] unfinished_ids(s).count(id) <= 1,
    ensures
        forall|i: int, j: int|
            0 <= i < s.running.len() && 0 <= j < s.running.len() && i != j ==> (
            #[trigger] s.running[i]).id != (#[trigger] s.running[j]).id,
        forall|i: int, j: int|
            0 <= i < s.pending.len() && 0 <= j < s.running.len() ==> (
            #[trigger] s.pending[i]).id != (#[trigger] s.running[j]).id,
{
    broadcast use vstd::seq_lib::group_to_multiset_ensures;

    assert forall|i: int, j: int|
        0 <= i < s.running.len() && 0 <= j < s.running.len() && i != j implies (
    #[trigger] s.running[i]).id != (#[trigger] s.running[j]).id by {
        if s.running[i].id == s.running[j].id {
            let id = s.running[i].id;
            lemma_ids_remove(s.running, i);
            let rest = s.running.remove(i);
            let k = if j < i {
                j
            } else {
                j - 1
            };
            assert(ids_of(rest)[k] == id);
            assert(ids_of(rest).contains(id));
            assert(unfinished_ids(s).count(id) >= 2);
        }
    }
    assert forall|i: int, j: int|
        0 <= i < s.pending.len() && 0 <= j < s.running.len() implies (
    #[trigger] s.pending[i]).id != (#[trigger] s.running[j]).id by {
        if s.pending[i].id == s.running[j].id {
            let id = s.pending[i].id;
            assert(ids_of(s.pending)[i] == id);
            assert(ids_of(s.running)[j] == id);
            assert(ids_of(s.pending).contains(id));
            assert(ids_of(s.running).contains(id));
            assert(unfinished_ids(s).count(id) >= 2);
        }
    }
}

/// A running request that is done leaves with its pages.
proof fn lemma_leaves(s: SchedulerView, i: int, r: RequestView)
    requires
        scheduler_wf(s),
        pages_match(s),
        0 <= i < s.running.len(),
        r.id == s.running[i].id,
    ensures
        pages_match(
            (SchedulerView {
                running: s.running.remove(i),
                completed: s.completed.push(r),
                ..s
            }).released(r.id),
        ),
{
    let t = (SchedulerView {
        running: s.running.remove(i),
        completed: s.completed.push(r),
        ..s
    }).released(r.id);
    lemma_counted_once(s);
    lemma_ids_remove(s.running, i);
    lemma_needed_remove(s.page_size_tokens, s.running, i);
    completed_holds_no_pages(s, r.id);
    assert(s.running[i].kv_pages.len() == s.needed(s.running[i]));
    assert(t.used() == s.released(r.id).used());
    assert forall|id: Seq<char>| #[trigger] unfinished_ids(t).count(id) <= 1 by {
        assert(unfinished_ids(s).count(id) <= 1);
        assert(ids_of(s.running).to_multiset().count(id) >= ids_of(
            t.running,
        ).to_multiset().count(id));
    }
    assert forall|j: int| 0 <= j < t.running.len() implies ({
        let q = #[trigger] t.running[j];
        &&& t.kv_pages.contains_key(q.id)
        &&& t.kv_pages[q.id].page_ids == q.kv_pages
        &&& q.kv_pages.len() == t.needed(q)
    }) by {
        let k = if j < i {
            j
        } else {
            j + 1
        };
        assert(t.running[j] == s.running[k]);
        assert(s.running[k].id != s.running[i].id);
    }
    assert forall|k: Seq<char>| #[trigger] t.kv_pages.contains_key(k) implies ids_of(
        t.running,
    ).contains(k) by {
        assert(ids_of(s.running).contains(k));
        let j = ids_of(s.running).index_of(k);
        assert(s.running[j].id == k);
        assert(j != i);
        assert(ids_of(t.running)[if j < i {
            j
        } else {
            j - 1
        }] == k);
    }
}

/// A running request that goes on keeps its pages.
proof fn lemma_goes_on(s: SchedulerView, i: int, r: RequestView)
    requires
        pages_match(s),
        0 <= i < s.running.len(),
        r.id == s.running[i].id,
        r.prompt_len == s.running[i].prompt_len,
        r.max_tokens == s.running[i].max_tokens,
        r.kv_pages == s.running[i].kv_pages,
    ensures
        pages_match(SchedulerView { running: s.running.update(i, r), ..s }),
{
    let t = SchedulerView { running: s.running.update(i, r), ..s };
    lemma_needed_update(s.page_size_tokens, s.running, i, r);
    assert(ids_of(t.running) =~= ids_of(s.running));
    assert(unfinished_ids(t) == unfinished_ids(s));
    assert(t.used() == s.used());
    assert forall|j: int| 0 <= j < t.running.len() implies ({
        let q = #[trigger] t.running[j];
        &&& t.kv_pages.contains_key(q.id)
        &&& t.kv_pages[q.id].page_ids == q.kv_pages
        &&& q.kv_pages.len() == t.needed(q)
    }) by {
        assert(s.running[j].kv_pages.len() == s.needed(s.running[j]));
    }
}

/// Pages that go to a name without any are added to those in use.
proof fn lemma_allocate_adds(s: SchedulerView, r: RequestView)
    requires
        scheduler_wf(s),
        s.allocate(r) is Some,
        !s.kv_pages.contains_key(r.id),
    ensures
        (s.allocate(r)->0).0.used() == s.used() + s.needed(r),
{
    let (t, a) = s.allocate(r)->0;
    assert(t.holders.drop_last() =~= s.holders);
    assert forall|j: int| 0 <= j < s.holders.len() implies s.kv_pages[#[trigger] s.holders[j]]
        == t.kv_pages[s.holders[j]] by {
        assert(s.holders.contains(s.holders[j]));
    }
    lemma_pages_same(s.holders, s.kv_pages, t.kv_pages);
}

/// The scheduler once a batch runs.
spec fn joined(s: SchedulerView, batch: Seq<RequestView>) -> SchedulerView {
    SchedulerView { running: s.running + batch, ..s }
}

/// The first that waits runs with the pages that it needs.
proof fn lemma_starts(s: SchedulerView, batch: Seq<RequestView>)
    requires
        scheduler_wf(s),
        pages_match(joined(s, batch)),
        s.pending.len() > 0,
        s.allocate(s.pending[0]) is Some,
    ensures
        ({
            let (t, a) = s.allocate(s.pending[0])->0;
            let u = SchedulerView { pending: t.pending.skip(1), ..t };
            &&& scheduler_wf(u)
            &&& pages_match(joined(u, batch.push(s.pending[0].started(a.page_ids))))
        }),
{
    let r = s.pending[0];
    let (t, a) = s.allocate(r)->0;
    let u = SchedulerView { pending: t.pending.skip(1), ..t };
    let q = r.started(a.page_ids);
    let before = joined(s, batch);
    let after = joined(u, batch.push(q));
    lemma_counted_once(before);
    assert(before.pending[0] == r);
    if s.kv_pages.contains_key(r.id) {
        assert(before.kv_pages.contains_key(r.id));
        let j = ids_of(before.running).index_of(r.id);
        assert(before.running[j].id == r.id);
        assert(false);
    }
    lemma_allocate(s, r);
    lemma_allocate_adds(s, r);
    assert forall|i: int| 0 <= i < u.pending.len() implies (#[trigger] u.pending[i]).state
        is Pending && u.pending[i].prompt_len + u.pending[i].max_tokens <= usize::MAX by {
        assert(u.pending[i] == s.pending[i + 1]);
    }
    assert(after.running =~= before.running.push(q));
    assert(before.running.push(q).drop_last() =~= before.running);
    assert(after.used() == t.used());
    assert(before.used() == s.used());
    lemma_ids_push(before.running, q);
    lemma_ids_remove(s.pending, 0);
    assert(s.pending.remove(0) =~= u.pending);
    assert(unfinished_ids(after) =~= unfinished_ids(before));
    assert forall|i: int| 0 <= i < after.running.len() implies ({
        let x = #[trigger] after.running[i];
        &&& after.kv_pages.contains_key(x.id)
        &&& after.kv_pages[x.id].page_ids == x.kv_pages
        &&& x.kv_pages.len() == after.needed(x)
    }) by {
        if i < before.running.len() {
            assert(after.running[i] == before.running[i]);
            assert(before.running[i].id != r.id);
        }
    }
    assert forall|k: Seq<char>| #[trigger] after.kv_pages.contains_key(k) implies ids_of(
        after.running,
    ).contains(k) by {
        if k == r.id {
            assert(ids_of(after.running)[before.running.len() as int] == k);
        } else {
            assert(before.kv_pages.contains_key(k));
            let j = ids_of(before.running).index_of(k);
            assert(ids_of(after.running)[j] == k);
        }
    }
}

proof fn lemma_fill_matches(s: SchedulerView, slots: nat, batch: Seq<RequestView>)
    requires
        scheduler_wf(s),
        pages_match(joined(s, batch)),
    ensures
        ({
            let (t, all) = s.start_pending(slots, batch);
            pages_match(joined(t, all))
        }),
    decreases slots,
{
    if slots > 0 && s.pending.len() > 0 && s.allocate(s.pending[0]) is Some {
        let (t, a) = s.allocate(s.pending[0])->0;
        lemma_starts(s, batch);
        lemma_fill_matches(
            SchedulerView { pending: t.pending.skip(1), ..t },
            (slots - 1) as nat,
            batch.push(s.pending[0].started(a.page_ids)),
        );
    }
}

proof fn lemma_tick_matches(s: SchedulerView, i: int, names: Seq<Seq<char>>)
    requires
        scheduler_wf(s),
        pages_match(s),
        0 <= i,
    ensures
        pages_match(s.ticked(i, names).0),
    decreases s.running.len() - i,
{
    if i < s.running.len() {
        assert(s.running[i].runs_well());
        lemma_advanced(s.running[i]);
        let (r, advanced) = s.running[i].advanced();
        let more = if advanced {
            names.push(r.id)
        } else {
            names
        };
        if r.state is Done {
            let t = SchedulerView {
                running: s.running.remove(i),
                completed: s.completed.push(r),
                ..s
            };
            lemma_done_wf(s, i, r);
            lemma_released(t, r.id);
            lemma_leaves(s, i, r);
            lemma_tick_matches(t.released(r.id), i, more);
        } else {
            let t = SchedulerView { running: s.running.update(i, r), ..s };
            lemma_running_changed(s, t);
            lemma_goes_on(s, i, r);
            lemma_tick_matches(t, i + 1, more);
        }
    }
}

proof fn lemma_call_matches(h: History, call: SchedulerCall)
    requires
        scheduler_wf(h.now),
        pages_match(h.now),
        h.new_name(call),
    ensures
        pages_match(h.with_call(call).now),
{
    broadcast use vstd::seq_lib::group_to_multiset_ensures;

    let s = h.now;
    let t = h.with_call(call).now;
    match call {
        SchedulerCall::Add { id, tokens, max_tokens } => {
            lemma_ids_push(s.pending, RequestView::fresh(id, tokens, max_tokens));
            assert forall|k: Seq<char>| #[trigger] unfinished_ids(t).count(k) <= 1 by {
                assert(unfinished_ids(s).count(k) <= 1);
            }
            assert(t.used() == s.used());
        },
        SchedulerCall::Fill => {
            let slots = (s.max_batch_size - s.running.len()) as nat;
            assert(joined(s, seq![]).running =~= s.running);
            assert(joined(s, seq![]) == s);
            lemma_fill_matches(s, slots, seq![]);
            lemma_start_order(s, slots, seq![]);
            let (u, batch) = s.start_pending(slots, seq![]);
            assert(joined(u, batch) == t);
        },
        SchedulerCall::Give { id, token } => {
            lemma_place(s.running, id);
            if place_of(s.running, id) is Some {
                let i = place_of(s.running, id)->0;
                let (r, grew) = s.running[i].advanced();
                let r = if grew {
                    RequestView { tokens: r.tokens.push(token), ..r }
                } else {
                    r
                };
                if r.state is Done {
                    lemma_leaves(s, i, r);
                } else {
                    lemma_goes_on(s, i, r);
                }
            }
        },
        SchedulerCall::Tick => {
            lemma_tick_matches(s, 0, seq![]);
        },
        SchedulerCall::Complete { id } => {
            lemma_place(s.running, id);
            lemma_place(s.pending, id);
            if place_of(s.running, id) is Some {
                let i = place_of(s.running, id)->0;
                lemma_leaves(s, i, s.running[i].finished());
            } else if place_of(s.pending, id) is Some {
                let i = place_of(s.pending, id)->0;
                lemma_ids_remove(s.pending, i);
                if s.kv_pages.contains_key(id) {
                    let j = ids_of(s.running).index_of(id);
                    assert(s.running[j].id == id);
                    assert(false);
                }
                assert(t.kv_pages =~= s.kv_pages);
                assert(t.used() == s.used());
                assert forall|k: Seq<char>| #[trigger] unfinished_ids(t).count(k) <= 1 by {
                    assert(unfinished_ids(s).count(k) <= 1);
                    assert(ids_of(s.pending).to_multiset().count(k) >= ids_of(
                        t.pending,
                    ).to_multiset().count(k));
                }
            }
        },
        SchedulerCall::Fetch => {
            assert(t.used() == s.used());
            assert(unfinished_ids(t) == unfinished_ids(s));
        },
    }
}

/// The pages in use are those of the running requests, after any calls that add no
/// request under the name of an unfinished one: each running request holds as many as it
/// needs, and those that wait or are done hold none.
pub proof fn running_requests_hold_the_pages(
    max_batch_size: usize,
    page_size_tokens: usize,
    max_kv_pages: usize,
    calls: Seq<SchedulerCall>,
)
    requires
        page_size_tokens >= 1,
        History::start(max_batch_size, page_size_tokens, max_kv_pages).allows_all(calls),
        History::start(max_batch_size, page_size_tokens, max_kv_pages).new_names(calls),
    ensures
        ({
            let s = History::start(max_batch_size, page_size_tokens, max_kv_pages).after(
                calls,
            ).now;
            &&& pages_match(s)
            &&& s.used() == pages_needed(s.page_size_tokens, s.running) <= s.max_kv_pages
        }),
    decreases calls.len(),
{
    broadcast use vstd::seq_lib::group_to_multiset_ensures;

    let start = History::start(max_batch_size, page_size_tokens, max_kv_pages);
    stays_well_formed(max_batch_size, page_size_tokens, max_kv_pages, calls);
    if calls.len() > 0 {
        let init = calls.drop_last();
        running_requests_hold_the_pages(max_batch_size, page_size_tokens, max_kv_pages, init);
        stays_well_formed(max_batch_size, page_size_tokens, max_kv_pages, init);
        lemma_call_matches(start.after(init), calls.last());
    } else {
        let s = start.now;
        assert forall|id: Seq<char>| #[trigger] unfinished_ids(s).count(id) <= 1 by {
            assert(ids_of(s.pending) =~= seq![]);
            assert(ids_of(s.running) =~= seq![]);
        }
    }
}

} // verus!
