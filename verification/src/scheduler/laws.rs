//! Laws of the scheduler.

use crate::scheduler::model::{
    decode_items, first_named, lemma_place, none_named, pages_for, scheduler_wf, SchedulerView,
};
use crate::scheduler::request::{RequestState, RequestView};
use vstd::prelude::*;

verus! {

pub proof fn lemma_start_order(s: SchedulerView, slots: nat, batch: Seq<RequestView>)
    ensures
        ({
            let (t, all) = s.start_pending(slots, batch);
            let n = all.len() - batch.len();
            &&& 0 <= n <= s.pending.len()
            &&& n <= slots
            &&& t.pending == s.pending.skip(n)
            &&& all.take(batch.len() as int) == batch
            &&& forall|i: int|
                0 <= i < n ==> (#[trigger] s.pending[i]).started(all[batch.len() + i].kv_pages)
                    == all[batch.len() + i]
            &&& n == slots || t.pending.len() == 0 || t.allocate(t.pending[0]) is None
            &&& t == (SchedulerView {
                pending: t.pending,
                next_page_id: t.next_page_id,
                kv_pages: t.kv_pages,
                holders: t.holders,
                ..s
            })
        }),
    decreases slots,
{
    if slots == 0 || s.pending.len() == 0 || s.allocate(s.pending[0]) is None {
        assert(s.pending.skip(0) =~= s.pending);
        assert(batch.take(batch.len() as int) =~= batch);
    } else {
        let (a, pages) = s.allocate(s.pending[0])->0;
        let u = SchedulerView { pending: a.pending.skip(1), ..a };
        let first = s.pending[0].started(pages.page_ids);
        let more = batch.push(first);
        lemma_start_order(u, (slots - 1) as nat, more);
        let (t, all) = s.start_pending(slots, batch);
        let n = all.len() - batch.len();
        assert(u.pending.skip(n - 1) =~= s.pending.skip(n));
        assert(all.take(batch.len() as int) =~= all.take(more.len() as int).take(
            batch.len() as int,
        ));
        assert(more.take(batch.len() as int) =~= batch);
        assert forall|i: int| 0 <= i < n implies (#[trigger] s.pending[i]).started(
            all[batch.len() + i].kv_pages,
        ) == all[batch.len() + i] by {
            if i == 0 {
                assert(all[batch.len() as int] == all.take(more.len() as int)[batch.len() as int]);
                assert(all[batch.len() as int] == first);
            } else {
                assert(u.pending[i - 1] == s.pending[i]);
            }
        }
    }
}

/// Requests are started in the order in which they came in: those that are started
/// are the first that waited, and the others wait on in their order.
pub proof fn oldest_start_first(s: SchedulerView)
    requires
        scheduler_wf(s),
    ensures
        ({
            let (t, batch) = s.filled();
            &&& batch.len() <= s.pending.len()
            &&& t.pending == s.pending.skip(batch.len() as int)
            &&& t.running == s.running + batch
            &&& t.completed == s.completed
            &&& forall|i: int|
                0 <= i < batch.len() ==> (#[trigger] s.pending[i]).started(batch[i].kv_pages)
                    == batch[i]
        }),
{
    let slots = (s.max_batch_size - s.running.len()) as nat;
    lemma_start_order(s, slots, seq![]);
}

/// No slot stays free while a request waits, unless the first that waits can get no
/// pages.
pub proof fn free_slots_are_filled(s: SchedulerView)
    requires
        scheduler_wf(s),
    ensures
        ({
            let t = s.filled().0;
            t.running.len() == t.max_batch_size || t.pending.len() == 0 || t.allocate(
                t.pending[0],
            ) is None
        }),
{
    let slots = (s.max_batch_size - s.running.len()) as nat;
    lemma_start_order(s, slots, seq![]);
    let (u, batch) = s.start_pending(slots, seq![]);
    let t = s.filled().0;
    if t.pending.len() > 0 {
        assert(t.allocate(t.pending[0]) is None <==> u.allocate(u.pending[0]) is None);
    }
}

/// A tick loses no request: those that stop running are completed.
pub proof fn tick_keeps_requests(s: SchedulerView, i: int, names: Seq<Seq<char>>)
    requires
        0 <= i,
    ensures
        ({
            let t = s.ticked(i, names).0;
            &&& t.pending == s.pending
            &&& t.running.len() + t.completed.len() == s.running.len() + s.completed.len()
        }),
    decreases s.running.len() - i,
{
    if i < s.running.len() {
        let (r, advanced) = s.running[i].advanced();
        let more = if advanced {
            names.push(r.id)
        } else {
            names
        };
        if s.running[i].state is Running && r.state is Done {
            let t = SchedulerView {
                running: s.running.remove(i),
                completed: s.completed.push(r),
                ..s
            };
            tick_keeps_requests(t.released(r.id), i, more);
        } else {
            let t = SchedulerView { running: s.running.update(i, r), ..s };
            tick_keeps_requests(t, i + 1, more);
        }
    }
}

/// Pages that a request gets were never in use before.
pub proof fn pages_are_new(s: SchedulerView, r: RequestView, k: Seq<char>, i: int, j: int)
    requires
        scheduler_wf(s),
        s.allocate(r) is Some,
        s.kv_pages.contains_key(k),
        0 <= i < s.kv_pages[k].page_ids.len(),
        0 <= j < (s.allocate(r)->0).1.page_ids.len(),
    ensures
        s.kv_pages[k].page_ids[i] < (s.allocate(r)->0).1.page_ids[j],
{
    assert(s.kv_pages[k].page_ids[i] < s.next_page_id);
}

/// A request that is completed holds no pages.
pub proof fn completed_holds_no_pages(s: SchedulerView, id: Seq<char>)
    requires
        scheduler_wf(s),
    ensures
        !s.released(id).kv_pages.contains_key(id),
        s.kv_pages.contains_key(id) ==> s.released(id).used() + s.kv_pages[id].page_ids.len()
            == s.used(),
{
    if s.kv_pages.contains_key(id) {
        assert(s.holders.contains(id));
        let i = s.holders.index_of(id);
        crate::scheduler::model::lemma_pages_remove(s.holders, s.kv_pages, i);
        let t = s.released(id);
        assert forall|j: int| 0 <= j < t.holders.len() implies s.kv_pages[#[trigger] t.holders[j]]
            == t.kv_pages[t.holders[j]] by {
            let q = if j < i {
                j
            } else {
                j + 1
            };
            assert(t.holders[j] == s.holders[q]);
            assert(s.holders[q] != s.holders[i]);
        }
        crate::scheduler::model::lemma_pages_same(t.holders, s.kv_pages, t.kv_pages);
    }
}

/// A request after a number of tokens.
pub open spec fn after(r: RequestView, n: nat) -> RequestView
    decreases n,
{
    if n == 0 {
        r
    } else {
        after(r, (n - 1) as nat).advanced().0
    }
}

/// A request that has come in waits with the tokens of its prompt and without pages.
pub proof fn new_requests_wait(id: Seq<char>, tokens: Seq<u32>, max_tokens: usize)
    requires
        tokens.len() <= usize::MAX,
    ensures
        ({
            let r = RequestView::fresh(id, tokens, max_tokens);
            &&& r.id == id
            &&& r.tokens == tokens
            &&& r.state is Pending
            &&& r.prompt_len == tokens.len()
            &&& r.max_tokens == max_tokens
            &&& r.kv_pages.len() == 0
            &&& r.generated() == 0
            &&& r.at() == tokens.len()
        }),
{
}

/// A request that is started generates as many tokens as it may, not one less and not
/// one more, and moves on by one place for each.
pub proof fn requests_generate_all_tokens(r: RequestView, kv_pages: Seq<u64>, n: nat)
    requires
        r.prompt_len + r.max_tokens <= usize::MAX,
        n <= r.max_tokens,
    ensures
        ({
            let s = after(r.started(kv_pages), n);
            &&& s.id == r.id
            &&& s.tokens == r.tokens
            &&& s.prompt_len == r.prompt_len
            &&& s.max_tokens == r.max_tokens
            &&& s.kv_pages == kv_pages
            &&& n < r.max_tokens || n == 0 ==> s.state == (RequestState::Running {
                generated: n as usize,
                max_tokens: r.max_tokens,
                position: (r.prompt_len + n) as usize,
            })
            &&& n < r.max_tokens || n == 0 ==> s.generated() == n && s.at() == r.prompt_len + n
            &&& n == r.max_tokens && n > 0 ==> s.state is Done
            &&& n < r.max_tokens ==> s.advanced().1
            &&& n == r.max_tokens ==> !s.advanced().1 && s.advanced().0.state is Done
        }),
    decreases n,
{
    if n > 0 {
        requests_generate_all_tokens(r, kv_pages, (n - 1) as nat);
    }
}

/// A request that waits or is done does not move on.
pub proof fn only_running_requests_move_on(r: RequestView)
    requires
        !(r.state is Running),
    ensures
        r.advanced() == (r, false),
        r.at() == r.tokens.len(),
        r.state is Pending ==> r.generated() == 0,
        r.state is Done && r.tokens.len() >= r.prompt_len ==> r.generated() + r.prompt_len
            == r.tokens.len(),
{
}

/// The pages that a request gets hold its prompt and all tokens that it may generate,
/// and no page is given too much.
pub proof fn pages_hold_all_tokens(page_size: usize, r: RequestView)
    requires
        page_size >= 1,
    ensures
        pages_for(page_size, r) >= 1,
        pages_for(page_size, r) * page_size >= r.prompt_len + r.max_tokens,
        pages_for(page_size, r) > 1 ==> (pages_for(page_size, r) - 1) * page_size < r.prompt_len
            + r.max_tokens,
{
    let n = (r.prompt_len + r.max_tokens) as int;
    let b = page_size as int;
    let k = pages_for(page_size, r) as int;
    assert((n + b - 1) / b * b >= n && ((n + b - 1) / b - 1) * b < n) by (nonlinear_arith)
        requires
            b >= 1,
            n >= 0,
    ;
    assert(k * b >= n) by (nonlinear_arith)
        requires
            (n + b - 1) / b * b >= n,
            k >= (n + b - 1) / b,
            b >= 1,
    ;
    if k > 1 {
        assert(k == (n + b - 1) / b);
    }
}

/// Pages are given out unless that would take more than there are, or more numbers than
/// there are. They are numbered one behind the other, and all else stays.
pub proof fn free_pages_are_given(s: SchedulerView, r: RequestView)
    requires
        scheduler_wf(s),
    ensures
        s.allocate(r) is Some <==> s.used() + pages_for(s.page_size_tokens, r) <= s.max_kv_pages
            && s.next_page_id + pages_for(s.page_size_tokens, r) <= u64::MAX,
        s.allocate(r) matches Some((t, a)) ==> {
            &&& a.request_id == r.id
            &&& a.page_ids.len() == pages_for(s.page_size_tokens, r)
            &&& forall|i: int|
                0 <= i < a.page_ids.len() ==> #[trigger] a.page_ids[i] == s.next_page_id + i
            &&& a.page_size_tokens == s.page_size_tokens
            &&& r.prompt_len + r.max_tokens <= usize::MAX ==> a.capacity_tokens == r.prompt_len
                + r.max_tokens
            &&& t.next_page_id == s.next_page_id + a.page_ids.len()
            &&& t.kv_pages == s.kv_pages.insert(r.id, a)
            &&& t.pending == s.pending
            &&& t.running == s.running
            &&& t.completed == s.completed
            &&& t.max_batch_size == s.max_batch_size
            &&& t.max_kv_pages == s.max_kv_pages
            &&& t.page_size_tokens == s.page_size_tokens
        },
{
}

/// What is given up under a name leaves all other names and requests as they are.
pub proof fn other_pages_stay(s: SchedulerView, id: Seq<char>, k: Seq<char>)
    requires
        k != id,
    ensures
        ({
            let t = s.released(id);
            &&& t.kv_pages.contains_key(k) <==> s.kv_pages.contains_key(k)
            &&& t.kv_pages[k] == s.kv_pages[k]
            &&& t.next_page_id == s.next_page_id
            &&& t.pending == s.pending
            &&& t.running == s.running
            &&& t.completed == s.completed
        }),
{
}

/// A token that is given to a running request is its last one from then on. The request
/// goes on running in its place, or is completed where that was the last token that it
/// may have; it gives up its pages then and only then. No other request is touched.
pub proof fn given_tokens_are_kept(s: SchedulerView, i: int, token: u32)
    requires
        scheduler_wf(s),
        0 <= i < s.running.len(),
        s.running[i].max_tokens > 0,
        none_named(s.running.take(i), s.running[i].id),
    ensures
        ({
            let r = s.running[i];
            let (t, found) = s.given(r.id, token);
            &&& found
            &&& t.pending == s.pending
            &&& r.generated() + 1 < r.max_tokens ==> {
                &&& t.running.len() == s.running.len()
                &&& t.running[i].id == r.id
                &&& t.running[i].tokens == r.tokens.push(token)
                &&& t.running[i].generated() == r.generated() + 1
                &&& t.running[i].at() == r.at() + 1
                &&& t.running[i].kv_pages == r.kv_pages
                &&& t.kv_pages == s.kv_pages
                &&& t.completed == s.completed
                &&& forall|j: int|
                    0 <= j < s.running.len() && j != i ==> #[trigger] t.running[j] == s.running[j]
            }
            &&& r.generated() + 1 == r.max_tokens ==> {
                &&& t.running == s.running.remove(i)
                &&& t.completed.len() == s.completed.len() + 1
                &&& t.completed.drop_last() == s.completed
                &&& t.completed.last().id == r.id
                &&& t.completed.last().tokens == r.tokens.push(token)
                &&& t.completed.last().state is Done
                &&& t.kv_pages == s.kv_pages.remove(r.id)
            }
        }),
{
    let r = s.running[i];
    assert(r.runs_well());
    lemma_place(s.running, r.id);
    assert forall|j: int| 0 <= j < i implies (#[trigger] s.running[j]).id != r.id by {
        assert(s.running.take(i)[j] == s.running[j]);
    }
    assert(first_named(s.running, r.id, i));
    let t = s.given(r.id, token).0;
    if r.generated() + 1 == r.max_tokens {
        assert(t.completed.drop_last() =~= s.completed);
    }
}

/// A token for a name that no running request has changes nothing.
pub proof fn unknown_names_get_no_tokens(s: SchedulerView, id: Seq<char>, token: u32)
    requires
        none_named(s.running, id),
    ensures
        s.given(id, token) == (s, false),
{
    lemma_place(s.running, id);
}

/// A running request that is ended is completed with the tokens that it has, and holds no
/// pages.
pub proof fn running_requests_are_ended(s: SchedulerView, i: int)
    requires
        0 <= i < s.running.len(),
        none_named(s.running.take(i), s.running[i].id),
    ensures
        ({
            let r = s.running[i];
            let (t, found) = s.ended(r.id);
            &&& found
            &&& t.pending == s.pending
            &&& t.running == s.running.remove(i)
            &&& t.completed.len() == s.completed.len() + 1
            &&& t.completed.drop_last() == s.completed
            &&& t.completed.last().id == r.id
            &&& t.completed.last().tokens == r.tokens
            &&& t.completed.last().prompt_len == r.prompt_len
            &&& t.completed.last().state is Done
            &&& t.kv_pages == s.kv_pages.remove(r.id)
        }),
{
    let r = s.running[i];
    lemma_place(s.running, r.id);
    assert forall|j: int| 0 <= j < i implies (#[trigger] s.running[j]).id != r.id by {
        assert(s.running.take(i)[j] == s.running[j]);
    }
    assert(first_named(s.running, r.id, i));
    assert(s.ended(r.id).0.completed.drop_last() =~= s.completed);
}

/// A request that waits can be ended too, where no running one has its name.
pub proof fn waiting_requests_are_ended(s: SchedulerView, i: int)
    requires
        0 <= i < s.pending.len(),
        none_named(s.running, s.pending[i].id),
        none_named(s.pending.take(i), s.pending[i].id),
    ensures
        ({
            let r = s.pending[i];
            let (t, found) = s.ended(r.id);
            &&& found
            &&& t.pending == s.pending.remove(i)
            &&& t.running == s.running
            &&& t.completed.len() == s.completed.len() + 1
            &&& t.completed.drop_last() == s.completed
            &&& t.completed.last().id == r.id
            &&& t.completed.last().tokens == r.tokens
            &&& t.completed.last().state is Done
            &&& t.kv_pages == s.kv_pages.remove(r.id)
        }),
{
    let r = s.pending[i];
    lemma_place(s.running, r.id);
    lemma_place(s.pending, r.id);
    assert forall|j: int| 0 <= j < i implies (#[trigger] s.pending[j]).id != r.id by {
        assert(s.pending.take(i)[j] == s.pending[j]);
    }
    assert(first_named(s.pending, r.id, i));
    assert(s.ended(r.id).0.completed.drop_last() =~= s.completed);
}

/// A name that no request has ends nothing.
pub proof fn unknown_names_end_nothing(s: SchedulerView, id: Seq<char>)
    requires
        none_named(s.running, id),
        none_named(s.pending, id),
    ensures
        s.ended(id) == (s, false),
{
    lemma_place(s.running, id);
    lemma_place(s.pending, id);
}

/// Every running request is decoded from its last token, at the place behind its prompt
/// and the tokens that it has generated, with the pages that it holds.
pub proof fn all_running_are_decoded(s: SchedulerView, i: int)
    requires
        scheduler_wf(s),
        0 <= i < s.running.len(),
    ensures
        ({
            let r = s.running[i];
            let d = decode_items(s.running);
            &&& d.len() == s.running.len()
            &&& d[i].id == r.id
            &&& r.tokens.len() > 0 ==> d[i].token == r.tokens[r.tokens.len() - 1]
            &&& r.tokens.len() == 0 ==> d[i].token == 0
            &&& d[i].position == r.prompt_len + r.state->generated
            &&& d[i].generated == r.state->generated
            &&& d[i].prompt_len == r.prompt_len
            &&& d[i].kv_pages == r.kv_pages
        }),
{
    assert(s.running[i].runs_well());
}

/// The requests that still run after a tick: those with more than one token to come, each
/// one token and one place further.
pub open spec fn still_running(v: Seq<RequestView>) -> Seq<RequestView>
    decreases v.len(),
{
    if v.len() == 0 {
        v
    } else {
        let rest = still_running(v.skip(1));
        match v[0].state {
            RequestState::Running { generated, max_tokens, position } => if generated + 1
                < max_tokens {
                seq![
                    RequestView {
                        state: RequestState::Running {
                            generated: (generated + 1) as usize,
                            max_tokens,
                            position: (position + 1) as usize,
                        },
                        ..v[0]
                    },
                ] + rest
            } else {
                rest
            },
            _ => rest,
        }
    }
}

/// The requests that a tick completes: those with one token to come or none.
pub open spec fn just_done(v: Seq<RequestView>) -> Seq<RequestView>
    decreases v.len(),
{
    if v.len() == 0 {
        v
    } else {
        let rest = just_done(v.skip(1));
        match v[0].state {
            RequestState::Running { generated, max_tokens, .. } => if generated + 1 < max_tokens {
                rest
            } else {
                seq![RequestView { state: RequestState::Done, ..v[0] }] + rest
            },
            _ => rest,
        }
    }
}

/// The names of the requests with a token to come.
pub open spec fn with_tokens_to_come(v: Seq<RequestView>) -> Seq<Seq<char>>
    decreases v.len(),
{
    if v.len() == 0 {
        seq![]
    } else {
        let rest = with_tokens_to_come(v.skip(1));
        match v[0].state {
            RequestState::Running { generated, max_tokens, .. } => if generated < max_tokens {
                seq![v[0].id] + rest
            } else {
                rest
            },
            _ => rest,
        }
    }
}

proof fn lemma_ticked(s: SchedulerView, i: int, names: Seq<Seq<char>>)
    requires
        0 <= i <= s.running.len(),
        forall|j: int| i <= j < s.running.len() ==> (#[trigger] s.running[j]).state is Running,
    ensures
        ({
            let (t, all) = s.ticked(i, names);
            let rest = s.running.skip(i);
            &&& t.running == s.running.take(i) + still_running(rest)
            &&& t.completed == s.completed + just_done(rest)
            &&& all == names + with_tokens_to_come(rest)
        }),
    decreases s.running.len() - i,
{
    let rest = s.running.skip(i);
    if i < s.running.len() {
        let (r, advanced) = s.running[i].advanced();
        let more = if advanced {
            names.push(r.id)
        } else {
            names
        };
        assert(rest[0] == s.running[i]);
        assert(rest.skip(1) =~= s.running.skip(i + 1));
        if r.state is Done {
            let u = (SchedulerView {
                running: s.running.remove(i),
                completed: s.completed.push(r),
                ..s
            }).released(r.id);
            lemma_ticked(u, i, more);
            assert(u.running.skip(i) =~= rest.skip(1));
            assert(u.running.take(i) =~= s.running.take(i));
        } else {
            let u = SchedulerView { running: s.running.update(i, r), ..s };
            lemma_ticked(u, i + 1, more);
            assert(u.running.skip(i + 1) =~= rest.skip(1));
            assert(u.running.take(i + 1) =~= s.running.take(i) + seq![r]);
        }
        let (t, all) = s.ticked(i, names);
        assert(t.running =~= s.running.take(i) + still_running(rest));
        assert(t.completed =~= s.completed + just_done(rest));
        assert(all =~= names + with_tokens_to_come(rest));
    } else {
        assert(rest =~= seq![]);
        assert(s.running.take(i) =~= s.running);
        assert(s.running.take(i) + still_running(rest) =~= s.running);
        assert(s.completed + just_done(rest) =~= s.completed);
        assert(names + with_tokens_to_come(rest) =~= names);
    }
}

/// A tick names the requests with a token to come, lets those with more than one go on in
/// their order, and completes the others behind what was completed before.
pub proof fn ticks_move_all_on(s: SchedulerView)
    requires
        scheduler_wf(s),
    ensures
        ({
            let (t, names) = s.ticked(0, seq![]);
            &&& t.running == still_running(s.running)
            &&& t.completed == s.completed + just_done(s.running)
            &&& names == with_tokens_to_come(s.running)
        }),
{
    assert forall|j: int| 0 <= j < s.running.len() implies (#[trigger] s.running[j]).state is Running by {
        assert(s.running[j].runs_well());
    }
    lemma_ticked(s, 0, seq![]);
    assert(s.running.skip(0) =~= s.running);
    assert(s.running.take(0) + still_running(s.running) =~= still_running(s.running));
    assert(Seq::<Seq<char>>::empty() + with_tokens_to_come(s.running) =~= with_tokens_to_come(s.running));
}

} // verus!
