//! What the scheduler's operations do, over mathematical values.

use crate::gguf::types::div_ceil;
use crate::scheduler::request::RequestView;
use vstd::prelude::*;

verus! {

/// The pages that a request holds.
#[verifier::ext_equal]
pub struct AllocationView {
    pub request_id: Seq<char>,
    pub page_ids: Seq<u64>,
    pub page_size_tokens: usize,
    pub capacity_tokens: usize,
}

/// One item of a decode batch.
#[verifier::ext_equal]
pub struct DecodeView {
    pub id: Seq<char>,
    pub token: u32,
    pub position: usize,
    pub generated: usize,
    pub prompt_len: usize,
    pub kv_pages: Seq<u64>,
}

/// The scheduler's state. `holders` are the keys of `kv_pages`, oldest first.
#[verifier::ext_equal]
pub struct SchedulerView {
    pub pending: Seq<RequestView>,
    pub running: Seq<RequestView>,
    pub completed: Seq<RequestView>,
    pub max_batch_size: usize,
    pub page_size_tokens: usize,
    pub max_kv_pages: usize,
    pub next_page_id: u64,
    pub kv_pages: Map<Seq<char>, AllocationView>,
    pub holders: Seq<Seq<char>>,
}

/// The pages that the given requests hold together.
pub open spec fn pages_of(holders: Seq<Seq<char>>, m: Map<Seq<char>, AllocationView>) -> nat
    decreases holders.len(),
{
    if holders.len() == 0 {
        0
    } else {
        pages_of(holders.drop_last(), m) + m[holders.last()].page_ids.len()
    }
}

/// The pages that a request needs: enough for its prompt and all tokens that it may
/// generate, and at least one.
pub open spec fn pages_for(page_size_tokens: usize, r: RequestView) -> nat {
    let n = div_ceil((r.prompt_len + r.max_tokens) as nat, page_size_tokens as nat);
    if n < 1 {
        1
    } else {
        n
    }
}

impl SchedulerView {
    /// The pages that are in use.
    pub open spec fn used(self) -> nat {
        pages_of(self.holders, self.kv_pages)
    }

    /// The pages that a request needs.
    pub open spec fn needed(self, r: RequestView) -> nat {
        pages_for(self.page_size_tokens, r)
    }

    /// A request gets the pages that it needs, unless too many would be in use or no
    /// numbers are left for them. Pages are numbered in the order in which they are
    /// given out.
    pub open spec fn allocate(self, r: RequestView) -> Option<(SchedulerView, AllocationView)> {
        let n = self.needed(r);
        if self.used() + n > self.max_kv_pages || self.next_page_id + n > u64::MAX {
            None
        } else {
            let a = AllocationView {
                request_id: r.id,
                page_ids: Seq::new(n, |i: int| (self.next_page_id + i) as u64),
                page_size_tokens: self.page_size_tokens,
                capacity_tokens: (r.prompt_len + r.max_tokens) as usize,
            };
            Some(
                (
                    SchedulerView {
                        next_page_id: (self.next_page_id + n) as u64,
                        kv_pages: self.kv_pages.insert(r.id, a),
                        holders: if self.kv_pages.contains_key(r.id) {
                            self.holders
                        } else {
                            self.holders.push(r.id)
                        },
                        ..self
                    },
                    a,
                ),
            )
        }
    }

    /// The state without the pages held under a name.
    pub open spec fn released(self, id: Seq<char>) -> SchedulerView {
        SchedulerView {
            kv_pages: self.kv_pages.remove(id),
            holders: if self.kv_pages.contains_key(id) {
                self.holders.remove(self.holders.index_of(id))
            } else {
                self.holders
            },
            ..self
        }
    }

    /// Pending requests are started in their order while there are slots and pages.
    /// Gives the state without them, and all that were started.
    pub open spec fn start_pending(self, slots: nat, batch: Seq<RequestView>) -> (
        SchedulerView,
        Seq<RequestView>,
    )
        decreases slots,
    {
        if slots == 0 || self.pending.len() == 0 {
            (self, batch)
        } else {
            match self.allocate(self.pending[0]) {
                None => (self, batch),
                Some((s, a)) => (SchedulerView { pending: s.pending.skip(1), ..s }).start_pending(
                    (slots - 1) as nat,
                    batch.push(self.pending[0].started(a.page_ids)),
                ),
            }
        }
    }

    /// Free slots are filled. Gives the new state and the requests that were started.
    pub open spec fn filled(self) -> (SchedulerView, Seq<RequestView>) {
        let slots = if self.max_batch_size >= self.running.len() {
            (self.max_batch_size - self.running.len()) as nat
        } else {
            0
        };
        let (s, batch) = self.start_pending(slots, seq![]);
        (SchedulerView { running: s.running + batch, ..s }, batch)
    }

    /// One scheduler tick for the running requests from place `i` on: each advances
    /// by one token, and those that are done leave with their pages. Gives the new
    /// state, and the names of those that had a token to come behind `names`.
    pub open spec fn ticked(self, i: int, names: Seq<Seq<char>>) -> (SchedulerView, Seq<Seq<char>>)
        decreases self.running.len() - i,
    {
        if i < 0 || i >= self.running.len() {
            (self, names)
        } else {
            let (r, advanced) = self.running[i].advanced();
            let more = if advanced {
                names.push(r.id)
            } else {
                names
            };
            if self.running[i].state is Running && r.state is Done {
                (SchedulerView {
                    running: self.running.remove(i),
                    completed: self.completed.push(r),
                    ..self
                }).released(r.id).ticked(i, more)
            } else {
                (SchedulerView { running: self.running.update(i, r), ..self }).ticked(i + 1, more)
            }
        }
    }

    /// The state once a running request has one more token, or has turned out to
    /// have all of them.
    pub open spec fn appended(self, i: int, token: u32) -> SchedulerView {
        let (advanced, grew) = self.running[i].advanced();
        let r = if grew {
            RequestView { tokens: advanced.tokens.push(token), ..advanced }
        } else {
            advanced
        };
        if r.state is Done {
            (SchedulerView {
                running: self.running.remove(i),
                completed: self.completed.push(r),
                ..self
            }).released(r.id)
        } else {
            SchedulerView { running: self.running.update(i, r), ..self }
        }
    }

    /// The first running request with a name gets a token. Gives the new state, and
    /// whether there is such a request.
    pub open spec fn given(self, id: Seq<char>, token: u32) -> (SchedulerView, bool) {
        match place_of(self.running, id) {
            Some(i) => (self.appended(i, token), true),
            None => (self, false),
        }
    }

    /// The first running request with a name, or else the first that waits, is completed
    /// ahead of time. Gives the new state, and whether there is such a request.
    pub open spec fn ended(self, id: Seq<char>) -> (SchedulerView, bool) {
        match place_of(self.running, id) {
            Some(i) => (
                (SchedulerView {
                    running: self.running.remove(i),
                    completed: self.completed.push(self.running[i].finished()),
                    ..self
                }).released(id),
                true,
            ),
            None => match place_of(self.pending, id) {
                Some(i) => (
                    (SchedulerView {
                        pending: self.pending.remove(i),
                        completed: self.completed.push(self.pending[i].finished()),
                        ..self
                    }).released(id),
                    true,
                ),
                None => (self, false),
            },
        }
    }
}

/// A request stands at the place, and is the first with its name.
pub open spec fn first_named(s: Seq<RequestView>, id: Seq<char>, i: int) -> bool {
    &&& 0 <= i < s.len()
    &&& s[i].id == id
    &&& forall|j: int| 0 <= j < i ==> (#[trigger] s[j]).id != id
}

/// No request has a name.
pub open spec fn none_named(s: Seq<RequestView>, id: Seq<char>) -> bool {
    forall|j: int| 0 <= j < s.len() ==> (#[trigger] s[j]).id != id
}

/// The place of the first request with a name, if there is one.
pub open spec fn place_of(s: Seq<RequestView>, id: Seq<char>) -> Option<int> {
    if exists|i: int| first_named(s, id, i) {
        Some(choose|i: int| first_named(s, id, i))
    } else {
        None
    }
}

/// There is one first place, or none.
pub proof fn lemma_place(s: Seq<RequestView>, id: Seq<char>)
    ensures
        forall|i: int| first_named(s, id, i) ==> place_of(s, id) == Some(i),
        none_named(s, id) ==> place_of(s, id) is None,
        match place_of(s, id) {
            Some(i) => first_named(s, id, i),
            None => none_named(s, id),
        },
{
    assert forall|i: int| first_named(s, id, i) implies place_of(s, id) == Some(i) by {
        let j = place_of(s, id)->0;
        assert(first_named(s, id, j));
    }
    if !none_named(s, id) {
        let j = choose|j: int| 0 <= j < s.len() && (#[trigger] s[j]).id == id;
        lemma_first(s, id, j);
    }
}

/// A request with a name is the first, or stands behind it.
proof fn lemma_first(s: Seq<RequestView>, id: Seq<char>, j: int)
    requires
        0 <= j < s.len(),
        s[j].id == id,
    ensures
        exists|i: int| first_named(s, id, i),
    decreases j,
{
    if exists|k: int| 0 <= k < j && (#[trigger] s[k]).id == id {
        lemma_first(s, id, choose|k: int| 0 <= k < j && (#[trigger] s[k]).id == id);
    } else {
        assert(first_named(s, id, j));
    }
}

/// The token that a request goes on from: its last, or zero where it has none.
pub open spec fn last_token(r: RequestView) -> u32 {
    if r.tokens.len() == 0 {
        0
    } else {
        r.tokens.last()
    }
}

/// The decode items of running requests, one for each.
pub open spec fn decode_items(s: Seq<RequestView>) -> Seq<DecodeView> {
    Seq::new(
        s.len(),
        |i: int|
            DecodeView {
                id: s[i].id,
                token: last_token(s[i]),
                position: s[i].at() as usize,
                generated: s[i].generated() as usize,
                prompt_len: s[i].prompt_len,
                kv_pages: s[i].kv_pages,
            },
    )
}

/// What holds of every scheduler: no more requests run than may, running requests
/// are under way, completed ones are done, no more pages are in use than there are, and
/// no page number that is in use is still to be given out.
pub open spec fn scheduler_wf(s: SchedulerView) -> bool {
    &&& s.page_size_tokens >= 1
    &&& s.running.len() <= s.max_batch_size
    &&& s.used() <= s.max_kv_pages
    &&& s.holders.no_duplicates()
    &&& forall|k: Seq<char>| #[trigger] s.holders.contains(k) <==> s.kv_pages.contains_key(k)
    &&& forall|i: int| 0 <= i < s.running.len() ==> (#[trigger] s.running[i]).runs_well()
    &&& forall|i: int| 0 <= i < s.completed.len() ==> (#[trigger] s.completed[i]).state is Done
    &&& forall|i: int|
        0 <= i < s.pending.len() ==> (#[trigger] s.pending[i]).state is Pending
            && s.pending[i].prompt_len + s.pending[i].max_tokens <= usize::MAX
    &&& forall|k: Seq<char>, j: int|
        s.kv_pages.contains_key(k) && 0 <= j < s.kv_pages[k].page_ids.len()
            ==> #[trigger] s.kv_pages[k].page_ids[j] < s.next_page_id
    &&& pages_apart(s.kv_pages)
}

/// No page is held twice.
pub open spec fn pages_apart(m: Map<Seq<char>, AllocationView>) -> bool {
    forall|a: Seq<char>, b: Seq<char>, i: int, j: int|
        #![trigger m[a].page_ids[i], m[b].page_ids[j]]
        m.contains_key(a) && m.contains_key(b) && 0 <= i < m[a].page_ids.len() && 0 <= j
            < m[b].page_ids.len() && (a != b || i != j) ==> m[a].page_ids[i] != m[b].page_ids[j]
}

pub proof fn lemma_pages_prefix(holders: Seq<Seq<char>>, m: Map<Seq<char>, AllocationView>, n: int)
    requires
        0 <= n <= holders.len(),
    ensures
        pages_of(holders.take(n), m) <= pages_of(holders, m),
    decreases holders.len(),
{
    if n == holders.len() {
        assert(holders.take(n) =~= holders);
    } else {
        assert(holders.drop_last().take(n) =~= holders.take(n));
        lemma_pages_prefix(holders.drop_last(), m, n);
    }
}

/// Values under other names do not count.
pub proof fn lemma_pages_same(
    holders: Seq<Seq<char>>,
    m: Map<Seq<char>, AllocationView>,
    other: Map<Seq<char>, AllocationView>,
)
    requires
        forall|i: int| 0 <= i < holders.len() ==> m[#[trigger] holders[i]] == other[holders[i]],
    ensures
        pages_of(holders, m) == pages_of(holders, other),
    decreases holders.len(),
{
    if holders.len() > 0 {
        let init = holders.drop_last();
        assert forall|i: int| 0 <= i < init.len() implies m[#[trigger] init[i]] == other[init[i]] by {
            assert(init[i] == holders[i]);
        }
        lemma_pages_same(init, m, other);
    }
}

/// One name more or less: the pages of the others stay.
pub proof fn lemma_pages_remove(holders: Seq<Seq<char>>, m: Map<Seq<char>, AllocationView>, i: int)
    requires
        0 <= i < holders.len(),
    ensures
        pages_of(holders, m) == pages_of(holders.remove(i), m) + m[holders[i]].page_ids.len(),
    decreases holders.len(),
{
    let init = holders.drop_last();
    if i == holders.len() - 1 {
        assert(holders.remove(i) =~= init);
    } else {
        lemma_pages_remove(init, m, i);
        assert(holders.remove(i).drop_last() =~= init.remove(i));
        assert(holders.remove(i).last() == holders.last());
    }
}

/// Allocating pages keeps the scheduler well-formed.
pub proof fn lemma_allocate(s: SchedulerView, r: RequestView)
    requires
        scheduler_wf(s),
        s.allocate(r) is Some,
    ensures
        scheduler_wf((s.allocate(r)->0).0),
{
    let (t, a) = s.allocate(r)->0;
    let k = r.id;
    let n = s.needed(r);
    if s.kv_pages.contains_key(k) {
        let i = s.holders.index_of(k);
        assert(s.holders.contains(k));
        lemma_pages_remove(s.holders, s.kv_pages, i);
        lemma_pages_remove(s.holders, t.kv_pages, i);
        let rest = s.holders.remove(i);
        assert forall|j: int| 0 <= j < rest.len() implies s.kv_pages[#[trigger] rest[j]]
            == t.kv_pages[rest[j]] by {
            let q = if j < i {
                j
            } else {
                j + 1
            };
            assert(rest[j] == s.holders[q]);
            assert(s.holders[q] != s.holders[i]);
        }
        lemma_pages_same(rest, s.kv_pages, t.kv_pages);
    } else {
        assert(t.holders.drop_last() =~= s.holders);
        assert forall|j: int| 0 <= j < s.holders.len() implies s.kv_pages[#[trigger] s.holders[j]]
            == t.kv_pages[s.holders[j]] by {
            assert(s.holders.contains(s.holders[j]));
        }
        lemma_pages_same(s.holders, s.kv_pages, t.kv_pages);
        assert forall|q: Seq<char>| #[trigger] t.holders.contains(q) <==> t.kv_pages.contains_key(q)
        by {
            if t.holders.contains(q) {
                let j = t.holders.index_of(q);
                if j < s.holders.len() {
                    assert(s.holders[j] == q);
                    assert(s.holders.contains(q));
                }
            }
            if t.kv_pages.contains_key(q) {
                if q == k {
                    assert(t.holders[s.holders.len() as int] == k);
                } else {
                    assert(s.holders.contains(q));
                    assert(t.holders[s.holders.index_of(q)] == q);
                }
            }
        }
        assert(t.holders.no_duplicates()) by {
            assert forall|i: int, j: int|
                0 <= i < t.holders.len() && 0 <= j < t.holders.len() && i != j implies t.holders[i]
                != t.holders[j] by {
                if i < s.holders.len() {
                    assert(s.holders.contains(s.holders[i]));
                }
                if j < s.holders.len() {
                    assert(s.holders.contains(s.holders[j]));
                }
            }
        }
    }
    assert forall|q: Seq<char>, j: int|
        t.kv_pages.contains_key(q) && 0 <= j
            < t.kv_pages[q].page_ids.len() implies #[trigger] t.kv_pages[q].page_ids[j]
        < t.next_page_id by {
        if q != k {
            assert(s.kv_pages[q].page_ids[j] < s.next_page_id);
        }
    }
    assert(pages_apart(t.kv_pages)) by {
        assert forall|x: Seq<char>, y: Seq<char>, i: int, j: int|
            #![trigger t.kv_pages[x].page_ids[i], t.kv_pages[y].page_ids[j]]
            t.kv_pages.contains_key(x) && t.kv_pages.contains_key(y) && 0 <= i
                < t.kv_pages[x].page_ids.len() && 0 <= j < t.kv_pages[y].page_ids.len() && (x != y
                || i != j) implies t.kv_pages[x].page_ids[i] != t.kv_pages[y].page_ids[j] by {
            if x != k {
                assert(s.kv_pages[x].page_ids[i] < s.next_page_id);
            }
            if y != k {
                assert(s.kv_pages[y].page_ids[j] < s.next_page_id);
            }
        }
    }
}

/// Releasing pages keeps the scheduler well-formed.
pub proof fn lemma_released(s: SchedulerView, id: Seq<char>)
    requires
        scheduler_wf(s),
    ensures
        scheduler_wf(s.released(id)),
        s.released(id).used() <= s.used(),
{
    let t = s.released(id);
    if s.kv_pages.contains_key(id) {
        assert(s.holders.contains(id));
        let i = s.holders.index_of(id);
        lemma_pages_remove(s.holders, s.kv_pages, i);
        assert forall|j: int| 0 <= j < t.holders.len() implies s.kv_pages[#[trigger] t.holders[j]]
            == t.kv_pages[t.holders[j]] && t.holders[j] != id by {
            let q = if j < i {
                j
            } else {
                j + 1
            };
            assert(t.holders[j] == s.holders[q]);
            assert(s.holders[q] != s.holders[i]);
        }
        lemma_pages_same(t.holders, s.kv_pages, t.kv_pages);
        assert forall|q: Seq<char>| #[trigger] t.holders.contains(q) <==> t.kv_pages.contains_key(q)
        by {
            if t.holders.contains(q) {
                let j = t.holders.index_of(q);
                assert(t.holders[j] == q);
                let p = if j < i {
                    j
                } else {
                    j + 1
                };
                assert(s.holders[p] == q);
                assert(s.holders.contains(q));
            }
            if t.kv_pages.contains_key(q) {
                assert(s.holders.contains(q));
                let p = s.holders.index_of(q);
                assert(t.holders[if p < i {
                    p
                } else {
                    p - 1
                }] == q);
            }
        }
    } else {
        assert(t.kv_pages =~= s.kv_pages);
    }
    assert forall|q: Seq<char>, j: int|
        t.kv_pages.contains_key(q) && 0 <= j
            < t.kv_pages[q].page_ids.len() implies #[trigger] t.kv_pages[q].page_ids[j]
        < t.next_page_id by {
        assert(s.kv_pages[q].page_ids[j] < s.next_page_id);
    }
    assert(pages_apart(t.kv_pages)) by {
        assert forall|x: Seq<char>, y: Seq<char>, i: int, j: int|
            #![trigger t.kv_pages[x].page_ids[i], t.kv_pages[y].page_ids[j]]
            t.kv_pages.contains_key(x) && t.kv_pages.contains_key(y) && 0 <= i
                < t.kv_pages[x].page_ids.len() && 0 <= j < t.kv_pages[y].page_ids.len() && (x != y
                || i != j) implies t.kv_pages[x].page_ids[i] != t.kv_pages[y].page_ids[j] by {
            assert(s.kv_pages[x].page_ids[i] != s.kv_pages[y].page_ids[j]);
        }
    }
}

/// Started requests are under way, no more of them are started than there are slots,
/// and the scheduler stays well-formed once they run.
pub proof fn lemma_start_pending(s: SchedulerView, slots: nat, batch: Seq<RequestView>)
    requires
        scheduler_wf(s),
        forall|i: int| 0 <= i < batch.len() ==> (#[trigger] batch[i]).runs_well(),
    ensures
        scheduler_wf(s.start_pending(slots, batch).0),
        s.start_pending(slots, batch).0.running == s.running,
        s.start_pending(slots, batch).0.completed == s.completed,
        s.start_pending(slots, batch).0.max_batch_size == s.max_batch_size,
        s.start_pending(slots, batch).1.len() <= batch.len() + slots,
        forall|i: int|
            0 <= i < s.start_pending(slots, batch).1.len() ==> (#[trigger] s.start_pending(
                slots,
                batch,
            ).1[i]).runs_well(),
    decreases slots,
{
    if slots > 0 && s.pending.len() > 0 && s.allocate(s.pending[0]) is Some {
        let (t, a) = s.allocate(s.pending[0])->0;
        lemma_allocate(s, s.pending[0]);
        let u = SchedulerView { pending: t.pending.skip(1), ..t };
        let more = batch.push(s.pending[0].started(a.page_ids));
        assert forall|i: int| 0 <= i < u.pending.len() implies (#[trigger] u.pending[i]).state
            is Pending && u.pending[i].prompt_len + u.pending[i].max_tokens <= usize::MAX by {
            assert(u.pending[i] == s.pending[i + 1]);
        }
        assert forall|i: int| 0 <= i < more.len() implies (#[trigger] more[i]).runs_well() by {
            if i < batch.len() {
                assert(more[i] == batch[i]);
            }
        }
        lemma_start_pending(u, (slots - 1) as nat, more);
    }
}

/// Filling free slots keeps the scheduler well-formed.
pub proof fn lemma_filled(s: SchedulerView)
    requires
        scheduler_wf(s),
    ensures
        scheduler_wf(s.filled().0),
{
    let slots = (s.max_batch_size - s.running.len()) as nat;
    lemma_start_pending(s, slots, seq![]);
    let (t, batch) = s.start_pending(slots, seq![]);
    let u = s.filled().0;
    assert forall|i: int| 0 <= i < u.running.len() implies (#[trigger] u.running[i]).runs_well() by {
        if i < t.running.len() {
            assert(u.running[i] == t.running[i]);
        } else {
            assert(u.running[i] == batch[i - t.running.len()]);
        }
    }
}

/// A running request that advances is still under way, or is done.
pub proof fn lemma_advanced(r: RequestView)
    requires
        r.runs_well(),
    ensures
        r.advanced().0.state is Done || r.advanced().0.runs_well(),
        r.state is Running,
        r.advanced().0.id == r.id,
{
}

/// A scheduler with one running request exchanged or taken out.
pub proof fn lemma_running_changed(s: SchedulerView, t: SchedulerView)
    requires
        scheduler_wf(s),
        t == (SchedulerView { running: t.running, completed: t.completed, ..s }),
        t.running.len() <= s.running.len(),
        forall|i: int| 0 <= i < t.running.len() ==> (#[trigger] t.running[i]).runs_well(),
        forall|i: int| 0 <= i < t.completed.len() ==> (#[trigger] t.completed[i]).state is Done,
    ensures
        scheduler_wf(t),
{
}

/// A tick keeps the scheduler well-formed.
pub proof fn lemma_ticked(s: SchedulerView, i: int, names: Seq<Seq<char>>)
    requires
        scheduler_wf(s),
        0 <= i,
    ensures
        scheduler_wf(s.ticked(i, names).0),
    decreases s.running.len() - i,
{
    if i < s.running.len() {
        assert(s.running[i].runs_well());
        lemma_advanced(s.running[i]);
        let (r, advanced) = s.running[i].advanced();
        let more = if advanced {
            names.push(r.id)
        } else {
            names
        };
        if r.state is Done {
            let t = SchedulerView {
                running: s.running.remove(i),
                completed: s.completed.push(r),
                ..s
            };
            lemma_running_changed(s, t);
            lemma_released(t, r.id);
            lemma_ticked(t.released(r.id), i, more);
        } else {
            let t = SchedulerView { running: s.running.update(i, r), ..s };
            lemma_running_changed(s, t);
            lemma_ticked(t, i + 1, more);
        }
    }
}

} // verus!
