//! What holds of a memory pool after any calls.

use crate::memory::block::{block_of, MemRegion};
use crate::memory::model::{
    can_count, lemma_counted, lemma_evict_shrinks, lemma_evict_subset, lemma_evict_until,
    lemma_evicted, lemma_renewed, lemma_with, lemma_without, pool_wf, PoolView,
};
use vstd::prelude::*;

verus! {

/// A call that changes a pool.
pub enum PoolCall {
    Allocate { name: Seq<char>, size: usize, region: MemRegion },
    Get { name: Seq<char> },
    Release { name: Seq<char> },
    Evict { needed: usize, region: MemRegion },
}

impl PoolView {
    /// The pool after one more call.
    pub open spec fn with_call(self, call: PoolCall) -> PoolView {
        match call {
            PoolCall::Allocate { name, size, region } => self.allocated(name, size, region).0,
            PoolCall::Get { name } => self.touched(name),
            PoolCall::Release { name } => self.given_up(name).0,
            PoolCall::Evict { needed, region } => self.evicted(needed as nat, region).0,
        }
    }

    /// The pool after more calls.
    pub open spec fn after(self, calls: Seq<PoolCall>) -> PoolView
        decreases calls.len(),
    {
        if calls.len() == 0 {
            self
        } else {
            self.after(calls.drop_last()).with_call(calls.last())
        }
    }

    /// A block that is allocated can be counted.
    pub open spec fn allows(self, call: PoolCall) -> bool {
        &&& self.names.len() <= usize::MAX
        &&& call matches PoolCall::Allocate { name, size, region } ==> can_count(
            self,
            1,
            size as nat,
        )
    }

    /// So can all that are allocated.
    pub open spec fn allows_all(self, calls: Seq<PoolCall>) -> bool
        decreases calls.len(),
    {
        calls.len() > 0 ==> {
            &&& self.allows_all(calls.drop_last())
            &&& self.after(calls.drop_last()).allows(calls.last())
        }
    }

    /// A block that is allocated has a name that no other has.
    pub open spec fn new_name(self, call: PoolCall) -> bool {
        call matches PoolCall::Allocate { name, size, region } ==> !self.blocks.contains_key(name)
    }

    /// So have all that are allocated.
    pub open spec fn new_names(self, calls: Seq<PoolCall>) -> bool
        decreases calls.len(),
    {
        calls.len() > 0 ==> {
            &&& self.new_names(calls.drop_last())
            &&& self.after(calls.drop_last()).new_name(calls.last())
        }
    }
}

/// No region has more bytes in use than it holds.
pub open spec fn within_capacity(p: PoolView) -> bool {
    forall|region: MemRegion| #[trigger] p.used(region) <= p.capacity(region)
}

/// The counters tell what is in use: the bytes that were allocated and not freed are
/// those of the blocks, the blocks are counted, and the peak is no lower.
pub open spec fn counters_match(p: PoolView) -> bool {
    &&& p.stats.total_allocated == p.live() + p.stats.total_freed
    &&& p.stats.block_count == p.names.len()
    &&& p.stats.peak_usage >= p.stats.total_allocated
}

/// The block of a name is in the pool, and its bytes are in use.
proof fn lemma_counts(p: PoolView, name: Seq<char>)
    requires
        pool_wf(p),
        p.blocks.contains_key(name),
    ensures
        p.blocks[name].total_size <= p.live(),
        p.names.len() > 0,
{
    lemma_without(p, name, None);
    assert(p.names.contains(name));
}

/// Giving up a reference keeps the pool in step, and no region gets bytes by it.
proof fn lemma_given_up(p: PoolView, name: Seq<char>)
    requires
        pool_wf(p),
        p.names.len() <= usize::MAX,
    ensures
        ({
            let q = p.given_up(name).0;
            &&& pool_wf(q)
            &&& q.live() + q.stats.total_freed == p.live() + p.stats.total_freed
            &&& forall|region: MemRegion| #[trigger] q.used(region) <= p.used(region)
            &&& q.stats.block_count == q.names.len() || q.stats.block_count == p.stats.block_count
                && q.names == p.names
            &&& q.names.len() <= p.names.len()
        }),
{
    if p.blocks.contains_key(name) {
        lemma_counts(p, name);
        let b = p.blocks[name].unshared();
        let q = p.given_up(name).0;
        assert(p.names.contains(name));
        if b.unused() {
            lemma_without(p, name, None);
            assert forall|region: MemRegion| #[trigger] q.used(region) <= p.used(region) by {
                lemma_without(p, name, Some(region));
            }
        } else {
            assert(q =~= p.with(b));
            lemma_with(p, b, None);
            assert forall|region: MemRegion| #[trigger] q.used(region) <= p.used(region) by {
                lemma_with(p, b, Some(region));
            }
        }
    }
}

/// Using a block keeps the pool as it is, but for the order of its blocks.
proof fn lemma_touched(p: PoolView, name: Seq<char>)
    requires
        pool_wf(p),
    ensures
        ({
            let q = p.touched(name);
            &&& pool_wf(q)
            &&& q.blocks == p.blocks
            &&& q.live() == p.live()
            &&& forall|region: MemRegion| #[trigger] q.used(region) == p.used(region)
            &&& q.names.len() == p.names.len()
            &&& q.stats == p.stats
        }),
{
    if p.blocks.contains_key(name) {
        let q = p.touched(name);
        let b = p.blocks[name];
        assert(p.names.contains(name));
        lemma_without(p, name, None);
        lemma_renewed(p, b, None);
        assert(q.blocks =~= p.blocks);
        assert forall|region: MemRegion| #[trigger] q.used(region) == p.used(region) by {
            lemma_renewed(p, b, Some(region));
        }
    }
}

/// Where a block goes, after eviction if need be.
proof fn lemma_placed(p: PoolView, size: usize, preferred: MemRegion)
    requires
        pool_wf(p),
        p.names.len() <= usize::MAX,
    ensures
        ({
            let (q, place) = p.placed(size, preferred);
            &&& pool_wf(q)
            &&& q.live() + q.stats.total_freed == p.live() + p.stats.total_freed
            &&& q.stats.total_allocated == p.stats.total_allocated
            &&& q.stats.peak_usage == p.stats.peak_usage
            &&& q.names.len() <= p.names.len()
            &&& q.stats.block_count == q.names.len() || q == p
            &&& forall|k: Seq<char>| #[trigger]
                q.blocks.contains_key(k) ==> p.blocks.contains_key(k)
            &&& forall|region: MemRegion| #[trigger] q.used(region) <= p.used(region)
            &&& forall|region: MemRegion| #[trigger] q.capacity(region) == p.capacity(region)
            &&& place matches Some(region) ==> q.has_room(region, size)
            &&& place matches Some(region) ==> region == preferred || region == MemRegion::Unified
                || region == MemRegion::Host
        }),
{
    let needed = p.shortage(preferred, size);
    lemma_evicted(p, needed, preferred);
    lemma_evict_until(p, preferred, needed, 0, 0);
    lemma_evict_subset(p, preferred, needed, 0, 0);
    let (e, f, c) = p.evict_until(preferred, needed, 0, 0);
    let q = p.evicted(needed, preferred).0;
    assert forall|region: MemRegion| #[trigger] q.used(region) <= p.used(region) by {
        lemma_evict_shrinks(p, preferred, needed, 0, 0, region);
        assert(q.used(region) == e.used(region));
    }
    assert(q.live() == e.live());
}

/// What an allocation does to the pool and to its counters.
proof fn lemma_allocated(p: PoolView, name: Seq<char>, size: usize, preferred: MemRegion)
    requires
        pool_wf(p),
        can_count(p, 1, size as nat),
    ensures
        ({
            let (r, block) = p.allocated(name, size, preferred);
            &&& pool_wf(r)
            &&& forall|region: MemRegion| #[trigger] r.capacity(region) == p.capacity(region)
            &&& within_capacity(p) ==> within_capacity(r)
            &&& counters_match(p) && !p.blocks.contains_key(name) ==> counters_match(r)
            &&& r.names.len() <= usize::MAX
        }),
{
    lemma_placed(p, size, preferred);
    lemma_counted(p, name, size, preferred, 0, 0);
    let (q, place) = p.placed(size, preferred);
    let r = p.allocated(name, size, preferred).0;
    match place {
        None => {
            if within_capacity(p) {
                assert forall|x: MemRegion| #[trigger] r.used(x) <= r.capacity(x) by {
                    assert(q.used(x) <= p.used(x));
                    assert(p.used(x) <= p.capacity(x));
                    assert(q.capacity(x) == p.capacity(x));
                }
            }
        },
        Some(region) => {
            let b = block_of(name, size, region);
            lemma_renewed(q, b, None);
            assert(r.names == q.renewed(b).names);
            assert(r.blocks == q.renewed(b).blocks);
            assert(r.live() == q.renewed(b).live());
            if !q.blocks.contains_key(name) {
                assert(q.without(name) =~= q);
                assert(r.names == q.names.push(name));
            }
            assert forall|x: MemRegion| #[trigger] r.capacity(x) == p.capacity(x) by {
                assert(q.capacity(x) == p.capacity(x));
            }
            if within_capacity(p) {
                assert forall|x: MemRegion| #[trigger] r.used(x) <= r.capacity(x) by {
                    lemma_renewed(q, b, Some(x));
                    assert(r.used(x) == q.renewed(b).used(x));
                    assert(q.used(x) <= p.used(x));
                    assert(p.used(x) <= p.capacity(x));
                    assert(q.capacity(x) == p.capacity(x));
                    assert(r.capacity(x) == p.capacity(x));
                }
            }
        },
    }
}

/// What every call keeps.
proof fn lemma_call(p: PoolView, call: PoolCall)
    requires
        pool_wf(p),
        p.allows(call),
    ensures
        pool_wf(p.with_call(call)),
        within_capacity(p) ==> within_capacity(p.with_call(call)),
        counters_match(p) && p.new_name(call) ==> counters_match(p.with_call(call)),
{
    let q = p.with_call(call);
    match call {
        PoolCall::Allocate { name, size, region } => {
            lemma_allocated(p, name, size, region);
        },
        PoolCall::Get { name } => {
            lemma_touched(p, name);
            if within_capacity(p) {
                assert forall|x: MemRegion| #[trigger] q.used(x) <= q.capacity(x) by {
                    assert(p.used(x) <= p.capacity(x));
                }
            }
        },
        PoolCall::Release { name } => {
            lemma_given_up(p, name);
            if within_capacity(p) {
                assert forall|x: MemRegion| #[trigger] q.used(x) <= q.capacity(x) by {
                    assert(p.used(x) <= p.capacity(x));
                    assert(q.used(x) <= p.used(x));
                }
            }
        },
        PoolCall::Evict { needed, region } => {
            lemma_evicted(p, needed as nat, region);
            lemma_evict_until(p, region, needed as nat, 0, 0);
            let (e, f, c) = p.evict_until(region, needed as nat, 0, 0);
            assert(q.live() == e.live());
            if within_capacity(p) {
                assert forall|x: MemRegion| #[trigger] q.used(x) <= q.capacity(x) by {
                    lemma_evict_shrinks(p, region, needed as nat, 0, 0, x);
                    assert(q.used(x) == e.used(x));
                    assert(p.used(x) <= p.capacity(x));
                }
            }
        },
    }
}

/// No region ever has more bytes in use than it holds, after any calls.
pub proof fn regions_stay_within_capacity(p: PoolView, calls: Seq<PoolCall>)
    requires
        pool_wf(p),
        within_capacity(p),
        p.allows_all(calls),
    ensures
        pool_wf(p.after(calls)),
        within_capacity(p.after(calls)),
    decreases calls.len(),
{
    if calls.len() > 0 {
        regions_stay_within_capacity(p, calls.drop_last());
        lemma_call(p.after(calls.drop_last()), calls.last());
    }
}

/// The counters tell what is in use after any calls that allocate no block under the
/// name of another.
pub proof fn counters_stay_right(p: PoolView, calls: Seq<PoolCall>)
    requires
        pool_wf(p),
        counters_match(p),
        p.allows_all(calls),
        p.new_names(calls),
    ensures
        pool_wf(p.after(calls)),
        counters_match(p.after(calls)),
    decreases calls.len(),
{
    if calls.len() > 0 {
        counters_stay_right(p, calls.drop_last());
        lemma_call(p.after(calls.drop_last()), calls.last());
    }
}

/// A new pool is within its capacity, whatever that is, and its counters are right.
pub proof fn new_pools_start_right(host: u64, device: u64, unified: u64)
    ensures
        ({
            let p = PoolView { host, device, unified, ..crate::memory::pool::new_pool() };
            pool_wf(p) && within_capacity(p) && counters_match(p)
        }),
{
}

/// A block that is allocated has the name and the size that were asked for, lies in the
/// region that was asked for, in unified or in host memory, and is found under its name.
pub proof fn allocated_blocks_are_found(
    p: PoolView,
    name: Seq<char>,
    size: usize,
    preferred: MemRegion,
)
    requires
        pool_wf(p),
        can_count(p, 1, size as nat),
    ensures
        p.allocated(name, size, preferred) matches (q, Some(b)) ==> {
            &&& b.name == name
            &&& b.total_size == size
            &&& b.region == preferred || b.region == MemRegion::Unified || b.region
                == MemRegion::Host
            &&& q.blocks.contains_key(name)
            &&& q.blocks[name] == b
        },
{
    lemma_placed(p, size, preferred);
}

} // verus!
