//! Weight memory and cache memory.

use crate::memory::block::{BlockView, MemRegion, MemoryBlock};
use crate::memory::model::{
    can_count, lemma_allocated_unshared, lemma_given_up_unshared, lemma_sole_goes, never_shared,
    pool_wf, PoolView,
};
use crate::memory::pool::{new_pool, MemoryPool, MemoryStats};
use crate::memory::report::pool_report;
use crate::text::{decimal, decimal_string, texts};
use vstd::prelude::*;

verus! {

/// One pool for weights and one for the key-value cache.
#[derive(Debug)]
pub struct UnifiedMemory {
    pool: MemoryPool,
    kv_cache_pool: MemoryPool,
}

/// The state of both pools.
pub struct UnifiedView {
    pub weights: PoolView,
    pub kv_cache: PoolView,
}

impl View for UnifiedMemory {
    type V = UnifiedView;

    closed spec fn view(&self) -> UnifiedView {
        UnifiedView { weights: self.pool@, kv_cache: self.kv_cache_pool@ }
    }
}

/// Both pools are well-formed, and no block of theirs is shared.
pub open spec fn unified_wf(u: UnifiedView) -> bool {
    &&& pool_wf(u.weights)
    &&& pool_wf(u.kv_cache)
    &&& never_shared(u.weights)
    &&& never_shared(u.kv_cache)
}

/// The name of a layer's cache block.
pub open spec fn kv_name(layer: usize) -> Seq<char> {
    "kv_cache_l"@ + decimal(layer as nat)
}

/// A pool once a reference to each of the given blocks is given up.
pub open spec fn all_given_up(p: PoolView, names: Seq<Seq<char>>) -> PoolView
    decreases names.len(),
{
    if names.len() == 0 {
        p
    } else {
        all_given_up(p, names.drop_last()).given_up(names.last()).0
    }
}

/// The first blocks of a pool that is not shared go with their bytes.
proof fn lemma_all_go(p: PoolView, n: nat)
    requires
        pool_wf(p),
        never_shared(p),
        n <= p.names.len() <= usize::MAX,
    ensures
        ({
            let q = all_given_up(p, p.names.take(n as int));
            &&& pool_wf(q)
            &&& never_shared(q)
            &&& q.names == p.names.skip(n as int)
            &&& q.live() + q.stats.total_freed == p.live() + p.stats.total_freed
            &&& n > 0 ==> q.stats.block_count == q.names.len()
        }),
    decreases n,
{
    if n == 0 {
        assert(p.names.take(0) =~= seq![]);
        assert(p.names.skip(0) =~= p.names);
    } else {
        lemma_all_go(p, (n - 1) as nat);
        let q = all_given_up(p, p.names.take(n - 1));
        let name = p.names[n - 1];
        assert(p.names.take(n as int).drop_last() =~= p.names.take(n - 1));
        assert(p.names.take(n as int).last() == name);
        assert(q.names[0] == name);
        assert(q.names.contains(name));
        assert(q.names.index_of(name) == 0);
        lemma_sole_goes(q, name);
        assert(q.names.remove(0) =~= p.names.skip(n as int));
    }
}

/// Two pools without blocks: four gigabytes of unified memory for weights.
pub open spec fn new_unified() -> UnifiedView {
    UnifiedView {
        weights: new_pool().resized(MemRegion::Unified, 0x1_0000_0000).resized(
            MemRegion::Host,
            0x2_0000_0000,
        ),
        kv_cache: new_pool(),
    }
}

impl Default for UnifiedMemory {
    fn default() -> (r: Self)
        ensures
            r@ == new_unified(),
            unified_wf(r@),
    {
        Self::new()
    }
}

impl UnifiedMemory {
    pub fn new() -> (r: Self)
        ensures
            r@ == new_unified(),
            unified_wf(r@),
    {
        let mut pool = MemoryPool::new();
        pool.resize(MemRegion::Unified, 0x1_0000_0000);
        pool.resize(MemRegion::Host, 0x2_0000_0000);
        UnifiedMemory { pool, kv_cache_pool: MemoryPool::new() }
    }

    /// Allocates memory for weights.
    pub fn allocate_weights(&mut self, name: &str, size: usize) -> (r: Option<MemoryBlock>)
        requires
            unified_wf(old(self)@),
            can_count(old(self)@.weights, 1, size as nat),
        ensures
            unified_wf(final(self)@),
            final(self)@ == (UnifiedView {
                weights: old(self)@.weights.allocated(name@, size, MemRegion::Unified).0,
                ..old(self)@
            }),
            match r {
                Some(b) => old(self)@.weights.allocated(name@, size, MemRegion::Unified).1 == Some(
                    b@,
                ),
                None => old(self)@.weights.allocated(name@, size, MemRegion::Unified).1 is None,
            },
    {
        proof {
            lemma_allocated_unshared(self@.weights, name@, size, MemRegion::Unified);
        }
        self.pool.allocate(name, size, MemRegion::Unified)
    }

    /// Allocates memory for a layer's cache.
    pub fn allocate_kv_cache(
        &mut self,
        layer: usize,
        seq_len: usize,
        head_dim: usize,
        bytes_per_elem: usize,
    ) -> (r: Option<MemoryBlock>)
        requires
            unified_wf(old(self)@),
            seq_len * head_dim <= usize::MAX,
            can_count(old(self)@.kv_cache, 1, (seq_len * head_dim * bytes_per_elem) as nat),
        ensures
            unified_wf(final(self)@),
            ({
                let size = (seq_len * head_dim * bytes_per_elem) as usize;
                let (after, block) = old(self)@.kv_cache.allocated(
                    kv_name(layer),
                    size,
                    MemRegion::Unified,
                );
                &&& final(self)@ == (UnifiedView { kv_cache: after, ..old(self)@ })
                &&& match r {
                    Some(b) => block == Some(b@),
                    None => block is None,
                }
            }),
    {
        let mut name = "kv_cache_l".to_string();
        name.append(decimal_string(layer as u64).as_str());
        let size: usize = seq_len * head_dim * bytes_per_elem;
        proof {
            lemma_allocated_unshared(self@.kv_cache, name@, size, MemRegion::Unified);
        }
        self.kv_cache_pool.allocate(name.as_str(), size, MemRegion::Unified)
    }

    /// Gives up a reference to weights.
    pub fn release_weights(&mut self, name: &str)
        requires
            unified_wf(old(self)@),
        ensures
            unified_wf(final(self)@),
            final(self)@ == (UnifiedView {
                weights: old(self)@.weights.given_up(name@).0,
                ..old(self)@
            }),
    {
        proof {
            lemma_given_up_unshared(self@.weights, name@);
        }
        let _ = self.pool.release(name);
    }

    /// Gives up a reference to every block of the cache, and frees them all. Weights stay.
    pub fn clear_kv_cache(&mut self)
        requires
            unified_wf(old(self)@),
        ensures
            unified_wf(final(self)@),
            final(self)@ == (UnifiedView {
                kv_cache: all_given_up(old(self)@.kv_cache, old(self)@.kv_cache.names),
                ..old(self)@
            }),
            final(self)@.weights == old(self)@.weights,
            final(self)@.kv_cache.blocks == Map::<Seq<char>, BlockView>::empty(),
            final(self)@.kv_cache.names.len() == 0,
            final(self)@.kv_cache.stats.block_count == 0,
            final(self)@.kv_cache.stats.total_freed == old(self)@.kv_cache.stats.total_freed
                + old(self)@.kv_cache.live(),
    {
        let ghost all = self@.kv_cache.names;
        let mut names: Vec<String> = Vec::new();
        let mut i: usize = 0;
        while i < self.kv_cache_pool.len()
            invariant
                self == old(self),
                all == self.kv_cache_pool@.names,
                i <= all.len(),
                texts(names@) == all.take(i as int),
            decreases all.len() - i,
        {
            let ghost before = texts(names@);
            let name = self.kv_cache_pool.name_at(i);
            names.push(name);
            assert(texts(names@) =~= before.push(name@));
            i += 1;
            assert(texts(names@) =~= all.take(i as int));
        }
        assert(all.take(i as int) =~= all);
        let mut k: usize = 0;
        assert(all.take(0) =~= seq![]);
        while k < names.len()
            invariant
                k <= names@.len(),
                texts(names@) == all,
                unified_wf(self@),
                self@ == (UnifiedView {
                    kv_cache: all_given_up(old(self)@.kv_cache, all.take(k as int)),
                    ..old(self)@
                }),
            decreases names@.len() - k,
        {
            proof {
                lemma_given_up_unshared(self@.kv_cache, texts(names@)[k as int]);
            }
            let _ = self.kv_cache_pool.release(names[k].as_str());
            assert(all.take(k + 1).drop_last() =~= all.take(k as int));
            assert(all.take(k + 1).last() == texts(names@)[k as int]);
            k += 1;
        }
        assert(all.take(k as int) =~= all);
        proof {
            lemma_all_go(old(self)@.kv_cache, all.len());
            assert(all.skip(all.len() as int) =~= seq![]);
            let p = self@.kv_cache;
            assert forall|name: Seq<char>| !p.blocks.contains_key(name) by {
                assert(!p.names.contains(name));
            }
            assert(p.blocks =~= Map::empty());
        }
    }

    /// The reports on both pools: weights, then cache.
    pub(crate) fn pool_reports(&self) -> (r: (Vec<String>, Vec<String>))
        requires
            unified_wf(self@),
        ensures
            texts(r.0@) == pool_report(self@.weights),
            texts(r.1@) == pool_report(self@.kv_cache),
    {
        (self.pool.report(), self.kv_cache_pool.report())
    }

    /// The counters of both pools: weights, then cache.
    pub fn stats(&self) -> (r: (MemoryStats, MemoryStats))
        ensures
            r == (self@.weights.stats, self@.kv_cache.stats),
    {
        (self.pool.stats(), self.kv_cache_pool.stats())
    }
}

} // verus!
