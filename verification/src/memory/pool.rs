//! The memory pool.

use crate::memory::block::{MemRegion, MemoryBlock};
use crate::memory::model::{
    PoolView, bytes_in, can_count, lemma_bytes_prefix, lemma_counted, lemma_evict_until,
    lemma_evicted, lemma_first_evictable, lemma_region_within, lemma_renewed, lemma_with, lemma_without,
    pool_named, pool_wf,
};
use crate::names::NameMap;
use vstd::prelude::*;

verus! {

/// Counters of a pool.
#[derive(Debug, Clone, Copy, PartialEq, Eq, Structural)]
pub struct MemoryStats {
    pub total_allocated: usize,
    pub total_freed: usize,
    pub peak_usage: usize,
    pub block_count: usize,
    pub page_faults: usize,
    pub evictions: usize,
}

impl Default for MemoryStats {
    fn default() -> (r: Self)
        ensures
            r == no_stats(),
    {
        MemoryStats {
            total_allocated: 0,
            total_freed: 0,
            peak_usage: 0,
            block_count: 0,
            page_faults: 0,
            evictions: 0,
        }
    }
}

/// Counters at zero.
pub open spec fn no_stats() -> MemoryStats {
    MemoryStats {
        total_allocated: 0,
        total_freed: 0,
        peak_usage: 0,
        block_count: 0,
        page_faults: 0,
        evictions: 0,
    }
}

/// Named blocks in three regions of limited capacity.
#[derive(Debug)]
pub struct MemoryPool {
    blocks: NameMap<MemoryBlock>,
    stats: MemoryStats,
    host: u64,
    device: u64,
    unified: u64,
}

impl View for MemoryPool {
    type V = PoolView;

    closed spec fn view(&self) -> PoolView {
        PoolView {
            blocks: self.blocks@,
            names: self.blocks.names(),
            stats: self.stats,
            host: self.host,
            device: self.device,
            unified: self.unified,
        }
    }
}

/// A pool without blocks: eight gigabytes of host and of unified memory, four of
/// device memory.
pub open spec fn new_pool() -> PoolView {
    PoolView {
        blocks: Map::empty(),
        names: seq![],
        stats: no_stats(),
        host: 0x2_0000_0000,
        device: 0x1_0000_0000,
        unified: 0x2_0000_0000,
    }
}

impl Default for MemoryPool {
    fn default() -> (r: Self)
        ensures
            r@ == new_pool(),
            pool_wf(r@),
    {
        Self::new()
    }
}

impl MemoryPool {
    pub fn new() -> (r: Self)
        ensures
            r@ == new_pool(),
            pool_wf(r@),
    {
        MemoryPool {
            blocks: NameMap::new(),
            stats: MemoryStats::default(),
            host: 0x2_0000_0000,
            device: 0x1_0000_0000,
            unified: 0x2_0000_0000,
        }
    }

    /// Sets the capacity of a region.
    pub fn set_capacity(&mut self, region: MemRegion, bytes: usize)
        requires
            pool_wf(old(self)@),
        ensures
            pool_wf(final(self)@),
            final(self)@ == old(self)@.resized(region, bytes as u64),
    {
        self.resize(region, bytes as u64);
    }

    pub(crate) fn resize(&mut self, region: MemRegion, bytes: u64)
        requires
            pool_wf(old(self)@),
        ensures
            pool_wf(final(self)@),
            final(self)@ == old(self)@.resized(region, bytes),
    {
        match region {
            MemRegion::Host => {
                self.host = bytes;
            },
            MemRegion::Device => {
                self.device = bytes;
            },
            MemRegion::Unified => {
                self.unified = bytes;
            },
        }
    }

    fn capacity(&self, region: MemRegion) -> (r: u64)
        ensures
            r == self@.capacity(region),
    {
        match region {
            MemRegion::Host => self.host,
            MemRegion::Device => self.device,
            MemRegion::Unified => self.unified,
        }
    }

    fn used_in_region(&self, region: MemRegion) -> (r: usize)
        requires
            pool_wf(self@),
        ensures
            r == self@.used(region),
    {
        let mut used: usize = 0;
        let mut i: usize = 0;
        let ghost names = self.blocks.names();
        let ghost m = self.blocks@;
        proof {
            lemma_region_within(names, m, Some(region));
        }
        while i < self.blocks.len()
            invariant
                i <= names.len(),
                names == self.blocks.names(),
                m == self.blocks@,
                used == bytes_in(names.take(i as int), m, Some(region)),
                bytes_in(names, m, Some(region)) <= usize::MAX,
            decreases names.len() - i,
        {
            assert(names.take(i + 1).drop_last() =~= names.take(i as int));
            proof {
                lemma_bytes_prefix(names, m, Some(region), i + 1);
            }
            let b = self.blocks.value_at(i);
            if b.region == region {
                used = used + b.total_size;
            }
            i += 1;
        }
        assert(names.take(i as int) =~= names);
        used
    }

    /// Whether a region has room for that many more bytes.
    fn fits(&self, region: MemRegion, size: usize) -> (r: bool)
        requires
            pool_wf(self@),
        ensures
            r == self@.has_room(region, size),
    {
        let cap: u64 = self.capacity(region);
        let used: u64 = self.used_in_region(region) as u64;
        cap.saturating_sub(used) >= size as u64
    }

    fn find_evictable(&self, region: MemRegion, refs: usize) -> (r: Option<usize>)
        requires
            refs <= 1,
        ensures
            match r {
                Some(i) => self@.first_evictable(region, refs as int, 0) == Some(i as int),
                None => self@.first_evictable(region, refs as int, 0) is None,
            },
    {
        let mut i: usize = 0;
        while i < self.blocks.len()
            invariant
                i <= self.blocks.names().len(),
                self@.first_evictable(region, refs as int, 0) == self@.first_evictable(
                    region,
                    refs as int,
                    i as int,
                ),
            decreases self.blocks.names().len() - i,
        {
            let b = self.blocks.value_at(i);
            let n: usize = if b.pages.len() > 0 {
                b.pages[0].ref_count
            } else {
                0
            };
            if b.region == region && b.total_size > 0 && n == refs {
                return Some(i);
            }
            i += 1;
        }
        None
    }

    /// Evicts blocks of a region, the least recently used first, those without
    /// references ahead of those with one, until enough bytes are free or none is left.
    /// Gives the freed bytes.
    pub fn evict_to_free(&mut self, needed_bytes: usize, region: MemRegion) -> (r: usize)
        requires
            pool_wf(old(self)@),
        ensures
            pool_wf(final(self)@),
            final(self)@ == old(self)@.evicted(needed_bytes as nat, region).0,
            r == old(self)@.evicted(needed_bytes as nat, region).1,
    {
        proof {
            lemma_evicted(self@, needed_bytes as nat, region);
            lemma_evict_until(self@, region, needed_bytes as nat, 0, 0);
        }
        let mut freed: usize = 0;
        let mut count: usize = 0;
        let mut stop: bool = false;
        let ghost start = self@;
        let ghost goal = start.evict_until(region, needed_bytes as nat, 0, 0);
        while !stop && freed < needed_bytes
            invariant
                pool_wf(start),
                start == old(self)@,
                goal == start.evict_until(region, needed_bytes as nat, 0, 0),
                goal.0.live() + goal.1 == start.live(),
                goal.1 >= goal.2,
                pool_named(self@),
                self@.live() + freed == start.live(),
                count <= freed,
                self@.stats == start.stats,
                !stop ==> goal == self@.evict_until(
                    region,
                    needed_bytes as nat,
                    freed as nat,
                    count as nat,
                ),
                stop ==> goal == (self@, freed as nat, count as nat),
            decreases
                self@.names.len(),
                if stop {
                    0int
                } else {
                    1int
                },
        {
            let ghost p = self@;
            let zero = self.find_evictable(region, 0);
            let found = match zero {
                Some(i) => Some(i),
                None => self.find_evictable(region, 1),
            };
            match found {
                Some(i) => {
                    proof {
                        lemma_first_evictable(p, region, 0, 0);
                        lemma_first_evictable(p, region, 1, 0);
                        assert(p.names.contains(p.names[i as int]));
                        assert(p.names.index_of(p.names[i as int]) == i);
                        lemma_without(p, p.names[i as int], None);
                    }
                    let name = self.blocks.name_at(i).clone();
                    let size: usize = self.blocks.value_at(i).total_size;
                    let _ = self.blocks.remove(name.as_str());
                    assert(self@ =~= p.without(name@));
                    freed = freed + size;
                    count = count + 1;
                },
                None => {
                    stop = true;
                },
            }
        }
        self.stats.evictions = self.stats.evictions + count;
        self.stats.total_freed = self.stats.total_freed + freed;
        self.stats.block_count = self.blocks.len();
        freed
    }

    fn select_region(&mut self, size: usize, preferred: MemRegion) -> (r: Option<MemRegion>)
        requires
            pool_wf(old(self)@),
        ensures
            pool_wf(final(self)@),
            (final(self)@, r) == old(self)@.placed(size, preferred),
            final(self)@.stats.total_allocated == old(self)@.stats.total_allocated,
    {
        if self.fits(preferred, size) {
            return Some(preferred);
        }
        let cap: u64 = self.capacity(preferred);
        let used: u64 = self.used_in_region(preferred) as u64;
        let free: u64 = cap.saturating_sub(used);
        let needed: usize = if size as u64 > free {
            (size as u64 - free) as usize
        } else {
            0
        };
        proof {
            lemma_evicted(self@, needed as nat, preferred);
        }
        let freed: usize = self.evict_to_free(needed, preferred);
        if freed > 0 && self.fits(preferred, size) {
            return Some(preferred);
        }
        if preferred != MemRegion::Unified && self.fits(MemRegion::Unified, size) {
            return Some(MemRegion::Unified);
        }
        if preferred != MemRegion::Host && self.fits(MemRegion::Host, size) {
            return Some(MemRegion::Host);
        }
        None
    }

    /// Allocates a block under a name, in the place of one that has the name.
    pub fn allocate(&mut self, name: &str, size: usize, preferred_region: MemRegion) -> (r: Option<
        MemoryBlock,
    >)
        requires
            pool_wf(old(self)@),
            can_count(old(self)@, 1, size as nat),
        ensures
            pool_wf(final(self)@),
            final(self)@ == old(self)@.allocated(name@, size, preferred_region).0,
            match r {
                Some(b) => old(self)@.allocated(name@, size, preferred_region).1 == Some(b@),
                None => old(self)@.allocated(name@, size, preferred_region).1 is None,
            },
    {
        proof {
            lemma_counted(self@, name@, size, preferred_region, 0, 0);
        }
        let region = match self.select_region(size, preferred_region) {
            Some(region) => region,
            None => {
                return None;
            },
        };
        let ghost p = self@;
        self.stats.total_allocated = self.stats.total_allocated + size;
        self.stats.block_count = self.stats.block_count + 1;
        if self.stats.total_allocated > self.stats.peak_usage {
            self.stats.peak_usage = self.stats.total_allocated;
        }
        let block = MemoryBlock::new(name, size, region);
        let ghost q = self@;
        proof {
            assert(pool_named(q));
            lemma_renewed(q, block@, None);
        }
        let _ = self.blocks.remove(name);
        self.blocks.insert(name.to_string(), block.clone());
        assert(self@ =~= q.renewed(block@));
        Some(block)
    }

    /// A copy of the block with a name, which counts as a use of the block.
    pub fn get(&mut self, name: &str) -> (r: Option<MemoryBlock>)
        requires
            pool_wf(old(self)@),
        ensures
            pool_wf(final(self)@),
            final(self)@ == old(self)@.touched(name@),
            r is Some <==> old(self)@.blocks.contains_key(name@),
            r matches Some(b) ==> b@ == old(self)@.blocks[name@],
    {
        let ghost p = self@;
        match self.blocks.remove(name) {
            Some(block) => {
                proof {
                    lemma_renewed(p, p.blocks[name@], None);
                }
                self.blocks.insert(name.to_string(), block.clone());
                assert(self@ =~= p.touched(name@));
                Some(block)
            },
            None => {
                assert(self@ =~= p);
                None
            },
        }
    }

    /// Puts a block in the place of the one with its name, which has the same size and
    /// lies in the same region.
    pub fn replace_block(&mut self, block: MemoryBlock)
        requires
            pool_wf(old(self)@),
            old(self)@.blocks.contains_key(block.name@),
            old(self)@.blocks[block.name@].total_size == block.total_size,
            old(self)@.blocks[block.name@].region == block.region,
        ensures
            pool_wf(final(self)@),
            final(self)@ == (PoolView {
                blocks: old(self)@.blocks.insert(block.name@, block@),
                ..old(self)@
            }),
    {
        proof {
            lemma_with(self@, block@, None);
        }
        let name = block.name.clone();
        self.blocks.insert(name, block);
        assert(self@ =~= old(self)@.with(block@));
    }

    /// Gives up a reference to a block. Says whether it was the last, and the block is
    /// gone.
    pub fn release(&mut self, name: &str) -> (r: bool)
        requires
            pool_wf(old(self)@),
        ensures
            pool_wf(final(self)@),
            (final(self)@, r) == old(self)@.given_up(name@),
    {
        let ghost p = self@;
        let mut block = match self.blocks.get(name) {
            Some(b) => b.clone(),
            None => {
                return false;
            },
        };
        let freed: usize = block.total_size;
        let gone = block.release();
        if !gone {
            proof {
                lemma_with(p, block@, None);
            }
            self.blocks.insert(name.to_string(), block);
            assert(self@ =~= p.with(block@));
            return false;
        }
        proof {
            lemma_without(p, name@, None);
        }
        let _ = self.blocks.remove(name);
        assert(self@ =~= p.without(name@));
        self.stats.total_freed = self.stats.total_freed + freed;
        self.stats.block_count = self.blocks.len();
        true
    }

    pub fn stats(&self) -> (r: MemoryStats)
        ensures
            r == self@.stats,
    {
        self.stats
    }

    /// How many blocks the pool has.
    pub fn len(&self) -> (r: usize)
        ensures
            r == self@.names.len(),
    {
        self.blocks.len()
    }

    /// The name of a block, by its place.
    pub fn name_at(&self, i: usize) -> (r: String)
        requires
            i < self@.names.len(),
        ensures
            r@ == self@.names[i as int],
    {
        self.blocks.name_at(i).clone()
    }

    pub(crate) fn block_at(&self, i: usize) -> (r: &MemoryBlock)
        requires
            i < self@.names.len(),
        ensures
            r@ == self@.blocks[self@.names[i as int]],
    {
        self.blocks.value_at(i)
    }
}

} // verus!
