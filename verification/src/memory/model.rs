//! What the memory pool's operations do, over mathematical values.

use crate::memory::block::{block_of, BlockView, MemRegion};
use crate::memory::pool::MemoryStats;
use vstd::prelude::*;

verus! {

/// The pool's state. `names` are the names of the blocks, least recently used first. A
/// block is used when it is allocated or asked for.
#[verifier::ext_equal]
pub struct PoolView {
    pub blocks: Map<Seq<char>, BlockView>,
    pub names: Seq<Seq<char>>,
    pub stats: MemoryStats,
    pub host: u64,
    pub device: u64,
    pub unified: u64,
}

/// The bytes of a block, if it lies in the region that is asked for; any region
/// counts where none is.
pub open spec fn size_in(b: BlockView, region: Option<MemRegion>) -> nat {
    if region is None || region == Some(b.region) {
        b.total_size as nat
    } else {
        0
    }
}

/// The bytes of the given blocks in a region.
pub open spec fn bytes_in(
    names: Seq<Seq<char>>,
    m: Map<Seq<char>, BlockView>,
    region: Option<MemRegion>,
) -> nat
    decreases names.len(),
{
    if names.len() == 0 {
        0
    } else {
        bytes_in(names.drop_last(), m, region) + size_in(m[names.last()], region)
    }
}

/// The block can be evicted: it lies in the region, has bytes, and its first page has
/// the given number of references.
pub open spec fn evictable(b: BlockView, region: MemRegion, refs: int) -> bool {
    b.region == region && b.total_size > 0 && b.refs() == refs
}

impl PoolView {
    /// The capacity of a region.
    pub open spec fn capacity(self, region: MemRegion) -> u64 {
        match region {
            MemRegion::Host => self.host,
            MemRegion::Device => self.device,
            MemRegion::Unified => self.unified,
        }
    }

    /// The pool with another capacity of a region.
    pub open spec fn resized(self, region: MemRegion, bytes: u64) -> PoolView {
        match region {
            MemRegion::Host => PoolView { host: bytes, ..self },
            MemRegion::Device => PoolView { device: bytes, ..self },
            MemRegion::Unified => PoolView { unified: bytes, ..self },
        }
    }

    /// The bytes in use in a region.
    pub open spec fn used(self, region: MemRegion) -> nat {
        bytes_in(self.names, self.blocks, Some(region))
    }

    /// The bytes in use.
    pub open spec fn live(self) -> nat {
        bytes_in(self.names, self.blocks, None)
    }

    /// A region has room for that many more bytes.
    pub open spec fn has_room(self, region: MemRegion, size: usize) -> bool {
        self.used(region) + size <= self.capacity(region) || (size == 0)
    }

    /// The pool with a block under its name.
    pub open spec fn with(self, b: BlockView) -> PoolView {
        PoolView {
            blocks: self.blocks.insert(b.name, b),
            names: if self.blocks.contains_key(b.name) {
                self.names
            } else {
                self.names.push(b.name)
            },
            ..self
        }
    }

    /// The pool without a block.
    pub open spec fn without(self, name: Seq<char>) -> PoolView {
        PoolView {
            blocks: self.blocks.remove(name),
            names: if self.blocks.contains_key(name) {
                self.names.remove(self.names.index_of(name))
            } else {
                self.names
            },
            ..self
        }
    }

    /// The pool with a block under its name, used last.
    pub open spec fn renewed(self, b: BlockView) -> PoolView {
        self.without(b.name).with(b)
    }

    /// The pool once the block with a name, if there is one, is used.
    pub open spec fn touched(self, name: Seq<char>) -> PoolView {
        if self.blocks.contains_key(name) {
            self.renewed(self.blocks[name])
        } else {
            self
        }
    }

    /// The first place from `i` on of a block that can be evicted.
    pub open spec fn first_evictable(self, region: MemRegion, refs: int, i: int) -> Option<int>
        decreases self.names.len() - i,
    {
        if i < 0 || i >= self.names.len() {
            None
        } else if evictable(self.blocks[self.names[i]], region, refs) {
            Some(i)
        } else {
            self.first_evictable(region, refs, i + 1)
        }
    }

    /// The block that is evicted next: the least recently used without references, or
    /// else the least recently used with a single one.
    pub open spec fn victim(self, region: MemRegion) -> Option<int> {
        match self.first_evictable(region, 0, 0) {
            Some(i) => Some(i),
            None => self.first_evictable(region, 1, 0),
        }
    }

    /// Blocks are evicted one after the other until enough bytes are free or none can
    /// be evicted. Gives the pool, and the bytes and blocks evicted so far.
    pub open spec fn evict_until(self, region: MemRegion, needed: nat, freed: nat, count: nat) -> (
        PoolView,
        nat,
        nat,
    )
        decreases self.names.len(),
    {
        if freed >= needed {
            (self, freed, count)
        } else {
            match self.victim(region) {
                None => (self, freed, count),
                Some(i) => if 0 <= i < self.names.len() && self.blocks.contains_key(self.names[i])
                    && self.names.index_of(self.names[i]) == i {
                    self.without(self.names[i]).evict_until(
                        region,
                        needed,
                        freed + self.blocks[self.names[i]].total_size as nat,
                        count + 1,
                    )
                } else {
                    (self, freed, count)
                },
            }
        }
    }

    /// Blocks are evicted to free bytes. Gives the pool and the freed bytes.
    pub open spec fn evicted(self, needed: nat, region: MemRegion) -> (PoolView, nat) {
        let (p, freed, count) = self.evict_until(region, needed, 0, 0);
        (
            PoolView {
                stats: MemoryStats {
                    evictions: (self.stats.evictions + count) as usize,
                    total_freed: (self.stats.total_freed + freed) as usize,
                    block_count: p.names.len() as usize,
                    ..self.stats
                },
                ..p
            },
            freed,
        )
    }

    /// The bytes that are missing in a region.
    pub open spec fn shortage(self, region: MemRegion, size: usize) -> nat {
        let free = if self.capacity(region) >= self.used(region) {
            self.capacity(region) - self.used(region)
        } else {
            0
        };
        if size > free {
            (size - free) as nat
        } else {
            0
        }
    }

    /// Where bytes go: to the region asked for, if need be after blocks there are
    /// evicted; else to unified or to host memory, if there is room.
    pub open spec fn placed(self, size: usize, preferred: MemRegion) -> (
        PoolView,
        Option<MemRegion>,
    ) {
        if self.has_room(preferred, size) {
            (self, Some(preferred))
        } else {
            let (p, freed) = self.evicted(self.shortage(preferred, size), preferred);
            if freed > 0 && p.has_room(preferred, size) {
                (p, Some(preferred))
            } else if preferred != MemRegion::Unified && p.has_room(MemRegion::Unified, size) {
                (p, Some(MemRegion::Unified))
            } else if preferred != MemRegion::Host && p.has_room(MemRegion::Host, size) {
                (p, Some(MemRegion::Host))
            } else {
                (p, None)
            }
        }
    }

    /// A block is allocated, if there is a place for it.
    pub open spec fn allocated(self, name: Seq<char>, size: usize, preferred: MemRegion) -> (
        PoolView,
        Option<BlockView>,
    ) {
        let (p, place) = self.placed(size, preferred);
        match place {
            None => (p, None),
            Some(region) => {
                let b = block_of(name, size, region);
                let total = p.stats.total_allocated + size;
                (
                    (PoolView {
                        stats: MemoryStats {
                            total_allocated: total as usize,
                            block_count: (p.stats.block_count + 1) as usize,
                            peak_usage: (if total > p.stats.peak_usage {
                                total
                            } else {
                                p.stats.peak_usage as int
                            }) as usize,
                            ..p.stats
                        },
                        ..p
                    }).renewed(b),
                    Some(b),
                )
            },
        }
    }

    /// A reference to a block is given up. The block goes with the last one.
    pub open spec fn given_up(self, name: Seq<char>) -> (PoolView, bool) {
        if !self.blocks.contains_key(name) {
            (self, false)
        } else {
            let b = self.blocks[name].unshared();
            if b.unused() {
                let p = self.without(name);
                (
                    PoolView {
                        stats: MemoryStats {
                            total_freed: (self.stats.total_freed + b.total_size) as usize,
                            block_count: p.names.len() as usize,
                            ..self.stats
                        },
                        ..p
                    },
                    true,
                )
            } else {
                (PoolView { blocks: self.blocks.insert(name, b), ..self }, false)
            }
        }
    }
}

/// What holds of every pool: blocks are known by their names, bytes that are in use or
/// were freed were allocated, and no block is counted where there is none.
pub open spec fn pool_wf(p: PoolView) -> bool {
    &&& p.names.no_duplicates()
    &&& forall|k: Seq<char>| #[trigger] p.names.contains(k) <==> p.blocks.contains_key(k)
    &&& forall|k: Seq<char>| #[trigger] p.blocks.contains_key(k) ==> p.blocks[k].name == k
    &&& p.live() + p.stats.total_freed <= p.stats.total_allocated
    &&& p.stats.evictions <= p.stats.total_freed
    &&& p.names.len() == 0 ==> p.stats.block_count == 0
}

/// No page of a block is referred to more than once.
pub open spec fn is_sole(b: BlockView) -> bool {
    forall|i: int| 0 <= i < b.pages.len() ==> (#[trigger] b.pages[i]).ref_count <= 1
}

/// No block of a pool is shared.
pub open spec fn never_shared(p: PoolView) -> bool {
    forall|k: Seq<char>| #[trigger] p.blocks.contains_key(k) ==> is_sole(p.blocks[k])
}

pub proof fn lemma_bytes_prefix(
    names: Seq<Seq<char>>,
    m: Map<Seq<char>, BlockView>,
    region: Option<MemRegion>,
    n: int,
)
    requires
        0 <= n <= names.len(),
    ensures
        bytes_in(names.take(n), m, region) <= bytes_in(names, m, region),
    decreases names.len(),
{
    if n == names.len() {
        assert(names.take(n) =~= names);
    } else {
        assert(names.drop_last().take(n) =~= names.take(n));
        lemma_bytes_prefix(names.drop_last(), m, region, n);
    }
}

pub proof fn lemma_region_within(
    names: Seq<Seq<char>>,
    m: Map<Seq<char>, BlockView>,
    region: Option<MemRegion>,
)
    ensures
        bytes_in(names, m, region) <= bytes_in(names, m, None),
    decreases names.len(),
{
    if names.len() > 0 {
        lemma_region_within(names.drop_last(), m, region);
    }
}

proof fn lemma_bytes_same(
    names: Seq<Seq<char>>,
    m: Map<Seq<char>, BlockView>,
    other: Map<Seq<char>, BlockView>,
    region: Option<MemRegion>,
)
    requires
        forall|i: int|
            0 <= i < names.len() ==> size_in(m[#[trigger] names[i]], region) == size_in(
                other[names[i]],
                region,
            ),
    ensures
        bytes_in(names, m, region) == bytes_in(names, other, region),
    decreases names.len(),
{
    if names.len() > 0 {
        let init = names.drop_last();
        assert forall|i: int| 0 <= i < init.len() implies size_in(m[#[trigger] init[i]], region)
            == size_in(other[init[i]], region) by {
            assert(init[i] == names[i]);
        }
        lemma_bytes_same(init, m, other, region);
    }
}

proof fn lemma_bytes_remove(
    names: Seq<Seq<char>>,
    m: Map<Seq<char>, BlockView>,
    region: Option<MemRegion>,
    i: int,
)
    requires
        0 <= i < names.len(),
    ensures
        bytes_in(names, m, region) == bytes_in(names.remove(i), m, region) + size_in(
            m[names[i]],
            region,
        ),
    decreases names.len(),
{
    let init = names.drop_last();
    if i == names.len() - 1 {
        assert(names.remove(i) =~= init);
    } else {
        lemma_bytes_remove(init, m, region, i);
        assert(names.remove(i).drop_last() =~= init.remove(i));
        assert(names.remove(i).last() == names.last());
    }
}

/// Names stay in step with the blocks, and each block counts once.
pub open spec fn pool_named(p: PoolView) -> bool {
    &&& p.names.no_duplicates()
    &&& forall|k: Seq<char>| #[trigger] p.names.contains(k) <==> p.blocks.contains_key(k)
    &&& forall|k: Seq<char>| #[trigger] p.blocks.contains_key(k) ==> p.blocks[k].name == k
}

/// A block that goes takes its bytes with it.
pub proof fn lemma_without(p: PoolView, name: Seq<char>, region: Option<MemRegion>)
    requires
        pool_named(p),
        p.blocks.contains_key(name),
    ensures
        pool_named(p.without(name)),
        p.without(name).names.len() == p.names.len() - 1,
        bytes_in(p.without(name).names, p.without(name).blocks, region) + size_in(
            p.blocks[name],
            region,
        ) == bytes_in(p.names, p.blocks, region),
{
    let q = p.without(name);
    assert(p.names.contains(name));
    let i = p.names.index_of(name);
    lemma_bytes_remove(p.names, p.blocks, region, i);
    assert forall|j: int| 0 <= j < q.names.len() implies (#[trigger] q.names[j]) != name
        && q.names[j] == p.names[if j < i {
        j
    } else {
        j + 1
    }] by {
        assert(p.names[if j < i {
            j
        } else {
            j + 1
        }] != p.names[i]);
    }
    assert forall|j: int| 0 <= j < q.names.len() implies size_in(
        p.blocks[#[trigger] q.names[j]],
        region,
    ) == size_in(q.blocks[q.names[j]], region) by {
        assert(q.names[j] != name);
    }
    lemma_bytes_same(q.names, p.blocks, q.blocks, region);
    assert forall|k: Seq<char>| #[trigger] q.names.contains(k) <==> q.blocks.contains_key(k) by {
        if q.names.contains(k) {
            let j = q.names.index_of(k);
            assert(q.names[j] != name);
            assert(p.names.contains(p.names[if j < i {
                j
            } else {
                j + 1
            }]));
        }
        if q.blocks.contains_key(k) {
            assert(p.names.contains(k));
            let j = p.names.index_of(k);
            assert(q.names[if j < i {
                j
            } else {
                j - 1
            }] == k);
        }
    }
    assert(q.names.no_duplicates());
}

/// A block that comes brings its bytes, and takes those of the one it replaces.
pub proof fn lemma_with(p: PoolView, b: BlockView, region: Option<MemRegion>)
    requires
        pool_named(p),
    ensures
        pool_named(p.with(b)),
        bytes_in(p.with(b).names, p.with(b).blocks, region) + (if p.blocks.contains_key(b.name) {
            size_in(p.blocks[b.name], region)
        } else {
            0
        }) == bytes_in(p.names, p.blocks, region) + size_in(b, region),
{
    let q = p.with(b);
    let k = b.name;
    if p.blocks.contains_key(k) {
        assert(p.names.contains(k));
        let i = p.names.index_of(k);
        lemma_bytes_remove(p.names, p.blocks, region, i);
        lemma_bytes_remove(p.names, q.blocks, region, i);
        let rest = p.names.remove(i);
        assert forall|j: int| 0 <= j < rest.len() implies size_in(
            p.blocks[#[trigger] rest[j]],
            region,
        ) == size_in(q.blocks[rest[j]], region) by {
            let s = if j < i {
                j
            } else {
                j + 1
            };
            assert(rest[j] == p.names[s]);
            assert(p.names[s] != p.names[i]);
        }
        lemma_bytes_same(rest, p.blocks, q.blocks, region);
    } else {
        assert(q.names.drop_last() =~= p.names);
        assert forall|j: int| 0 <= j < p.names.len() implies size_in(
            p.blocks[#[trigger] p.names[j]],
            region,
        ) == size_in(q.blocks[p.names[j]], region) by {
            assert(p.names.contains(p.names[j]));
        }
        lemma_bytes_same(p.names, p.blocks, q.blocks, region);
        assert forall|x: Seq<char>| #[trigger] q.names.contains(x) <==> q.blocks.contains_key(x) by {
            if q.names.contains(x) {
                let j = q.names.index_of(x);
                if j < p.names.len() {
                    assert(p.names[j] == x);
                    assert(p.names.contains(x));
                }
            }
            if q.blocks.contains_key(x) {
                if x == k {
                    assert(q.names[p.names.len() as int] == k);
                } else {
                    assert(p.names.contains(x));
                    assert(q.names[p.names.index_of(x)] == x);
                }
            }
        }
        assert(q.names.no_duplicates()) by {
            assert forall|i: int, j: int|
                0 <= i < q.names.len() && 0 <= j < q.names.len() && i != j implies q.names[i]
                != q.names[j] by {
                if i < p.names.len() {
                    assert(p.names.contains(p.names[i]));
                }
                if j < p.names.len() {
                    assert(p.names.contains(p.names[j]));
                }
            }
        }
    }
}

/// A block that is used last brings its bytes, and takes those of the one it replaces.
pub proof fn lemma_renewed(p: PoolView, b: BlockView, region: Option<MemRegion>)
    requires
        pool_named(p),
    ensures
        pool_named(p.renewed(b)),
        p.renewed(b).names.len() <= p.names.len() + 1,
        p.renewed(b).names.len() > 0,
        p.renewed(b).names.last() == b.name,
        bytes_in(p.renewed(b).names, p.renewed(b).blocks, region) + (if p.blocks.contains_key(
            b.name,
        ) {
            size_in(p.blocks[b.name], region)
        } else {
            0
        }) == bytes_in(p.names, p.blocks, region) + size_in(b, region),
{
    if p.blocks.contains_key(b.name) {
        lemma_without(p, b.name, region);
    } else {
        assert(p.without(b.name) =~= p);
    }
    lemma_with(p.without(b.name), b, region);
}

/// The place of a block that can be evicted is the first such place.
pub proof fn lemma_first_evictable(p: PoolView, region: MemRegion, refs: int, i: int)
    requires
        0 <= i,
    ensures
        match p.first_evictable(region, refs, i) {
            Some(j) => i <= j < p.names.len() && evictable(p.blocks[p.names[j]], region, refs),
            None => forall|j: int|
                i <= j < p.names.len() ==> !evictable(
                    p.blocks[#[trigger] p.names[j]],
                    region,
                    refs,
                ),
        },
    decreases p.names.len() - i,
{
    if i < p.names.len() && !evictable(p.blocks[p.names[i]], region, refs) {
        lemma_first_evictable(p, region, refs, i + 1);
    }
}

/// Eviction takes bytes out of use, one or more with each block, and keeps the pool in
/// step. It leaves the region alone once enough is free.
pub proof fn lemma_evict_until(p: PoolView, region: MemRegion, needed: nat, freed: nat, count: nat)
    requires
        pool_named(p),
    ensures
        ({
            let (q, f, c) = p.evict_until(region, needed, freed, count);
            &&& pool_named(q)
            &&& q.live() + f == p.live() + freed
            &&& q.used(region) + f == p.used(region) + freed
            &&& f - freed >= c - count >= 0
            &&& q.names.len() <= p.names.len()
            &&& q.stats == p.stats
            &&& q.host == p.host
            &&& q.device == p.device
            &&& q.unified == p.unified
        }),
    decreases p.names.len(),
{
    if freed < needed && p.victim(region) is Some {
        let i = p.victim(region)->0;
        lemma_first_evictable(p, region, 0, 0);
        lemma_first_evictable(p, region, 1, 0);
        let name = p.names[i];
        assert(p.names.contains(name));
        assert(p.names.index_of(name) == i);
        lemma_without(p, name, None);
        lemma_without(p, name, Some(region));
        lemma_evict_until(
            p.without(name),
            region,
            needed,
            freed + p.blocks[name].total_size as nat,
            count + 1,
        );
    }
}

/// Eviction only takes blocks out.
pub proof fn lemma_evict_subset(p: PoolView, region: MemRegion, needed: nat, freed: nat, count: nat)
    ensures
        ({
            let q = p.evict_until(region, needed, freed, count).0;
            forall|k: Seq<char>| #[trigger]
                q.blocks.contains_key(k) ==> p.blocks.contains_key(k) && q.blocks[k]
                    == p.blocks[k]
        }),
    decreases p.names.len(),
{
    if freed < needed && p.victim(region) is Some {
        let i = p.victim(region)->0;
        if 0 <= i < p.names.len() && p.blocks.contains_key(p.names[i]) && p.names.index_of(
            p.names[i],
        ) == i {
            let name = p.names[i];
            let rest = p.without(name);
            lemma_evict_subset(
                rest,
                region,
                needed,
                freed + p.blocks[name].total_size as nat,
                count + 1,
            );
            let q = p.evict_until(region, needed, freed, count).0;
            assert(q == rest.evict_until(
                region,
                needed,
                freed + p.blocks[name].total_size as nat,
                count + 1,
            ).0);
            assert forall|k: Seq<char>| #[trigger] q.blocks.contains_key(k) implies
                p.blocks.contains_key(k) && q.blocks[k] == p.blocks[k] by {
                assert(rest.blocks.contains_key(k));
            }
        }
    }
}

/// Eviction adds no bytes to any region.
pub proof fn lemma_evict_shrinks(
    p: PoolView,
    region: MemRegion,
    needed: nat,
    freed: nat,
    count: nat,
    other: MemRegion,
)
    requires
        pool_named(p),
    ensures
        p.evict_until(region, needed, freed, count).0.used(other) <= p.used(other),
    decreases p.names.len(),
{
    if freed < needed && p.victim(region) is Some {
        let i = p.victim(region)->0;
        lemma_first_evictable(p, region, 0, 0);
        lemma_first_evictable(p, region, 1, 0);
        let name = p.names[i];
        assert(p.names.contains(name));
        assert(p.names.index_of(name) == i);
        lemma_without(p, name, Some(other));
        lemma_evict_shrinks(
            p.without(name),
            region,
            needed,
            freed + p.blocks[name].total_size as nat,
            count + 1,
            other,
        );
    }
}

/// Eviction keeps a pool well-formed and frees what it says.
pub proof fn lemma_evicted(p: PoolView, needed: nat, region: MemRegion)
    requires
        pool_wf(p),
    ensures
        pool_wf(p.evicted(needed, region).0),
        p.evicted(needed, region).0.used(region) + p.evicted(needed, region).1 == p.used(region),
        p.stats.total_freed + p.evicted(needed, region).1 <= usize::MAX,
        p.evicted(needed, region).0.stats.total_allocated == p.stats.total_allocated,
        p.evicted(needed, region).0.names.len() <= p.names.len(),
        p.evicted(needed, region).0.host == p.host,
        p.evicted(needed, region).0.device == p.device,
        p.evicted(needed, region).0.unified == p.unified,
{
    lemma_evict_until(p, region, needed, 0, 0);
}

/// There is room in the counters for that many more blocks and bytes.
pub open spec fn can_count(p: PoolView, blocks: nat, bytes: nat) -> bool {
    &&& p.stats.block_count + blocks <= usize::MAX
    &&& p.names.len() + blocks <= usize::MAX
    &&& p.stats.total_allocated + bytes <= usize::MAX
}

/// An allocation takes the room of one block, and of its bytes, in the counters.
pub proof fn lemma_counted(
    p: PoolView,
    name: Seq<char>,
    size: usize,
    preferred: MemRegion,
    blocks: nat,
    bytes: nat,
)
    requires
        pool_wf(p),
        can_count(p, blocks + 1, bytes + size as nat),
    ensures
        can_count(p.placed(size, preferred).0, blocks + 1, bytes + size as nat),
        can_count(p.allocated(name, size, preferred).0, blocks, bytes),
{
    lemma_evicted(p, p.shortage(preferred, size), preferred);
    let (q, place) = p.placed(size, preferred);
    if place is Some {
        let b = block_of(name, size, place->0);
        lemma_renewed(q, b, None);
        assert(p.allocated(name, size, preferred).0.names == q.renewed(b).names);
    }
}

/// A block that is allocated fits: the bytes in use in its region do not exceed the
/// region's capacity, unless the block has no bytes.
pub proof fn allocation_fits(p: PoolView, name: Seq<char>, size: usize, preferred: MemRegion)
    requires
        pool_wf(p),
        size > 0,
    ensures
        match p.allocated(name, size, preferred) {
            (q, Some(b)) => q.used(b.region) <= q.capacity(b.region),
            (q, None) => true,
        },
{
    let (q, place) = p.placed(size, preferred);
    lemma_evicted(p, p.shortage(preferred, size), preferred);
    match place {
        Some(region) => {
            let b = block_of(name, size, region);
            lemma_renewed(q, b, Some(region));
            let r = p.allocated(name, size, preferred).0;
            assert(r.used(region) <= q.used(region) + size);
        },
        None => {},
    }
}

/// A block that was used last is evicted after all others of its region that have no
/// more references.
pub proof fn used_last_is_evicted_last(p: PoolView, name: Seq<char>)
    requires
        pool_wf(p),
        p.blocks.contains_key(name),
    ensures
        ({
            let q = p.touched(name);
            let region = p.blocks[name].region;
            &&& q.blocks == p.blocks
            &&& q.victim(region) matches Some(i) ==> q.names[i] == name ==> forall|k: Seq<char>|
                #[trigger]
                p.blocks.contains_key(k) && k != name && p.blocks[k].region == region
                    && p.blocks[k].total_size > 0 ==> p.blocks[k].refs() > p.blocks[name].refs()
        }),
{
    let q = p.touched(name);
    let region = p.blocks[name].region;
    lemma_renewed(p, p.blocks[name], None);
    assert(q.blocks =~= p.blocks);
    lemma_first_evictable(q, region, 0, 0);
    lemma_first_evictable(q, region, 1, 0);
    if q.victim(region) is Some && q.names[q.victim(region)->0] == name {
        let refs = p.blocks[name].refs();
        let i = q.victim(region)->0;
        assert(q.names[q.names.len() - 1] == name);
        assert(i == q.names.len() - 1);
        lemma_first_ahead(q, region, refs, 0);
        assert forall|k: Seq<char>|
            #[trigger]
            p.blocks.contains_key(k) && k != name && p.blocks[k].region == region
                && p.blocks[k].total_size > 0 implies p.blocks[k].refs() > refs by {
            assert(q.names.contains(k));
            let j = q.names.index_of(k);
            assert(q.names[j] == k);
        }
    }
}

/// No block ahead of the first that can be evicted can be.
proof fn lemma_first_ahead(p: PoolView, region: MemRegion, refs: int, i: int)
    requires
        0 <= i,
    ensures
        p.first_evictable(region, refs, i) matches Some(j) ==> forall|k: int|
            i <= k < j ==> !evictable(p.blocks[#[trigger] p.names[k]], region, refs),
    decreases p.names.len() - i,
{
    if i < p.names.len() && !evictable(p.blocks[p.names[i]], region, refs) {
        lemma_first_ahead(p, region, refs, i + 1);
    }
}

/// A new block is not shared, so a pool stays unshared when one is allocated.
pub proof fn lemma_allocated_unshared(
    p: PoolView,
    name: Seq<char>,
    size: usize,
    preferred: MemRegion,
)
    requires
        never_shared(p),
    ensures
        never_shared(p.allocated(name, size, preferred).0),
{
    lemma_evict_subset(p, preferred, p.shortage(preferred, size), 0, 0);
    let q = p.allocated(name, size, preferred).0;
    assert forall|k: Seq<char>| #[trigger] q.blocks.contains_key(k) implies is_sole(
        q.blocks[k],
    ) by {
        if p.placed(size, preferred).1 is Some && k == name {
        } else {
            assert(p.blocks.contains_key(k));
        }
    }
}

/// A pool stays unshared when a reference is given up.
pub proof fn lemma_given_up_unshared(p: PoolView, name: Seq<char>)
    requires
        never_shared(p),
    ensures
        never_shared(p.given_up(name).0),
{
    let q = p.given_up(name).0;
    assert forall|k: Seq<char>| #[trigger] q.blocks.contains_key(k) implies is_sole(
        q.blocks[k],
    ) by {
        assert(p.blocks.contains_key(k));
    }
}

/// A block that is not shared goes with its bytes.
pub proof fn lemma_sole_goes(p: PoolView, name: Seq<char>)
    requires
        pool_wf(p),
        never_shared(p),
        p.blocks.contains_key(name),
        p.names.len() <= usize::MAX,
    ensures
        ({
            let q = p.given_up(name).0;
            &&& pool_wf(q)
            &&& never_shared(q)
            &&& q.blocks == p.blocks.remove(name)
            &&& q.names == p.names.remove(p.names.index_of(name))
            &&& q.live() + q.stats.total_freed == p.live() + p.stats.total_freed
            &&& q.stats.block_count == q.names.len()
        }),
{
    let b = p.blocks[name].unshared();
    assert(b.unused()) by {
        assert forall|i: int| 0 <= i < b.pages.len() implies (#[trigger] b.pages[i]).ref_count
            == 0 by {
            assert(p.blocks[name].pages[i].ref_count <= 1);
        }
    }
    assert(p.names.contains(name));
    lemma_without(p, name, None);
    lemma_given_up_unshared(p, name);
}

} // verus!
