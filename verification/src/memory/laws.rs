//! Which allocations succeed, what is evicted for them, and what is given up.

use crate::memory::block::{block_of, BlockView, MemRegion};
use crate::memory::model::{
    evictable, lemma_evict_until, lemma_first_evictable, pool_named, pool_wf, PoolView,
};
use crate::memory::pool::new_pool;
use crate::memory::report::{block_line, pool_report};
use crate::memory::size::{double_spacing, in_units, nearest_double, round_half_even, size_text};
use crate::memory::unified::{kv_name, new_unified};
use crate::text::{decimal, digit_char};
use crate::text_laws::decimal_stands_for_number;
use vstd::prelude::*;

verus! {

/// The bytes of a pool's blocks in a region.
pub open spec fn bytes_of(names: Seq<Seq<char>>, blocks: Map<Seq<char>, BlockView>, region: MemRegion) -> int
    decreases names.len(),
{
    if names.len() == 0 {
        0
    } else {
        bytes_of(names.drop_last(), blocks, region) + if blocks[names.last()].region == region {
            blocks[names.last()].total_size as int
        } else {
            0
        }
    }
}

proof fn lemma_bytes_of(names: Seq<Seq<char>>, blocks: Map<Seq<char>, BlockView>, region: MemRegion)
    ensures
        crate::memory::model::bytes_in(names, blocks, Some(region)) == bytes_of(
            names,
            blocks,
            region,
        ),
    decreases names.len(),
{
    if names.len() > 0 {
        lemma_bytes_of(names.drop_last(), blocks, region);
    }
}

/// The bytes in use in a region are those of its blocks.
pub proof fn regions_use_their_blocks(p: PoolView, region: MemRegion)
    ensures
        p.used(region) == bytes_of(p.names, p.blocks, region),
{
    lemma_bytes_of(p.names, p.blocks, region);
}

/// A block for which the region that was asked for has room is allocated there, and no
/// other block is touched.
pub proof fn room_is_used(p: PoolView, name: Seq<char>, size: usize, region: MemRegion)
    requires
        pool_wf(p),
        p.stats.total_allocated + size <= usize::MAX,
        bytes_of(p.names, p.blocks, region) + size <= p.capacity(region),
    ensures
        ({
            let (q, b) = p.allocated(name, size, region);
            &&& b matches Some(b) && b.region == region && b.total_size == size && b.name == name
            &&& q.blocks == p.blocks.insert(name, b->0)
            &&& q.stats.evictions == p.stats.evictions
            &&& q.stats.total_freed == p.stats.total_freed
            &&& q.stats.total_allocated == p.stats.total_allocated + size
        }),
{
    lemma_bytes_of(p.names, p.blocks, region);
    let q = p.allocated(name, size, region).0;
    assert(q.blocks =~= p.blocks.insert(name, block_of(name, size, region)));
}

/// An allocation is refused only where, with all blocks evicted that can be for it, neither
/// the region that was asked for nor unified nor host memory has room.
pub proof fn refused_blocks_fit_nowhere(p: PoolView, name: Seq<char>, size: usize, region: MemRegion)
    requires
        pool_wf(p),
        p.allocated(name, size, region).1 is None,
    ensures
        ({
            let q = p.allocated(name, size, region).0;
            &&& bytes_of(q.names, q.blocks, region) + size > q.capacity(region)
            &&& bytes_of(q.names, q.blocks, MemRegion::Unified) + size > q.capacity(
                MemRegion::Unified,
            )
            &&& bytes_of(q.names, q.blocks, MemRegion::Host) + size > q.capacity(MemRegion::Host)
            &&& bytes_of(p.names, p.blocks, region) <= p.capacity(region) ==> forall|k: Seq<char>|
             #[trigger]
                q.blocks.contains_key(k) && q.blocks[k].region == region && q.blocks[k].refs() <= 1
                    ==> q.blocks[k].total_size == 0
        }),
{
    let (q, b) = p.allocated(name, size, region);
    let needed = p.shortage(region, size);
    let (e, f, c) = p.evict_until(region, needed, 0, 0);
    lemma_evict_until(p, region, needed, 0, 0);
    lemma_bytes_of(p.names, p.blocks, region);
    lemma_bytes_of(q.names, q.blocks, region);
    lemma_bytes_of(q.names, q.blocks, MemRegion::Unified);
    lemma_bytes_of(q.names, q.blocks, MemRegion::Host);
    assert(q.used(region) == e.used(region));
    assert(e.used(region) + f == p.used(region));
    assert(!q.has_room(region, size)) by {
        if f == 0 {
            assert(q.used(region) == p.used(region));
        }
    }
    lemma_evict_all(p, region, needed, 0, 0);
    assert(p.used(region) <= p.capacity(region) ==> f < needed) by {
        if p.used(region) <= p.capacity(region) && f >= needed {
            assert(e.used(region) + size <= q.capacity(region));
        }
    }
    assert forall|k: Seq<char>| #[trigger]
        q.blocks.contains_key(k) && q.blocks[k].region == region && q.blocks[k].refs() <= 1
            && p.used(region) <= p.capacity(region) implies q.blocks[k].total_size == 0 by {
        assert(e.blocks.contains_key(k));
        lemma_no_victim(e, region, k);
    }
}

/// Where not enough bytes came free, no block is left that can be evicted.
proof fn lemma_evict_all(p: PoolView, region: MemRegion, needed: nat, freed: nat, count: nat)
    requires
        pool_named(p),
    ensures
        ({
            let (q, f, c) = p.evict_until(region, needed, freed, count);
            f < needed ==> q.victim(region) is None
        }),
    decreases p.names.len(),
{
    if freed < needed && p.victim(region) is Some {
        let i = p.victim(region)->0;
        lemma_first_evictable(p, region, 0, 0);
        lemma_first_evictable(p, region, 1, 0);
        let name = p.names[i];
        assert(p.names.contains(name));
        assert(p.names.index_of(name) == i);
        crate::memory::model::lemma_without(p, name, None);
        lemma_evict_all(
            p.without(name),
            region,
            needed,
            freed + p.blocks[name].total_size as nat,
            count + 1,
        );
    }
}

proof fn lemma_no_victim(p: PoolView, region: MemRegion, k: Seq<char>)
    requires
        pool_named(p),
        p.victim(region) is None,
        p.blocks.contains_key(k),
        p.blocks[k].region == region,
        p.blocks[k].refs() <= 1,
    ensures
        p.blocks[k].total_size == 0,
{
    lemma_first_evictable(p, region, 0, 0);
    lemma_first_evictable(p, region, 1, 0);
    assert(p.names.contains(k));
    let i = p.names.index_of(k);
    assert(p.names[i] == k);
    assert(!evictable(p.blocks[p.names[i]], region, 0));
    assert(!evictable(p.blocks[p.names[i]], region, 1));
}

proof fn lemma_evict_spares(
    p: PoolView,
    region: MemRegion,
    needed: nat,
    freed: nat,
    count: nat,
    k: Seq<char>,
)
    requires
        pool_named(p),
        p.blocks.contains_key(k),
        p.blocks[k].region != region || p.blocks[k].refs() > 1,
    ensures
        ({
            let q = p.evict_until(region, needed, freed, count).0;
            q.blocks.contains_key(k) && q.blocks[k] == p.blocks[k]
        }),
    decreases p.names.len(),
{
    if freed < needed && p.victim(region) is Some {
        let i = p.victim(region)->0;
        lemma_first_evictable(p, region, 0, 0);
        lemma_first_evictable(p, region, 1, 0);
        let name = p.names[i];
        assert(p.names.contains(name));
        assert(p.names.index_of(name) == i);
        assert(name != k);
        crate::memory::model::lemma_without(p, name, None);
        lemma_evict_spares(
            p.without(name),
            region,
            needed,
            freed + p.blocks[name].total_size as nat,
            count + 1,
            k,
        );
    }
}

/// Eviction spares blocks of other regions, and blocks that are shared.
pub proof fn shared_blocks_are_spared(p: PoolView, region: MemRegion, needed: nat, k: Seq<char>)
    requires
        pool_wf(p),
        p.blocks.contains_key(k),
        p.blocks[k].region != region || p.blocks[k].refs() > 1,
    ensures
        p.evicted(needed, region).0.blocks.contains_key(k),
        p.evicted(needed, region).0.blocks[k] == p.blocks[k],
{
    lemma_evict_spares(p, region, needed, 0, 0, k);
}

/// Eviction goes on until enough bytes are free or no block is left that can be evicted,
/// stops as soon as there are enough, and tells the bytes that came free.
pub proof fn eviction_frees_enough(p: PoolView, region: MemRegion, needed: nat)
    requires
        pool_wf(p),
    ensures
        needed == 0 ==> p.evicted(needed, region).0.blocks == p.blocks && p.evicted(
            needed,
            region,
        ).1 == 0,
        p.evicted(needed, region).1 >= needed || forall|k: Seq<char>| #[trigger]
            p.evicted(needed, region).0.blocks.contains_key(k) && p.evicted(
                needed,
                region,
            ).0.blocks[k].region == region && p.evicted(needed, region).0.blocks[k].refs() <= 1
                ==> p.evicted(needed, region).0.blocks[k].total_size == 0,
        p.evicted(needed, region).1 == bytes_of(p.names, p.blocks, region) - bytes_of(
            p.evicted(needed, region).0.names,
            p.evicted(needed, region).0.blocks,
            region,
        ),
{
    let (e, f, c) = p.evict_until(region, needed, 0, 0);
    let q = p.evicted(needed, region).0;
    lemma_evict_until(p, region, needed, 0, 0);
    lemma_evict_all(p, region, needed, 0, 0);
    lemma_bytes_of(p.names, p.blocks, region);
    lemma_bytes_of(q.names, q.blocks, region);
    if f < needed {
        assert forall|k: Seq<char>| #[trigger]
            q.blocks.contains_key(k) && q.blocks[k].region == region && q.blocks[k].refs()
                <= 1 implies q.blocks[k].total_size == 0 by {
            assert(e.blocks.contains_key(k));
            lemma_no_victim(e, region, k);
        }
    }
}

/// A block goes with the last reference to it, its bytes are then counted as freed, and
/// no other block changes.
pub proof fn last_reference_frees(p: PoolView, name: Seq<char>, k: Seq<char>)
    requires
        pool_wf(p),
        p.blocks.contains_key(name),
        forall|i: int|
            0 <= i < p.blocks[name].pages.len() ==> (#[trigger] p.blocks[name].pages[i]).ref_count
                <= 1,
        k != name,
    ensures
        p.given_up(name).1,
        !p.given_up(name).0.blocks.contains_key(name),
        p.given_up(name).0.stats.total_freed == p.stats.total_freed + p.blocks[name].total_size
            || p.stats.total_freed + p.blocks[name].total_size > usize::MAX,
        p.given_up(name).0.blocks.contains_key(k) <==> p.blocks.contains_key(k),
        p.blocks.contains_key(k) ==> p.given_up(name).0.blocks[k] == p.blocks[k],
{
    let b = p.blocks[name].unshared();
    assert(b.unused()) by {
        assert forall|i: int| 0 <= i < b.pages.len() implies (#[trigger] b.pages[i]).ref_count
            == 0 by {
            assert(p.blocks[name].pages[i].ref_count <= 1);
        }
    }
}

/// A block with more references stays, with one less, and nothing is counted as freed.
pub proof fn other_references_keep(p: PoolView, name: Seq<char>, i: int)
    requires
        p.blocks.contains_key(name),
        0 <= i < p.blocks[name].pages.len(),
        p.blocks[name].pages[i].ref_count > 1,
    ensures
        !p.given_up(name).1,
        p.given_up(name).0.blocks.contains_key(name),
        p.given_up(name).0.blocks[name].pages[i].ref_count == p.blocks[name].pages[i].ref_count
            - 1,
        p.given_up(name).0.blocks[name].total_size == p.blocks[name].total_size,
        p.given_up(name).0.stats == p.stats,
{
    let b = p.blocks[name].unshared();
    assert(b.pages[i].ref_count == p.blocks[name].pages[i].ref_count - 1);
    assert(!b.unused());
}

/// Giving up what is not there does nothing.
pub proof fn unknown_names_are_not_given_up(p: PoolView, name: Seq<char>)
    requires
        !p.blocks.contains_key(name),
    ensures
        p.given_up(name) == (p, false),
{
}

/// A block is made of pages that follow each other, each full but the last.
pub proof fn blocks_are_made_of_pages(name: Seq<char>, size: usize, region: MemRegion, i: int)
    requires
        0 <= i < block_of(name, size, region).pages.len(),
    ensures
        ({
            let pages = block_of(name, size, region).pages;
            &&& pages[i].offset == 4096 * i
            &&& 0 < pages[i].size <= 4096
            &&& i + 1 < pages.len() ==> pages[i].size == 4096
            &&& i + 1 == pages.len() ==> pages[i].offset + pages[i].size == size
            &&& pages[i].ref_count == 1
            &&& pages[i].region == region
            &&& pages[i].id == i
        }),
        size == 0 <==> block_of(name, size, region).pages.len() == 0,
{
}

/// Sizes are told in the greatest unit of which there is one, with the nearest hundredth:
/// as long as the bytes can be told apart, the number that is told is no further from
/// them than half a hundredth of the unit.
pub proof fn sizes_are_told_to_hundredths(bytes: nat, unit: nat, h: nat)
    requires
        bytes < 0x20_0000_0000_0000,
        unit > 0,
        2 * (100 * bytes - h * unit) < unit,
        2 * (h * unit - 100 * bytes) < unit,
    ensures
        in_units(bytes, unit) == decimal(h / 100) + "."@ + seq![
            digit_char(h % 100 / 10),
            digit_char(h % 10),
        ],
{
    reveal_strlit(".");
    assert("."@ =~= seq!['.']);
    assert(double_spacing(bytes) == 1);
    assert(round_half_even(bytes, 1) == bytes);
    assert(nearest_double(bytes) == bytes);
    let n = bytes * 100;
    let (q, r) = ((n / unit) as int, (n % unit) as int);
    vstd::arithmetic::div_mod::lemma_fundamental_div_mod(n as int, unit as int);
    vstd::arithmetic::div_mod::lemma_mod_bound(n as int, unit as int);
    assert(q * unit == unit * q && (q + 1) * unit == unit * q + unit) by (nonlinear_arith);
    if h < q {
        assert(h * unit + unit <= q * unit) by (nonlinear_arith)
            requires
                h + 1 <= q,
        ;
    } else if h > q + 1 {
        assert((q + 1) * unit + unit <= h * unit) by (nonlinear_arith)
            requires
                h >= q + 2,
        ;
    }
    assert(h == q || h == q + 1);
    assert(round_half_even(n, unit) == h);
    assert(h % 100 % 10 == h % 10);
}

/// The unit of a size: bytes below one kilobyte, and else the greatest that fits into it.
pub proof fn sizes_have_units(bytes: nat)
    ensures
        bytes < 1024 ==> size_text(bytes) == decimal(bytes) + " B"@,
        1024 <= bytes < 1024 * 1024 ==> size_text(bytes) == in_units(bytes, 1024) + " KB"@,
        1024 * 1024 <= bytes < 1024 * 1024 * 1024 ==> size_text(bytes) == in_units(
            bytes,
            1024 * 1024,
        ) + " MB"@,
        bytes >= 1024 * 1024 * 1024 ==> size_text(bytes) == in_units(bytes, 1024 * 1024 * 1024)
            + " GB"@,
{
}

/// A region gets the capacity that it is given, and the others keep theirs with all that
/// they hold.
pub proof fn regions_get_their_capacity(p: PoolView, region: MemRegion, bytes: u64, other: MemRegion)
    ensures
        p.resized(region, bytes).capacity(region) == bytes,
        other != region ==> p.resized(region, bytes).capacity(other) == p.capacity(other),
        p.resized(region, bytes).blocks == p.blocks,
        p.resized(region, bytes).names == p.names,
        p.resized(region, bytes).stats == p.stats,
{
}

/// The caches of different layers have different names.
pub proof fn layers_have_their_caches(a: usize, b: usize)
    requires
        kv_name(a) == kv_name(b),
    ensures
        a == b,
{
    let front = "kv_cache_l"@;
    decimal_stands_for_number(a as nat);
    decimal_stands_for_number(b as nat);
    assert(kv_name(a).skip(front.len() as int) =~= decimal(a as nat));
    assert(kv_name(b).skip(front.len() as int) =~= decimal(b as nat));
}

/// Weights have four gigabytes of unified memory and twice as much on the host.
pub proof fn weights_have_room()
    ensures
        new_unified().weights.capacity(MemRegion::Unified) == 4 * 0x4000_0000,
        new_unified().weights.capacity(MemRegion::Host) == 8 * 0x4000_0000,
        new_unified().weights.names.len() == 0,
        new_unified().kv_cache.names.len() == 0,
{
}

/// A report has a line for every block, and gives each counter in whole megabytes or as it
/// is.
pub proof fn reports_tell_of_every_block(p: PoolView, i: int)
    requires
        0 <= i < p.names.len(),
    ensures
        pool_report(p).len() == 7 + p.names.len(),
        pool_report(p)[7 + i] == block_line(p.blocks[p.names[i]], p.names[i]),
        pool_report(p)[1] == "Total allocated:  "@ + decimal(
            p.stats.total_allocated as nat / 0x10_0000,
        ) + " MB"@,
        pool_report(p)[2] == "Total freed:      "@ + decimal(
            p.stats.total_freed as nat / 0x10_0000,
        ) + " MB"@,
        pool_report(p)[3] == "Peak usage:       "@ + decimal(
            p.stats.peak_usage as nat / 0x10_0000,
        ) + " MB"@,
        pool_report(p)[4] == "Active blocks:    "@ + decimal(p.stats.block_count as nat),
        pool_report(p)[5] == "Page faults:      "@ + decimal(p.stats.page_faults as nat),
        pool_report(p)[6] == "Evictions:        "@ + decimal(p.stats.evictions as nat),
{
    reveal_strlit("");
    let s = p.stats;
    assert(s.total_allocated as nat / 1024 / 1024 == s.total_allocated as nat / 0x10_0000);
    assert(s.total_freed as nat / 1024 / 1024 == s.total_freed as nat / 0x10_0000);
    assert(s.peak_usage as nat / 1024 / 1024 == s.peak_usage as nat / 0x10_0000);
    assert("Active blocks:    "@ + decimal(s.block_count as nat) + ""@ =~= "Active blocks:    "@
        + decimal(s.block_count as nat));
    assert("Page faults:      "@ + decimal(s.page_faults as nat) + ""@ =~= "Page faults:      "@
        + decimal(s.page_faults as nat));
    assert("Evictions:        "@ + decimal(s.evictions as nat) + ""@ =~= "Evictions:        "@
        + decimal(s.evictions as nat));
}

/// Halves are rounded to the even neighbour, all else to the nearer one.
pub proof fn halves_are_rounded_to_even(n: nat, d: nat)
    requires
        d > 0,
    ensures
        ({
            let r = round_half_even(n, d);
            &&& 2 * n <= 2 * (r * d) + d
            &&& 2 * (r * d) <= 2 * n + d
            &&& 2 * n == 2 * (r * d) + d || 2 * (r * d) == 2 * n + d ==> r % 2 == 0
        }),
{
    vstd::arithmetic::div_mod::lemma_fundamental_div_mod(n as int, d as int);
    let q = n / d;
    assert((q + 1) * d == q * d + d) by (nonlinear_arith);
    assert(d * q == q * d) by (nonlinear_arith);
}

/// A new pool has eight gigabytes on the host and as much unified memory, and half of that
/// on the device.
pub proof fn new_pools_have_room()
    ensures
        new_pool().capacity(MemRegion::Host) == 8 * 0x4000_0000,
        new_pool().capacity(MemRegion::Unified) == new_pool().capacity(MemRegion::Host),
        2 * new_pool().capacity(MemRegion::Device) == new_pool().capacity(MemRegion::Host),
        new_pool().names.len() == 0,
        new_pool().live() == 0,
{
}

/// Neighbouring double-precision numbers lie apart so far that one of 53 bits counts the
/// steps to a number: all of the 53 are used where steps are larger than one.
pub proof fn steps_are_counted_in_53_bits(n: nat)
    requires
        n <= u64::MAX,
    ensures
        n < 0x20_0000_0000_0000 * double_spacing(n),
        double_spacing(n) > 1 ==> n >= 0x10_0000_0000_0000 * double_spacing(n),
        n < 0x20_0000_0000_0000 ==> nearest_double(n) == n,
{
}

} // verus!
