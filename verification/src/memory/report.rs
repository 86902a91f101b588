//! Reports on memory in words.

use crate::memory::block::BlockView;
use crate::memory::model::{pool_wf, PoolView};
use crate::memory::pool::{MemoryPool, MemoryStats};
use crate::memory::size::{format_size, size_text};
use crate::memory::unified::{unified_wf, UnifiedMemory};
use crate::text::{decimal, decimal_string, left_align, left_aligned, texts};
use vstd::prelude::*;

verus! {

/// The line of a block.
pub open spec fn block_line(b: BlockView, name: Seq<char>) -> Seq<char> {
    "  "@ + left_aligned(name, 40) + " "@ + size_text(b.total_size as nat) + " region="@
        + b.region.spec_name() + " pages="@ + decimal(b.pages.len())
}

/// The lines of a pool's counters.
pub open spec fn stats_lines(stats: MemoryStats) -> Seq<Seq<char>> {
    seq![
        "=== Memory Pool Report ==="@,
        "Total allocated:  "@ + decimal((stats.total_allocated / 1024 / 1024) as nat) + " MB"@,
        "Total freed:      "@ + decimal((stats.total_freed / 1024 / 1024) as nat) + " MB"@,
        "Peak usage:       "@ + decimal((stats.peak_usage / 1024 / 1024) as nat) + " MB"@,
        "Active blocks:    "@ + decimal(stats.block_count as nat) + ""@,
        "Page faults:      "@ + decimal(stats.page_faults as nat) + ""@,
        "Evictions:        "@ + decimal(stats.evictions as nat) + ""@,
    ]
}

/// The report on a pool: its counters, then its blocks, least recently used
/// first.
pub open spec fn pool_report(p: PoolView) -> Seq<Seq<char>> {
    stats_lines(p.stats) + Seq::new(
        p.names.len(),
        |i: int| block_line(p.blocks[p.names[i]], p.names[i]),
    )
}

fn counter(label: &str, n: usize, unit: &str) -> (r: String)
    ensures
        r@ == label@ + decimal(n as nat) + unit@,
{
    let mut out = label.to_string();
    out.append(decimal_string(n as u64).as_str());
    out.append(unit);
    out
}

impl MemoryPool {
    /// The lines of a report on the pool.
    pub fn report(&self) -> (r: Vec<String>)
        requires
            pool_wf(self@),
        ensures
            texts(r@) == pool_report(self@),
    {
        let stats = self.stats();
        let mut lines: Vec<String> = Vec::new();
        lines.push("=== Memory Pool Report ===".to_string());
        lines.push(counter("Total allocated:  ", stats.total_allocated / 1024 / 1024, " MB"));
        lines.push(counter("Total freed:      ", stats.total_freed / 1024 / 1024, " MB"));
        lines.push(counter("Peak usage:       ", stats.peak_usage / 1024 / 1024, " MB"));
        lines.push(counter("Active blocks:    ", stats.block_count, ""));
        lines.push(counter("Page faults:      ", stats.page_faults, ""));
        lines.push(counter("Evictions:        ", stats.evictions, ""));
        assert(texts(lines@) =~= stats_lines(self@.stats));
        let ghost all = pool_report(self@);
        let mut i: usize = 0;
        assert(texts(lines@) =~= all.take(7));
        while i < self.len()
            invariant
                i <= self@.names.len(),
                pool_wf(self@),
                all == pool_report(self@),
                texts(lines@) == all.take(7 + i),
            decreases self@.names.len() - i,
        {
            let ghost before = texts(lines@);
            let name = self.name_at(i);
            assert(self@.names.contains(self@.names[i as int]));
            let block = self.block_at(i);
            let mut line = "  ".to_string();
            line.append(left_align(name.as_str(), 40).as_str());
            line.append(" ");
            line.append(format_size(block.total_size).as_str());
            line.append(" region=");
            line.append(block.region.name());
            line.append(" pages=");
            line.append(decimal_string(block.num_pages() as u64).as_str());
            lines.push(line);
            assert(texts(lines@) =~= before.push(line@));
            i += 1;
            assert(texts(lines@) =~= all.take(7 + i));
        }
        assert(texts(lines@) =~= all);
        lines
    }
}

impl UnifiedMemory {
    /// The lines of a report on both pools.
    pub fn report(&self) -> (r: Vec<String>)
        requires
            unified_wf(self@),
        ensures
            texts(r@) == seq!["\n=== Weight Memory ==="@] + pool_report(self@.weights) + seq![
                "\n=== KV Cache Memory ==="@,
            ] + pool_report(self@.kv_cache),
    {
        let (mut weights, mut kv_cache) = self.pool_reports();
        let ghost w = texts(weights@);
        let ghost k = texts(kv_cache@);
        let mut lines: Vec<String> = Vec::new();
        lines.push("\n=== Weight Memory ===".to_string());
        assert(texts(lines@) =~= seq!["\n=== Weight Memory ==="@]);
        let ghost first = texts(lines@);
        lines.append(&mut weights);
        assert(texts(lines@) =~= first + w);
        lines.push("\n=== KV Cache Memory ===".to_string());
        assert(texts(lines@) =~= first + w + seq!["\n=== KV Cache Memory ==="@]);
        lines.append(&mut kv_cache);
        assert(texts(lines@) =~= first + w + seq!["\n=== KV Cache Memory ==="@] + k);
        lines
    }
}

} // verus!
