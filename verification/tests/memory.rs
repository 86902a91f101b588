use nexus::memory::{
    format_size, MemRegion, MemoryBlock, MemoryPage, MemoryPool, UnifiedMemory,
};

#[test]
fn test_memory_page() {
    let page = MemoryPage::new(0, 4096, MemRegion::Host);
    assert_eq!(page.id, 0);
    assert_eq!(page.size, 4096);
    assert_eq!(page.ref_count, 1);
}

#[test]
fn test_memory_block() {
    let mut block = MemoryBlock::new("test", 8192, MemRegion::Host);
    assert_eq!(block.num_pages(), 2);
    assert_eq!(block.total_size, 8192);
    assert_eq!(block.pages[0].offset, 0);
    assert_eq!(block.pages[1].offset, 4096);

    block.add_ref();
    assert_eq!(block.pages[0].ref_count, 2);

    let still_alive = block.release();
    assert!(!still_alive);

    let freed = block.release();
    assert!(freed);
}

#[test]
fn test_memory_pool_allocate() {
    let mut pool = MemoryPool::new();
    let block = pool.allocate("test_block", 4096, MemRegion::Host).unwrap();
    assert_eq!(block.name, "test_block");

    assert!(pool.get("test_block").is_some());

    pool.release("test_block");
    assert!(pool.get("test_block").is_none());
}

#[test]
fn test_memory_pool_stats() {
    let mut pool = MemoryPool::new();
    pool.allocate("a", 1024, MemRegion::Host).unwrap();
    pool.allocate("b", 2048, MemRegion::Host).unwrap();

    let stats = pool.stats();
    assert_eq!(stats.block_count, 2);
    assert_eq!(stats.total_allocated, 3072);
}

#[test]
fn test_memory_pool_release_respects_ref_count() {
    let mut pool = MemoryPool::new();
    let mut block = pool.allocate("shared", 1024, MemRegion::Host).unwrap();
    block.add_ref();
    pool.replace_block(block);

    assert!(!pool.release("shared"));
    assert!(pool.get("shared").is_some());
    assert!(pool.release("shared"));
    assert!(pool.get("shared").is_none());
}

#[test]
fn test_unified_memory() {
    let mut um = UnifiedMemory::new();
    let block = um.allocate_weights("model", 1024 * 1024).unwrap();
    assert_eq!(block.total_size, 1024 * 1024);

    um.release_weights("model");
    um.allocate_kv_cache(0, 16, 8, 2).unwrap();
    um.clear_kv_cache();

    let (w_stats, kv_stats) = um.stats();
    assert_eq!(w_stats.block_count, 0);
    assert_eq!(kv_stats.block_count, 0);
}

#[test]
fn mod_test_format_size() {
    assert_eq!(format_size(512), "512 B");
    assert_eq!(format_size(1024 * 5), "5.00 KB");
    assert_eq!(format_size(1024 * 1024 * 10), "10.00 MB");
    assert_eq!(format_size(1024 * 1024 * 1024 * 2), "2.00 GB");
}

#[test]
fn test_mem_region_names() {
    assert_eq!(MemRegion::Host.name(), "host");
    assert_eq!(MemRegion::Device.name(), "device");
    assert_eq!(MemRegion::Unified.name(), "unified");
}

fn float_size(bytes: usize) -> String {
    if bytes < 1024 {
        format!("{} B", bytes)
    } else if bytes < 1024 * 1024 {
        format!("{:.2} KB", bytes as f64 / 1024.0)
    } else if bytes < 1024 * 1024 * 1024 {
        format!("{:.2} MB", bytes as f64 / (1024.0 * 1024.0))
    } else {
        format!("{:.2} GB", bytes as f64 / (1024.0 * 1024.0 * 1024.0))
    }
}

#[test]
fn sizes_round_as_floating_point_does() {
    let mut bytes: usize = 1;
    for i in 0..20_000usize {
        bytes = bytes.wrapping_mul(6364136223846793005).wrapping_add(1442695040888963407);
        let small = bytes >> (20 + i % 44);
        assert_eq!(format_size(small), float_size(small), "{} bytes", small);
    }
    for kb in 0..4096usize {
        for add in [0, 1, 5, 511, 512, 1023] {
            let n = kb * 1024 + add;
            assert_eq!(format_size(n), float_size(n), "{} bytes", n);
        }
    }
}

#[test]
fn pages_cover_a_block() {
    let block = MemoryBlock::new("odd", 5000, MemRegion::Device);
    assert_eq!(block.num_pages(), 2);
    assert_eq!(block.pages[0].size, 4096);
    assert_eq!(block.pages[1].size, 904);
    assert_eq!(block.pages[1].region, MemRegion::Device);
    assert_eq!(MemoryBlock::new("none", 0, MemRegion::Host).num_pages(), 0);
}

#[test]
fn the_oldest_block_leaves_when_room_is_short() {
    let mut pool = MemoryPool::new();
    pool.set_capacity(MemRegion::Host, 3000);
    pool.set_capacity(MemRegion::Device, 0);
    pool.set_capacity(MemRegion::Unified, 0);
    pool.allocate("a", 1000, MemRegion::Host).unwrap();
    pool.allocate("b", 1000, MemRegion::Host).unwrap();
    pool.allocate("c", 1000, MemRegion::Host).unwrap();
    assert!(pool.allocate("d", 1000, MemRegion::Host).is_some());
    assert!(pool.get("d").is_some());
    assert_eq!(pool.len(), 3);
    assert_eq!(pool.stats().evictions, 1);
    assert!(pool.get("a").is_none());
    assert!(pool.get("b").is_some());
    assert!(pool.allocate("huge", 5000, MemRegion::Host).is_none());
}

#[test]
fn a_block_in_use_outlives_the_others() {
    let mut pool = MemoryPool::new();
    pool.set_capacity(MemRegion::Host, 3000);
    pool.set_capacity(MemRegion::Device, 0);
    pool.set_capacity(MemRegion::Unified, 0);
    for name in ["a", "b", "c"] {
        pool.allocate(name, 1000, MemRegion::Host).unwrap();
    }
    assert!(pool.get("a").is_some());
    pool.allocate("d", 1000, MemRegion::Host).unwrap();
    assert!(pool.get("b").is_none());
    assert!(pool.get("a").is_some());
    let mut shared = pool.get("c").unwrap();
    shared.add_ref();
    pool.replace_block(shared);
    assert_eq!(pool.evict_to_free(3000, MemRegion::Host), 2000);
    assert!(pool.get("c").is_some());
    assert_eq!(pool.len(), 1);
}

#[test]
fn a_released_name_is_unknown() {
    let mut pool = MemoryPool::default();
    assert!(!pool.release("never"));
    pool.allocate("x", 10, MemRegion::Host).unwrap();
    let peak = pool.stats().peak_usage;
    assert!(pool.release("x"));
    assert_eq!(pool.stats().total_freed, 10);
    assert_eq!(pool.stats().block_count, 0);
    assert_eq!(pool.stats().peak_usage, peak);
}

#[test]
fn reports_list_blocks() {
    let mut pool = MemoryPool::new();
    pool.allocate("weights", 3 * 1024 * 1024, MemRegion::Host).unwrap();
    let lines = pool.report();
    assert_eq!(lines[0], "=== Memory Pool Report ===");
    assert_eq!(lines[1], "Total allocated:  3 MB");
    assert_eq!(lines[4], "Active blocks:    1");
    assert_eq!(lines[7], format!("  {:<40} 3.00 MB region=host pages=768", "weights"));
    assert_eq!(pool.name_at(0), "weights");

    let mut um = UnifiedMemory::default();
    um.allocate_kv_cache(3, 16, 8, 2).unwrap();
    let text = um.report().join("\n");
    assert!(text.contains("kv_cache_l3"));
}

#[test]
fn counters_tell_what_is_in_use() {
    let mut pool = MemoryPool::new();
    pool.set_capacity(MemRegion::Host, 5000);
    pool.set_capacity(MemRegion::Device, 1000);
    pool.set_capacity(MemRegion::Unified, 2000);
    let mut live = Vec::new();
    for i in 0..20usize {
        let name = format!("b{}", i);
        let region = [MemRegion::Host, MemRegion::Device, MemRegion::Unified][i % 3];
        if let Some(block) = pool.allocate(&name, 300 + 100 * (i % 7), region) {
            assert_eq!(block.name, name);
            assert_eq!(pool.get(&name).map(|b| b.total_size), Some(300 + 100 * (i % 7)));
            live.push(name);
        }
        if i % 5 == 4 {
            pool.release(&format!("b{}", i - 1));
            pool.evict_to_free(100, MemRegion::Host);
        }
        let blocks: Vec<MemoryBlock> = live.iter().filter_map(|name| pool.get(name)).collect();
        let stats = pool.stats();
        let bytes: usize = blocks.iter().map(|b| b.total_size).sum();
        assert_eq!(stats.total_allocated - stats.total_freed, bytes);
        assert_eq!(stats.block_count, blocks.len());
        assert!(stats.peak_usage >= bytes);
        for (region, capacity) in
            [(MemRegion::Host, 5000), (MemRegion::Device, 1000), (MemRegion::Unified, 2000)]
        {
            let used: usize =
                blocks.iter().filter(|b| b.region == region).map(|b| b.total_size).sum();
            assert!(used <= capacity);
        }
    }
}

#[test]
fn clearing_the_cache_leaves_weights() {
    let mut memory = UnifiedMemory::new();
    memory.allocate_weights("w", 700).unwrap();
    memory.allocate_kv_cache(0, 16, 8, 2).unwrap();
    memory.allocate_kv_cache(0, 16, 8, 2).unwrap();
    memory.allocate_kv_cache(1, 4, 8, 2).unwrap();
    let (weights, cache) = memory.stats();
    memory.clear_kv_cache();
    let (weights_after, cache_after) = memory.stats();
    assert_eq!(weights_after, weights);
    assert_eq!(cache_after.block_count, 0);
    assert_eq!(cache_after.total_freed, cache.total_freed + 256 + 64);
    memory.clear_kv_cache();
    assert_eq!(memory.stats().1, cache_after);
}
