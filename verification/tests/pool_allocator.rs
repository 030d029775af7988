use pubsub_rs::tools::pool_allocator::{
    pow2_block_size, size_class_index, AllocSource, FreeTarget, PoolAllocator, SizeClassPool,
    MIN_CACHED_BLOCK_SIZE, POOL_CAPACITY,
};

#[test]
fn test_pow2_block_size() {
    assert_eq!(pow2_block_size(1), MIN_CACHED_BLOCK_SIZE);
    assert_eq!(pow2_block_size(16), 16);
    assert_eq!(pow2_block_size(17), 32);
    assert_eq!(pow2_block_size(500), 512);
}

#[test]
fn pool_rounding_edges() {
    assert_eq!(pow2_block_size(0), 16);
    assert_eq!(pow2_block_size(512), 512);
    assert_eq!(pow2_block_size(513), 1024);
    assert_eq!(pow2_block_size(4096), 4096);
}

#[test]
fn pool_size_class_index() {
    assert_eq!(size_class_index(16), 0);
    assert_eq!(size_class_index(32), 1);
    assert_eq!(size_class_index(64), 2);
    assert_eq!(size_class_index(512), 5);
}

// A freed small block is recycled by a subsequent same-class allocation.
#[test]
fn pool_alloc_dealloc_recycles_block() {
    let mut pool = PoolAllocator::new();
    assert_eq!(pool.allocate(16, 8), AllocSource::SystemBlock(16));
    assert_eq!(pool.deallocate(0x1000, 16, 8), FreeTarget::Cached);
    assert_eq!(pool.allocate(9, 8), AllocSource::Recycled(0x1000));
    assert_eq!(pool.allocate(16, 8), AllocSource::SystemBlock(16));
}

// Oversized and over-aligned requests bypass the pool entirely.
#[test]
fn pool_large_allocation_bypasses_pool() {
    let mut pool = PoolAllocator::default();
    assert_eq!(pool.allocate(4096, 8), AllocSource::SystemDirect);
    assert_eq!(pool.deallocate(0x2000, 4096, 8), FreeTarget::SystemDirect);
    assert_eq!(pool.allocate(64, 32), AllocSource::SystemDirect);
    assert_eq!(pool.deallocate(0x3000, 64, 32), FreeTarget::SystemDirect);
}

// Classes are kept apart and hand back the most recently freed block first.
#[test]
fn pool_classes_are_separate_stacks() {
    let mut pool = PoolAllocator::new();
    assert_eq!(pool.deallocate(0xa0, 20, 8), FreeTarget::Cached);
    assert_eq!(pool.deallocate(0xb0, 30, 8), FreeTarget::Cached);
    assert_eq!(pool.deallocate(0xc0, 100, 8), FreeTarget::Cached);
    assert_eq!(pool.allocate(128, 8), AllocSource::Recycled(0xc0));
    assert_eq!(pool.allocate(32, 8), AllocSource::Recycled(0xb0));
    assert_eq!(pool.allocate(32, 8), AllocSource::Recycled(0xa0));
    assert_eq!(pool.allocate(16, 8), AllocSource::SystemBlock(16));
}

// A full class returns further blocks to the system.
#[test]
fn pool_full_class_returns_to_system() {
    let mut pool = PoolAllocator::new();
    for i in 0..POOL_CAPACITY {
        assert_eq!(pool.deallocate(i * 16, 256, 8), FreeTarget::Cached);
    }
    assert_eq!(pool.deallocate(0xffff0, 256, 8), FreeTarget::SystemBlock(256));
}

#[test]
fn size_class_pool_stack() {
    let mut pool = SizeClassPool::new();
    assert_eq!(pool.try_pop(), None);
    assert!(pool.try_push(1));
    assert!(pool.try_push(2));
    assert_eq!(pool.try_pop(), Some(2));
    assert_eq!(pool.try_pop(), Some(1));
    assert_eq!(pool.try_pop(), None);
}
