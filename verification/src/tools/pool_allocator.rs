//! Bookkeeping of a pool allocator that caches and reuses small,
//! power-of-two blocks of memory to reduce heap fragmentation from frequent
//! small allocations (e.g. events/messages): the rounding of requests to
//! size classes, the per-class free lists, and the decision of where each
//! request is served from. The memory itself is obtained from and returned
//! to the system allocator by the caller.

use vstd::prelude::*;

verus! {

/// Smallest cached block size: 2^4 = 16 bytes.
pub const MIN_CACHED_BLOCK_SIZE: usize = 16;

/// Largest cached block size: 2^9 = 512 bytes. Bigger requests bypass the pool.
pub const MAX_CACHED_BLOCK_SIZE: usize = 512;

/// Number of distinct power-of-two size classes cached (16, 32, 64, 128, 256, 512).
pub const NUM_SIZE_CLASSES: usize = 6;

/// Maximum number of blocks cached per size class (2^9 = 512).
pub const POOL_CAPACITY: usize = 512;

/// The smallest value `p * 2^k` (k >= 0) that is at least `size`.
pub open spec fn doubled_until(p: nat, size: nat) -> nat
    decreases (if p < size {
        size - p
    } else {
        0
    }),
{
    if p >= size || p == 0 {
        p
    } else {
        doubled_until(2 * p, size)
    }
}

/// The cached block size for a request of `size` bytes: the smallest power of
/// two that is at least `size` and at least `MIN_CACHED_BLOCK_SIZE`.
pub open spec fn block_size_for(size: nat) -> nat {
    doubled_until(16, size)
}

/// `n` is a power of two.
pub open spec fn is_pow2(n: nat) -> bool
    decreases n,
{
    if n == 1 {
        true
    } else if n == 0 || n % 2 == 1 {
        false
    } else {
        is_pow2(n / 2)
    }
}

/// Index of the size class of a power-of-two block of at least 16 bytes:
/// 0 for 16 bytes, 1 for 32 bytes, and so on.
pub open spec fn class_of(block: nat) -> nat
    decreases block,
{
    if block <= 16 {
        0
    } else {
        1 + class_of(block / 2)
    }
}

/// A request of `size` bytes aligned to `align` is served by the pool.
pub open spec fn is_cacheable(size: nat, align: nat) -> bool {
    block_size_for(size) <= 512 && align <= 16
}

proof fn lemma_doubled_until(p: nat, size: nat)
    requires
        p > 0,
        is_pow2(p),
    ensures
        doubled_until(p, size) >= size,
        doubled_until(p, size) >= p,
        is_pow2(doubled_until(p, size)),
        doubled_until(p, size) == p || doubled_until(p, size) < 2 * size,
    decreases (if p < size {
        size - p
    } else {
        0
    }),
{
    if p < size {
        assert(is_pow2(2 * p)) by {
            assert((2 * p) / 2 == p);
            assert((2 * p) % 2 == 0);
        }
        lemma_doubled_until(2 * p, size);
    }
}

/// Rounds `size` up to the nearest cached power-of-two block size, no smaller
/// than `MIN_CACHED_BLOCK_SIZE`.
pub fn pow2_block_size(size: usize) -> (r: usize)
    requires
        size <= usize::MAX / 2 + 1,
    ensures
        r == block_size_for(size as nat),
        r >= size,
        r >= MIN_CACHED_BLOCK_SIZE,
        is_pow2(r as nat),
        r == MIN_CACHED_BLOCK_SIZE || r < 2 * size,
{
    proof {
        assert(is_pow2(16)) by {
            reveal_with_fuel(is_pow2, 6);
        }
        lemma_doubled_until(16, size as nat);
    }
    let mut p: usize = MIN_CACHED_BLOCK_SIZE;
    while p < size
        invariant
            p > 0,
            size <= usize::MAX / 2 + 1,
            doubled_until(p as nat, size as nat) == block_size_for(size as nat),
        decreases (if p < size {
            size - p
        } else {
            0
        }),
    {
        p = p * 2;
    }
    p
}

/// Larger blocks never fall in a smaller class.
proof fn lemma_class_of_monotonic(p: nat, q: nat)
    requires
        p <= q,
    ensures
        class_of(p) <= class_of(q),
    decreases p,
{
    if p > 16 {
        lemma_class_of_monotonic(p / 2, q / 2);
    }
}

/// Index of the size class of a cached power-of-two block.
pub fn size_class_index(size_pow2: usize) -> (r: usize)
    requires
        is_pow2(size_pow2 as nat),
        MIN_CACHED_BLOCK_SIZE <= size_pow2 <= MAX_CACHED_BLOCK_SIZE,
    ensures
        r == class_of(size_pow2 as nat),
        r < NUM_SIZE_CLASSES,
{
    proof {
        lemma_class_of_monotonic(size_pow2 as nat, 512);
        assert(class_of(512) == 5) by {
            reveal_with_fuel(class_of, 7);
        }
    }
    let mut p: usize = size_pow2;
    let mut index: usize = 0;
    while p > MIN_CACHED_BLOCK_SIZE
        invariant
            p <= 512,
            index + class_of(p as nat) == class_of(size_pow2 as nat),
            class_of(size_pow2 as nat) <= 5,
        decreases p,
    {
        p = p / 2;
        index = index + 1;
    }
    index
}

/// Fixed-size free list of one power-of-two size class: a stack of freed
/// block addresses. Never touches the heap itself.
pub struct SizeClassPool {
    addresses: [usize; 512],
    len: usize,
}

impl View for SizeClassPool {
    type V = Seq<usize>;

    /// The cached addresses, most recently freed last.
    closed spec fn view(&self) -> Seq<usize> {
        self.addresses@.take(self.len as int)
    }
}

impl SizeClassPool {
    /// Well-formedness: at most `POOL_CAPACITY` cached addresses.
    pub closed spec fn wf(&self) -> bool {
        self.len <= POOL_CAPACITY
    }

    /// A well-formed pool holds at most `POOL_CAPACITY` addresses.
    pub proof fn lemma_size_bounded(&self)
        requires
            self.wf(),
        ensures
            self@.len() <= POOL_CAPACITY,
    {
    }

    /// Creates an empty pool.
    pub fn new() -> (r: Self)
        ensures
            r.wf(),
            r@ == Seq::<usize>::empty(),
    {
        let r = SizeClassPool { addresses: [0usize; 512], len: 0 };
        assert(r@ =~= Seq::<usize>::empty());
        r
    }

    /// Takes the most recently cached address, if any.
    pub fn try_pop(&mut self) -> (r: Option<usize>)
        requires
            old(self).wf(),
        ensures
            final(self).wf(),
            old(self)@.len() == 0 ==> r is None && final(self)@ == old(self)@,
            old(self)@.len() > 0 ==> r == Some(old(self)@.last()) && final(self)@
                == old(self)@.drop_last(),
    {
        if self.len == 0 {
            return None;
        }
        self.len = self.len - 1;
        assert(self@ =~= old(self)@.drop_last());
        Some(self.addresses[self.len])
    }

    /// Caches an address unless the pool is full. Returns true if cached.
    pub fn try_push(&mut self, address: usize) -> (r: bool)
        requires
            old(self).wf(),
        ensures
            final(self).wf(),
            r == (old(self)@.len() < POOL_CAPACITY),
            final(self)@ == (if r {
                old(self)@.push(address)
            } else {
                old(self)@
            }),
    {
        if self.len == POOL_CAPACITY {
            return false;
        }
        let index = self.len;
        self.addresses[index] = address;
        self.len = self.len + 1;
        assert(self@ =~= old(self)@.push(address));
        true
    }
}

/// Where an allocation request is served from.
#[derive(Debug, Clone, Copy, PartialEq, Eq, Structural)]
pub enum AllocSource {
    /// A cached block at this address is handed out again.
    Recycled(usize),
    /// A fresh block of this (rounded-up) size is obtained from the system.
    SystemBlock(usize),
    /// The request bypasses the pool: obtained from the system as requested.
    SystemDirect,
}

/// Where a freed block goes.
#[derive(Debug, Clone, Copy, PartialEq, Eq, Structural)]
pub enum FreeTarget {
    /// The block is cached in its size class for reuse.
    Cached,
    /// The pool of its class is full: the block, of this rounded-up size, is
    /// returned to the system.
    SystemBlock(usize),
    /// The block bypassed the pool: returned to the system as requested.
    SystemDirect,
}

/// Outcome of an allocation request of `size` bytes aligned to `align`
/// against the per-class caches `pools`: where it is served from, and the
/// caches afterwards.
pub open spec fn alloc_outcome(pools: Seq<Seq<usize>>, size: nat, align: nat) -> (
    AllocSource,
    Seq<Seq<usize>>,
) {
    let block = block_size_for(size);
    if is_cacheable(size, align) {
        let c = class_of(block) as int;
        if pools[c].len() > 0 {
            (AllocSource::Recycled(pools[c].last()), pools.update(c, pools[c].drop_last()))
        } else {
            (AllocSource::SystemBlock(block as usize), pools)
        }
    } else {
        (AllocSource::SystemDirect, pools)
    }
}

/// Outcome of freeing the block at `address` that was requested with `size`
/// bytes aligned to `align`: where it goes, and the caches afterwards.
pub open spec fn dealloc_outcome(
    pools: Seq<Seq<usize>>,
    address: usize,
    size: nat,
    align: nat,
) -> (FreeTarget, Seq<Seq<usize>>) {
    let block = block_size_for(size);
    if is_cacheable(size, align) {
        let c = class_of(block) as int;
        if pools[c].len() < 512 {
            (FreeTarget::Cached, pools.update(c, pools[c].push(address)))
        } else {
            (FreeTarget::SystemBlock(block as usize), pools)
        }
    } else {
        (FreeTarget::SystemDirect, pools)
    }
}

/// Pool allocator bookkeeping: one free list per power-of-two size class.
///
/// Recycled blocks are only reused for requests with
/// `align <= MIN_CACHED_BLOCK_SIZE`; larger alignment requests always go
/// straight to the system allocator.
pub struct PoolAllocator {
    pools: [SizeClassPool; 6],
}

impl View for PoolAllocator {
    type V = Seq<Seq<usize>>;

    /// The cached addresses of each size class, smallest class first.
    closed spec fn view(&self) -> Seq<Seq<usize>> {
        Seq::new(6, |i: int| self.pools@[i]@)
    }
}

impl PoolAllocator {
    /// Well-formedness: every size-class pool is well formed.
    pub closed spec fn wf(&self) -> bool {
        forall|i: int| 0 <= i < 6 ==> (#[trigger] self.pools@[i]).wf()
    }

    /// A well-formed allocator has one bounded free list per size class.
    pub proof fn lemma_pools_bounded(&self)
        requires
            self.wf(),
        ensures
            self@.len() == NUM_SIZE_CLASSES,
            forall|i: int| 0 <= i < 6 ==> (#[trigger] self@[i]).len() <= POOL_CAPACITY,
    {
        assert forall|i: int| 0 <= i < 6 implies (#[trigger] self@[i]).len() <= POOL_CAPACITY by {
            self.pools@[i].lemma_size_bounded();
        }
    }

    /// Creates a new PoolAllocator with all size-class pools empty.
    pub fn new() -> (r: Self)
        ensures
            r.wf(),
            r@ == Seq::new(6, |i: int| Seq::<usize>::empty()),
    {
        let r = PoolAllocator {
            pools: [
                SizeClassPool::new(),
                SizeClassPool::new(),
                SizeClassPool::new(),
                SizeClassPool::new(),
                SizeClassPool::new(),
                SizeClassPool::new(),
            ],
        };
        assert(r@ =~= Seq::new(6, |i: int| Seq::<usize>::empty()));
        r
    }

    /// Decides where a request of `size` bytes aligned to `align` is served
    /// from, taking a cached block of its class when there is one.
    pub fn allocate(&mut self, size: usize, align: usize) -> (r: AllocSource)
        requires
            old(self).wf(),
            size <= usize::MAX / 2 + 1,
        ensures
            final(self).wf(),
            (r, final(self)@) == alloc_outcome(old(self)@, size as nat, align as nat),
    {
        let size_pow2 = pow2_block_size(size);
        if size_pow2 <= MAX_CACHED_BLOCK_SIZE && align <= MIN_CACHED_BLOCK_SIZE {
            let index = size_class_index(size_pow2);
            match self.pools[index].try_pop() {
                Some(address) => {
                    assert(self@ =~= old(self)@.update(
                        index as int,
                        old(self)@[index as int].drop_last(),
                    ));
                    AllocSource::Recycled(address)
                },
                None => {
                    assert(self@ =~= old(self)@);
                    AllocSource::SystemBlock(size_pow2)
                },
            }
        } else {
            AllocSource::SystemDirect
        }
    }

    /// Decides where the freed block at `address`, requested with `size`
    /// bytes aligned to `align`, goes: cached in its class when there is
    /// room, back to the system otherwise.
    pub fn deallocate(&mut self, address: usize, size: usize, align: usize) -> (r: FreeTarget)
        requires
            old(self).wf(),
            size <= usize::MAX / 2 + 1,
        ensures
            final(self).wf(),
            (r, final(self)@) == dealloc_outcome(old(self)@, address, size as nat, align as nat),
    {
        let size_pow2 = pow2_block_size(size);
        if size_pow2 <= MAX_CACHED_BLOCK_SIZE && align <= MIN_CACHED_BLOCK_SIZE {
            let index = size_class_index(size_pow2);
            if self.pools[index].try_push(address) {
                assert(self@ =~= old(self)@.update(
                    index as int,
                    old(self)@[index as int].push(address),
                ));
                FreeTarget::Cached
            } else {
                assert(self@ =~= old(self)@);
                FreeTarget::SystemBlock(size_pow2)
            }
        } else {
            FreeTarget::SystemDirect
        }
    }
}

impl Default for PoolAllocator {
    fn default() -> (r: Self)
        ensures
            r.wf(),
            r@ == Seq::new(6, |i: int| Seq::<usize>::empty()),
    {
        Self::new()
    }
}

/// A block freed into the pool is handed out again by the next allocation
/// of the same size class, and the caches are then as before the free.
pub proof fn law_freed_block_is_recycled(
    pools: Seq<Seq<usize>>,
    address: usize,
    size: nat,
    align: nat,
    next_size: nat,
    next_align: nat,
)
    requires
        pools.len() == 6,
        is_cacheable(size, align),
        is_cacheable(next_size, next_align),
        class_of(block_size_for(size)) == class_of(block_size_for(next_size)),
        class_of(block_size_for(size)) < 6,
        dealloc_outcome(pools, address, size, align).0 == FreeTarget::Cached,
    ensures
        alloc_outcome(dealloc_outcome(pools, address, size, align).1, next_size, next_align) == (
        AllocSource::Recycled(address), pools),
{
    let c = class_of(block_size_for(size)) as int;
    let after = pools.update(c, pools[c].push(address));
    assert(after[c].drop_last() =~= pools[c]);
    assert(after.update(c, after[c].drop_last()) =~= pools);
}

/// Requests too large or too aligned for the pool never touch the caches.
pub proof fn law_uncacheable_bypasses_pool(
    pools: Seq<Seq<usize>>,
    address: usize,
    size: nat,
    align: nat,
)
    requires
        !is_cacheable(size, align),
    ensures
        alloc_outcome(pools, size, align) == (AllocSource::SystemDirect, pools),
        dealloc_outcome(pools, address, size, align) == (FreeTarget::SystemDirect, pools),
{
}

/// A fresh block obtained for a cacheable request has the rounded size of
/// the request's class: a power of two, at least the request and 16 bytes,
/// at most 512, and the smallest such (16, or less than twice the request).
/// Freeing that request into a full class gives back a block of the same
/// size.
pub proof fn law_fresh_block_has_class_size(
    pools: Seq<Seq<usize>>,
    address: usize,
    size: nat,
    align: nat,
    b: usize,
)
    requires
        alloc_outcome(pools, size, align).0 == AllocSource::SystemBlock(b),
    ensures
        is_pow2(b as nat),
        size <= b <= 512,
        16 <= b,
        b == 16 || b < 2 * size,
        dealloc_outcome(pools, address, size, align).0 matches FreeTarget::SystemBlock(b2)
            ==> b2 == b,
{
    assert(is_pow2(16)) by {
        reveal_with_fuel(is_pow2, 6);
    }
    lemma_doubled_until(16, size);
}

} // verus!
