use vstd::prelude::*;
use crate::cpu::{Cpu, push_interrupt_disable, pop_interrupt_disable};

verus! {

/// First byte of the kernel heap region.
pub const HEAP_START: usize = 0x40000000;

/// Size of the kernel heap region, in bytes.
pub const HEAP_SIZE: usize = 500 * 1024;

/// A maximal run of free bytes inside the heap region.
#[derive(Clone, Copy, PartialEq, Eq, Structural, Debug)]
pub struct FreeBlock {
    /// First byte of the run.
    pub addr: usize,
    /// Number of bytes in the run.
    pub size: usize,
}

/// One past the last byte of a free block.
pub open spec fn blk_end(b: FreeBlock) -> int {
    b.addr + b.size
}

/// A block is non-empty and lies inside the managed region.
pub open spec fn blk_wf(b: FreeBlock, base: int, limit: int) -> bool {
    &&& b.size >= 1
    &&& base <= b.addr
    &&& b.addr + b.size <= limit
}

/// The free list is a sequence of well-formed blocks, in address order,
/// pairwise disjoint, and coalesced: between any two of them lies at
/// least one byte that is not free.
pub open spec fn blocks_wf(free: Seq<FreeBlock>, base: int, limit: int) -> bool {
    &&& forall|i: int| 0 <= i < free.len() ==> blk_wf(#[trigger] free[i], base, limit)
    &&& forall|i: int, j: int|
        0 <= i < j < free.len() ==> blk_end(#[trigger] free[i]) < (#[trigger] free[j]).addr
}

/// Byte `x` lies in some block of the free list.
pub open spec fn covers(free: Seq<FreeBlock>, x: int) -> bool {
    exists|i: int| 0 <= i < free.len() && (#[trigger] free[i]).addr <= x < blk_end(free[i])
}

/// Two byte ranges share no byte.
pub open spec fn range_disjoint(a1: int, s1: int, a2: int, s2: int) -> bool {
    a1 + s1 <= a2 || a2 + s2 <= a1
}

/// Byte `x` lies in the range of `s` bytes starting at `a`.
pub open spec fn in_range(a: int, s: int, x: int) -> bool {
    a <= x < a + s
}

/// Live allocations are non-empty ranges inside the region, pairwise
/// disjoint, and none of their bytes is free.
pub open spec fn live_wf(
    live: Set<(int, int)>,
    base: int,
    limit: int,
    free: Seq<FreeBlock>,
) -> bool {
    &&& forall|p: (int, int)|
        #[trigger] live.contains(p) ==> p.1 >= 1 && base <= p.0 && p.0 + p.1 <= limit
    &&& forall|p: (int, int), q: (int, int)|
        #[trigger] live.contains(p) && #[trigger] live.contains(q) && p != q
            ==> range_disjoint(p.0, p.1, q.0, q.1)
    &&& forall|p: (int, int), x: int|
        #[trigger] live.contains(p) && #[trigger] in_range(p.0, p.1, x) ==> !covers(free, x)
}

/// `n` is a positive power of two — the shape every allocation alignment
/// must have.
pub open spec fn is_power_of_two(n: int) -> bool
    decreases n,
{
    if n <= 0 {
        false
    } else if n == 1 {
        true
    } else {
        n % 2 == 0 && is_power_of_two(n / 2)
    }
}

/// The least multiple of `align` that is at least `n`.
pub open spec fn round_up(n: int, align: int) -> int
    recommends
        align >= 1,
{
    if n % align == 0 {
        n
    } else {
        n + (align - n % align)
    }
}

/// Where a single block can serve a request: the lowest suitably aligned
/// address inside it from which `size` bytes still fit, if any.
pub open spec fn block_fit(b: FreeBlock, size: int, align: int) -> Option<int> {
    let a = round_up(b.addr as int, align);
    if a + size <= blk_end(b) {
        Some(a)
    } else {
        None
    }
}

/// First-fit placement over the free list: the address served out of the
/// first block that can serve the request.
pub open spec fn first_fit_in(free: Seq<FreeBlock>, size: int, align: int) -> Option<int>
    decreases free.len(),
{
    if free.len() == 0 {
        None
    } else {
        match block_fit(free[0], size, align) {
            Option::Some(a) => Some(a),
            Option::None => first_fit_in(free.subrange(1, free.len() as int), size, align),
        }
    }
}

pub proof fn lemma_round_up_props(n: int, align: int)
    requires
        align >= 1,
        n >= 0,
    ensures
        n <= round_up(n, align) < n + align,
        round_up(n, align) % align == 0,
{
    let r = n % align;
    vstd::arithmetic::div_mod::lemma_mod_bound(n, align);
    vstd::arithmetic::div_mod::lemma_fundamental_div_mod(n, align);
    if r != 0 {
        let q = n / align;
        assert(align * q + align == (q + 1) * align) by (nonlinear_arith);
        assert(round_up(n, align) == (q + 1) * align);
        vstd::arithmetic::div_mod::lemma_mod_multiples_basic(q + 1, align);
    }
}

/// `round_up(n, align)` is the least aligned address at or above `n`.
pub proof fn lemma_round_up_least(n: int, align: int, m: int)
    requires
        align >= 1,
        n >= 0,
        m >= n,
        m % align == 0,
    ensures
        m >= round_up(n, align),
{
    let r = n % align;
    vstd::arithmetic::div_mod::lemma_mod_bound(n, align);
    vstd::arithmetic::div_mod::lemma_fundamental_div_mod(n, align);
    vstd::arithmetic::div_mod::lemma_fundamental_div_mod(m, align);
    if r != 0 {
        let q = n / align;
        let k = m / align;
        assert(align * k >= align * q + r);
        assert(align * k > align * q && align >= 1 ==> k > q) by (nonlinear_arith);
        assert(k >= q + 1);
        assert(align * k >= align * (q + 1)) by (nonlinear_arith)
            requires
                align >= 1,
                k >= q + 1,
        ;
        assert(align * (q + 1) == align * q + align) by (nonlinear_arith);
    }
}

/// Skipping blocks that cannot serve a request does not change where
/// first-fit placement lands.
proof fn lemma_first_fit_prefix_none(free: Seq<FreeBlock>, size: int, align: int, i: int)
    requires
        0 <= i <= free.len(),
        forall|j: int| 0 <= j < i ==> block_fit(#[trigger] free[j], size, align) is None,
    ensures
        first_fit_in(free, size, align) == first_fit_in(
            free.subrange(i, free.len() as int),
            size,
            align,
        ),
    decreases i,
{
    if i == 0 {
        assert(free.subrange(0, free.len() as int) =~= free);
    } else {
        let tail = free.subrange(1, free.len() as int);
        assert(block_fit(free[0], size, align) is None);
        assert forall|j: int| 0 <= j < i - 1 implies block_fit(
            #[trigger] tail[j],
            size,
            align,
        ) is None by {
            assert(tail[j] == free[j + 1]);
        }
        lemma_first_fit_prefix_none(tail, size, align, i - 1);
        assert(tail.subrange(i - 1, tail.len() as int) =~= free.subrange(i, free.len() as int));
    }
}

/// Inserting a block that keeps address order and leaves a gap to both
/// neighbours preserves free-list well-formedness.
proof fn lemma_blocks_wf_insert(s: Seq<FreeBlock>, i: int, nb: FreeBlock, base: int, limit: int)
    requires
        blocks_wf(s, base, limit),
        0 <= i <= s.len(),
        blk_wf(nb, base, limit),
        i > 0 ==> blk_end(s[i - 1]) < nb.addr,
        i < s.len() ==> blk_end(nb) < s[i].addr,
    ensures
        blocks_wf(s.insert(i, nb), base, limit),
{
    let t = s.insert(i, nb);
    s.insert_ensures(i, nb);
    assert(t == s.subrange(0, i).push(nb) + s.subrange(i, s.len() as int));
    assert(t[i] == nb);
    assert forall|j: int| 0 <= j < t.len() implies blk_wf(#[trigger] t[j], base, limit) by {
        if j < i {
            assert(t[j] == s[j]);
        } else if j > i {
            assert(t[j] == s[j - 1]);
        }
    }
    assert forall|j: int, k: int| 0 <= j < k < t.len() implies blk_end(#[trigger] t[j]) < (
    #[trigger] t[k]).addr by {
        if k < i {
            assert(t[j] == s[j] && t[k] == s[k]);
        } else if j > i {
            assert(t[j] == s[j - 1] && t[k] == s[k - 1]);
        } else if j < i && k == i {
            assert(t[j] == s[j]);
            if j < i - 1 {
                assert(blk_end(s[j]) < s[i - 1].addr);
                assert(s[i - 1].addr < blk_end(s[i - 1]));
            }
        } else if j < i && k > i {
            assert(t[j] == s[j] && t[k] == s[k - 1]);
            if j == k - 1 {
                assert(false);
            }
        } else {
            assert(j == i && k > i);
            assert(t[k] == s[k - 1]);
            if k - 1 > i {
                assert(s[i].addr < blk_end(s[i]));
                assert(blk_end(s[i]) < s[k - 1].addr);
            }
        }
    }
}

/// Removing a block preserves free-list well-formedness.
proof fn lemma_blocks_wf_remove(s: Seq<FreeBlock>, i: int, base: int, limit: int)
    requires
        blocks_wf(s, base, limit),
        0 <= i < s.len(),
    ensures
        blocks_wf(s.remove(i), base, limit),
{
    let t = s.remove(i);
    s.remove_ensures(i);
    assert forall|j: int| 0 <= j < t.len() implies blk_wf(#[trigger] t[j], base, limit) by {
        if j < i {
            assert(t[j] == s[j]);
        } else {
            assert(t[j] == s[j + 1]);
        }
    }
    assert forall|j: int, k: int| 0 <= j < k < t.len() implies blk_end(#[trigger] t[j]) < (
    #[trigger] t[k]).addr by {
        if k < i {
            assert(t[j] == s[j] && t[k] == s[k]);
        } else if j >= i {
            assert(t[j] == s[j + 1] && t[k] == s[k + 1]);
        } else {
            assert(t[j] == s[j] && t[k] == s[k + 1]);
        }
    }
}

/// Inserting a block makes exactly its bytes free in addition.
proof fn lemma_covers_insert(s: Seq<FreeBlock>, i: int, nb: FreeBlock)
    requires
        0 <= i <= s.len(),
    ensures
        forall|x: int|
            covers(s.insert(i, nb), x) <==> (covers(s, x) || (nb.addr <= x < blk_end(nb))),
{
    let t = s.insert(i, nb);
    s.insert_ensures(i, nb);
    assert(t == s.subrange(0, i).push(nb) + s.subrange(i, s.len() as int));
    assert(t[i] == nb);
    assert forall|x: int|
        covers(t, x) <==> (covers(s, x) || (nb.addr <= x < blk_end(nb))) by {
        if covers(t, x) {
            let j = choose|j: int| 0 <= j < t.len() && (#[trigger] t[j]).addr <= x < blk_end(t[j]);
            if j < i {
                assert(s[j].addr <= x < blk_end(s[j]));
            } else if j > i {
                assert(t[j] == s[j - 1]);
                assert(s[j - 1].addr <= x < blk_end(s[j - 1]));
            }
        }
        if covers(s, x) {
            let j = choose|j: int| 0 <= j < s.len() && (#[trigger] s[j]).addr <= x < blk_end(s[j]);
            if j < i {
                assert(t[j] == s[j]);
                assert(t[j].addr <= x < blk_end(t[j]));
            } else {
                assert(t[j + 1] == s[j]);
                assert(t[j + 1].addr <= x < blk_end(t[j + 1]));
            }
        }
        if nb.addr <= x < blk_end(nb) {
            assert(t[i].addr <= x < blk_end(t[i]));
        }
    }
}

/// Removing a block makes exactly its bytes stop being free: by
/// well-formedness no other block holds them.
proof fn lemma_covers_remove(s: Seq<FreeBlock>, i: int, base: int, limit: int)
    requires
        blocks_wf(s, base, limit),
        0 <= i < s.len(),
    ensures
        forall|x: int|
            covers(s.remove(i), x) <==> (covers(s, x) && !(s[i].addr <= x < blk_end(s[i]))),
{
    let t = s.remove(i);
    s.remove_ensures(i);
    assert forall|x: int|
        covers(t, x) <==> (covers(s, x) && !(s[i].addr <= x < blk_end(s[i]))) by {
        if covers(t, x) {
            let j = choose|j: int| 0 <= j < t.len() && (#[trigger] t[j]).addr <= x < blk_end(t[j]);
            if j < i {
                assert(t[j] == s[j]);
                assert(s[j].addr <= x < blk_end(s[j]));
                assert(blk_end(s[j]) < s[i].addr);
            } else {
                assert(t[j] == s[j + 1]);
                assert(s[j + 1].addr <= x < blk_end(s[j + 1]));
                assert(blk_end(s[i]) < s[j + 1].addr);
            }
        }
        if covers(s, x) && !(s[i].addr <= x < blk_end(s[i])) {
            let j = choose|j: int| 0 <= j < s.len() && (#[trigger] s[j]).addr <= x < blk_end(s[j]);
            assert(j != i);
            if j < i {
                assert(t[j] == s[j]);
                assert(t[j].addr <= x < blk_end(t[j]));
            } else {
                assert(t[j - 1] == s[j]);
                assert(t[j - 1].addr <= x < blk_end(t[j - 1]));
            }
        }
    }
}

/// A general-purpose allocator over one contiguous byte region, managed
/// as a first-fit free list with coalescing on free. It is bookkeeping
/// over addresses: the bytes themselves belong to whoever holds the
/// ranges it hands out.
pub struct HeapAllocator {
    region_base: usize,
    region_size: usize,
    is_init: bool,
    free: Vec<FreeBlock>,
    live: Ghost<Set<(int, int)>>,
}

/// Allocation failure: no free block can serve the request.
#[derive(Clone, Copy, PartialEq, Eq, Structural, Debug)]
pub enum AllocError {
    /// The free list holds no block with a large-enough aligned run.
    Exhausted,
}

impl HeapAllocator {
    /// Internal consistency: the free list and the live allocations
    /// partition their bytes without overlap inside the region.
    /// Whether the one-time initialization has run.
    pub closed spec fn initialized(self) -> bool {
        self.is_init
    }

    /// First byte of the managed region (meaningful once initialized).
    pub closed spec fn base(self) -> int {
        self.region_base as int
    }

    /// Size of the managed region in bytes (meaningful once initialized).
    pub closed spec fn size(self) -> int {
        self.region_size as int
    }

    pub closed spec fn wf(self) -> bool {
        if self.is_init {
            &&& self.region_size >= 1
            &&& self.region_base + self.region_size <= usize::MAX
            &&& blocks_wf(self.free@, self.region_base as int, self.region_base + self.region_size)
            &&& live_wf(
                self.live@,
                self.region_base as int,
                self.region_base + self.region_size,
                self.free@,
            )
        } else {
            &&& self.free@.len() == 0
            &&& self.live@ == Set::<(int, int)>::empty()
        }
    }

    /// The ranges currently handed out and not yet freed, as
    /// (address, size) pairs.
    pub closed spec fn live_set(self) -> Set<(int, int)> {
        self.live@
    }

    /// Byte `x` is currently free.
    pub closed spec fn is_free_addr(self, x: int) -> bool {
        covers(self.free@, x)
    }

    /// The address first-fit placement would serve for this request.
    pub closed spec fn first_fit(self, size: int, align: int) -> Option<int> {
        first_fit_in(self.free@, size, align)
    }

    /// Some free block can serve the request, so `allocate` will.
    pub open spec fn can_fit(self, size: int, align: int) -> bool {
        self.first_fit(size, align) is Some
    }

    /// The free list holds one block containing `[start, start + size)`.
    pub closed spec fn has_free_block(self, start: int, size: int) -> bool {
        exists|i: int|
            0 <= i < self.free@.len() && (#[trigger] self.free@[i]).addr <= start && start + size
                <= blk_end(self.free@[i])
    }

    /// An empty heap: nothing can be allocated before `init`.
    pub fn new() -> (h: Self)
        ensures
            h.wf(),
            !h.initialized(),
    {
        HeapAllocator {
            region_base: 0,
            region_size: 0,
            is_init: false,
            free: Vec::new(),
            live: Ghost(Set::empty()),
        }
    }

    /// One-time initialization of the free list over
    /// `[heap_bottom, heap_bottom + heap_size)`. It must be the first
    /// operation on the allocator; afterwards the whole region is free
    /// and nothing is live.
    pub fn init(&mut self, heap_bottom: usize, heap_size: usize)
        requires
            old(self).wf(),
            !old(self).initialized(),
            heap_size >= 1,
            heap_bottom + heap_size <= usize::MAX,
        ensures
            final(self).wf(),
            final(self).initialized(),
            final(self).base() == heap_bottom,
            final(self).size() == heap_size,
            final(self).live_set() == Set::<(int, int)>::empty(),
            forall|x: int|
                final(self).is_free_addr(x) <==> heap_bottom <= x < heap_bottom + heap_size,
            final(self).has_free_block(heap_bottom as int, heap_size as int),
    {
        self.region_base = heap_bottom;
        self.region_size = heap_size;
        self.is_init = true;
        self.free.push(FreeBlock { addr: heap_bottom, size: heap_size });
        proof {
            assert forall|x: int| final(self).is_free_addr(x)
                <==> heap_bottom <= x < heap_bottom + heap_size by {
                if heap_bottom <= x < heap_bottom + heap_size {
                    assert(self.free@[0].addr <= x < blk_end(self.free@[0]));
                }
            }
            assert(self.free@[0].addr <= heap_bottom as int);
        }
    }
}

impl HeapAllocator {
    /// Finds and reserves `size` bytes at an address that is a multiple
    /// of `align`, by first fit over the free list. Interrupts are
    /// masked for the whole search and mutation and the prior state is
    /// restored on every exit path, so an interrupt handler that itself
    /// allocates can never observe the free list mid-mutation.
    pub fn allocate(&mut self, cpu: &mut Cpu, size: usize, align: usize) -> (r: Result<
        usize,
        AllocError,
    >)
        requires
            old(self).wf(),
            old(self).initialized(),
            size >= 1,
            is_power_of_two(align as int),
        ensures
            final(self).wf(),
            final(self).initialized(),
            final(self).base() == old(self).base(),
            final(self).size() == old(self).size(),
            final(cpu).interrupts_enabled == old(cpu).interrupts_enabled,
            final(cpu).efer == old(cpu).efer,
            final(cpu).cr0 == old(cpu).cr0,
            final(cpu).cs == old(cpu).cs,
            final(cpu).tr == old(cpu).tr,
            match r {
                Ok(a) => {
                    &&& Some(a as int) == old(self).first_fit(size as int, align as int)
                    &&& a as int % align as int == 0
                    &&& old(self).base() <= a as int
                    &&& a + size <= old(self).base() + old(self).size()
                    &&& forall|x: int| a <= x < a + size ==> old(self).is_free_addr(x)
                    &&& forall|x: int|
                        final(self).is_free_addr(x) <==> (old(self).is_free_addr(x) && !(a <= x
                            < a + size))
                    &&& final(self).live_set() == old(self).live_set().insert(
                        (a as int, size as int),
                    )
                    &&& forall|p: (int, int)|
                        old(self).live_set().contains(p) ==> range_disjoint(
                            p.0,
                            p.1,
                            a as int,
                            size as int,
                        )
                },
                Err(_) => {
                    &&& *final(self) == *old(self)
                    &&& old(self).first_fit(size as int, align as int) is None
                },
            },
    {
        proof {
            if align as int <= 0 {
                assert(!is_power_of_two(align as int));
            }
        }
        let guard = push_interrupt_disable(cpu);
        let ghost old_free = self.free@;
        let ghost old_live = self.live@;
        let ghost base = self.region_base as int;
        let ghost limit = self.region_base as int + self.region_size as int;
        let n = self.free.len();
        let mut i: usize = 0;
        let mut found: Option<usize> = None;
        while i < n && found.is_none()
            invariant
                *self == *old(self),
                old(self).wf(),
                old(self).initialized(),
                old_free == self.free@,
                base == self.region_base as int,
                limit == self.region_base as int + self.region_size as int,
                n == self.free@.len(),
                0 <= i <= n,
                size >= 1,
                align as int >= 1,
                forall|j: int|
                    0 <= j < i ==> block_fit(#[trigger] old_free[j], size as int, align as int)
                        is None,
                match found {
                    Option::Some(a) => i < n && block_fit(
                        old_free[i as int],
                        size as int,
                        align as int,
                    ) == Some(a as int),
                    Option::None => true,
                },
            decreases n - i, (if found is None { 1int } else { 0int }),
        {
            let b = self.free[i];
            proof {
                assert(blk_wf(old_free[i as int], base, limit));
            }
            let end = b.addr + b.size;
            let rem = b.addr % align;
            if rem == 0 {
                if size <= end - b.addr {
                    found = Some(b.addr);
                    proof {
                        assert(round_up(b.addr as int, align as int) == b.addr as int);
                    }
                } else {
                    proof {
                        assert(round_up(b.addr as int, align as int) == b.addr as int);
                        assert(block_fit(old_free[i as int], size as int, align as int) is None);
                    }
                    i = i + 1;
                }
            } else {
                let pad = align - rem;
                proof {
                    assert(round_up(b.addr as int, align as int) == b.addr as int + pad as int);
                }
                if pad <= usize::MAX - b.addr {
                    let a = b.addr + pad;
                    if a <= end && size <= end - a {
                        found = Some(a);
                    } else {
                        proof {
                            assert(block_fit(old_free[i as int], size as int, align as int)
                                is None);
                        }
                        i = i + 1;
                    }
                } else {
                    proof {
                        assert(round_up(b.addr as int, align as int) > usize::MAX as int);
                        assert(blk_end(old_free[i as int]) <= limit <= usize::MAX as int);
                        assert(block_fit(old_free[i as int], size as int, align as int) is None);
                    }
                    i = i + 1;
                }
            }
        }
        match found {
            Option::None => {
                proof {
                    assert(i == n);
                    lemma_first_fit_prefix_none(old_free, size as int, align as int, n as int);
                    assert(old_free.subrange(n as int, n as int) =~= Seq::<FreeBlock>::empty());
                    assert(first_fit_in(Seq::<FreeBlock>::empty(), size as int, align as int)
                        is None);
                }
                pop_interrupt_disable(cpu, guard);
                Err(AllocError::Exhausted)
            },
            Option::Some(a) => {
                let fi = i;
                let b = self.free[fi];
                let ghost bi = old_free[fi as int];
                proof {
                    lemma_first_fit_prefix_none(old_free, size as int, align as int, fi as int);
                    let sub = old_free.subrange(fi as int, n as int);
                    assert(sub[0] == bi);
                    assert(first_fit_in(sub, size as int, align as int) == Some(a as int));
                    lemma_round_up_props(bi.addr as int, align as int);
                    assert(blk_wf(bi, base, limit));
                    assert(a as int + size as int <= blk_end(bi));
                }
                let end = b.addr + b.size;
                self.free.remove(fi);
                let ghost s1 = self.free@;
                proof {
                    lemma_blocks_wf_remove(old_free, fi as int, base, limit);
                    lemma_covers_remove(old_free, fi as int, base, limit);
                    assert(s1 == old_free.remove(fi as int));
                    old_free.remove_ensures(fi as int);
                }
                let has_right = end - (a + size) > 0;
                let right_blk = FreeBlock { addr: a + size, size: end - (a + size) };
                if has_right {
                    self.free.insert(fi, right_blk);
                    proof {
                        lemma_blocks_wf_insert(s1, fi as int, right_blk, base, limit);
                        lemma_covers_insert(s1, fi as int, right_blk);
                        s1.insert_ensures(fi as int, right_blk);
                    }
                }
                let ghost s2 = self.free@;
                let has_left = a - b.addr > 0;
                let left_blk = FreeBlock { addr: b.addr, size: a - b.addr };
                if has_left {
                    self.free.insert(fi, left_blk);
                    proof {
                        if has_right {
                            assert(s2[fi as int] == right_blk);
                        } else {
                            assert(s2 == s1);
                        }
                        lemma_blocks_wf_insert(s2, fi as int, left_blk, base, limit);
                        lemma_covers_insert(s2, fi as int, left_blk);
                        s2.insert_ensures(fi as int, left_blk);
                    }
                }
                let ghost newf = self.free@;
                proof {
                    assert(blocks_wf(newf, base, limit));
                    assert forall|x: int|
                        covers(newf, x) <==> (covers(old_free, x) && !(a as int <= x < a as int
                            + size as int)) by {
                        assert(covers(s1, x) <==> (covers(old_free, x) && !(bi.addr <= x
                            < blk_end(bi))));
                        if has_right {
                            assert(s2 == s1.insert(fi as int, right_blk));
                            assert(covers(s2, x) <==> (covers(s1, x) || (right_blk.addr <= x
                                < blk_end(right_blk))));
                        }
                        if has_left {
                            assert(newf == s2.insert(fi as int, left_blk));
                            assert(covers(newf, x) <==> (covers(s2, x) || (left_blk.addr <= x
                                < blk_end(left_blk))));
                        } else {
                            assert(newf == s2);
                        }
                        if bi.addr <= x < blk_end(bi) {
                            assert(covers(old_free, x));
                        }
                    }
                    assert forall|x: int| a as int <= x < a as int + size as int implies covers(
                        old_free,
                        x,
                    ) by {
                        assert(bi.addr <= x < blk_end(bi));
                    }
                    assert forall|p: (int, int)| old_live.contains(p) implies range_disjoint(
                        p.0,
                        p.1,
                        a as int,
                        size as int,
                    ) by {
                        if !range_disjoint(p.0, p.1, a as int, size as int) {
                            let y = if p.0 >= a as int {
                                p.0
                            } else {
                                a as int
                            };
                            assert(in_range(p.0, p.1, y));
                            assert(bi.addr <= y < blk_end(bi));
                            assert(covers(old_free, y));
                            assert(false);
                        }
                    }
                }
                self.live = Ghost(old_live.insert((a as int, size as int)));
                proof {
                    let newp = (a as int, size as int);
                    assert forall|p: (int, int), q: (int, int)|
                        #[trigger] self.live@.contains(p) && #[trigger] self.live@.contains(q)
                            && p != q implies range_disjoint(p.0, p.1, q.0, q.1) by {
                        if p == newp || q == newp {
                        } else {
                            assert(old_live.contains(p) && old_live.contains(q));
                        }
                    }
                    assert forall|p: (int, int), x: int|
                        #[trigger] self.live@.contains(p) && #[trigger] in_range(p.0, p.1, x)
                            implies !covers(newf, x) by {
                        if p == newp {
                            assert(!(covers(old_free, x) && !(a as int <= x < a as int
                                + size as int)) ==> !covers(newf, x));
                        } else {
                            assert(old_live.contains(p));
                            if covers(newf, x) {
                                assert(covers(old_free, x));
                                assert(false);
                            }
                        }
                    }
                    assert(live_wf(self.live@, base, limit, newf));
                    assert(self.wf());
                }
                pop_interrupt_disable(cpu, guard);
                Ok(a)
            },
        }
    }
}

impl HeapAllocator {
    /// Returns a previously allocated range to the free list, merging it
    /// with any adjacent free blocks so that free space stays coalesced.
    /// Interrupts are masked for the whole mutation and the prior state
    /// is restored on exit.
    #[verifier::rlimit(100)]
    pub fn deallocate(&mut self, cpu: &mut Cpu, addr: usize, size: usize)
        requires
            old(self).wf(),
            old(self).initialized(),
            old(self).live_set().contains((addr as int, size as int)),
        ensures
            final(self).wf(),
            final(self).initialized(),
            final(self).base() == old(self).base(),
            final(self).size() == old(self).size(),
            final(cpu).interrupts_enabled == old(cpu).interrupts_enabled,
            final(cpu).efer == old(cpu).efer,
            final(cpu).cr0 == old(cpu).cr0,
            final(cpu).cs == old(cpu).cs,
            final(cpu).tr == old(cpu).tr,
            final(self).live_set() == old(self).live_set().remove((addr as int, size as int)),
            forall|x: int|
                final(self).is_free_addr(x) <==> (old(self).is_free_addr(x) || (addr <= x < addr
                    + size)),
            final(self).has_free_block(addr as int, size as int),
    {
        let guard = push_interrupt_disable(cpu);
        let ghost old_free = self.free@;
        let ghost old_live = self.live@;
        let ghost base = self.region_base as int;
        let ghost limit = self.region_base as int + self.region_size as int;
        let ghost fp = (addr as int, size as int);
        proof {
            assert(old_live.contains(fp));
            assert(size as int >= 1 && base <= addr as int && addr as int + size as int <= limit);
        }
        let n = self.free.len();
        let mut i: usize = 0;
        while i < n && self.free[i].addr < addr
            invariant
                *self == *old(self),
                old(self).wf(),
                old(self).initialized(),
                old_free == self.free@,
                n == self.free@.len(),
                0 <= i <= n,
                forall|j: int| 0 <= j < i ==> (#[trigger] old_free[j]).addr < addr as int,
            decreases n - i,
        {
            i = i + 1;
        }
        proof {
            assert forall|j: int| 0 <= j < i implies blk_end(#[trigger] old_free[j])
                <= addr as int by {
                if blk_end(old_free[j]) > addr as int {
                    assert(old_free[j].addr <= addr as int && (addr as int) < blk_end(old_free[j]));
                    assert(covers(old_free, addr as int));
                    assert(in_range(fp.0, fp.1, addr as int));
                    assert(false);
                }
            }
            if i < n {
                assert(old_free[i as int].addr >= addr as int);
                if old_free[i as int].addr < addr as int + size as int {
                    let y = old_free[i as int].addr as int;
                    assert(old_free[i as int].addr <= y < blk_end(old_free[i as int]));
                    assert(covers(old_free, y));
                    assert(in_range(fp.0, fp.1, y));
                    assert(false);
                }
                assert(old_free[i as int].addr >= addr as int + size as int);
            }
        }
        let mut left_merge = false;
        if i > 0 {
            let lb = self.free[i - 1];
            if lb.addr + lb.size == addr {
                left_merge = true;
            }
        }
        let mut right_merge = false;
        if i < n {
            let rb = self.free[i];
            if rb.addr == addr + size {
                right_merge = true;
            }
        }
        if left_merge && right_merge {
            let lb = self.free[i - 1];
            let rb = self.free[i];
            proof {
                assert(blk_end(old_free[i - 1]) == addr as int);
                assert(old_free[i as int].addr == addr as int + size as int);
                assert(lb.size as int + size as int + rb.size as int == blk_end(old_free[i as int])
                    - lb.addr as int);
                assert(blk_end(old_free[i as int]) <= limit);
            }
            let merged = FreeBlock { addr: lb.addr, size: lb.size + size + rb.size };
            self.free.remove(i);
            let ghost t1 = self.free@;
            proof {
                lemma_blocks_wf_remove(old_free, i as int, base, limit);
                lemma_covers_remove(old_free, i as int, base, limit);
                old_free.remove_ensures(i as int);
            }
            self.free.remove(i - 1);
            let ghost t2 = self.free@;
            proof {
                lemma_blocks_wf_remove(t1, i - 1, base, limit);
                lemma_covers_remove(t1, i - 1, base, limit);
                t1.remove_ensures(i - 1);
                assert(t1[i - 1] == old_free[i - 1]);
            }
            self.free.insert(i - 1, merged);
            proof {
                if i - 1 > 0 {
                    assert(t2[i - 2] == old_free[i - 2]);
                    assert(blk_end(old_free[i - 2]) < old_free[i - 1].addr);
                }
                if i - 1 < t2.len() {
                    assert(t2[i - 1] == t1[i as int]);
                    assert(t1[i as int] == old_free[i + 1]);
                    assert(blk_end(old_free[i as int]) < old_free[i + 1].addr);
                }
                lemma_blocks_wf_insert(t2, i - 1, merged, base, limit);
                lemma_covers_insert(t2, i - 1, merged);
                t2.insert_ensures(i - 1, merged);
                assert(self.free@[i - 1] == merged);
                assert(merged.addr as int <= addr as int && addr as int + size as int <= blk_end(
                    merged,
                ));
                assert forall|x: int|
                    covers(self.free@, x) <==> (covers(old_free, x) || (addr as int <= x
                        < addr as int + size as int)) by {
                    assert(covers(t1, x) <==> (covers(old_free, x) && !(old_free[i as int].addr
                        <= x < blk_end(old_free[i as int]))));
                    assert(covers(t2, x) <==> (covers(t1, x) && !(t1[i - 1].addr <= x < blk_end(
                        t1[i - 1],
                    ))));
                    assert(covers(self.free@, x) <==> (covers(t2, x) || (merged.addr <= x
                        < blk_end(merged))));
                    if old_free[i - 1].addr <= x < blk_end(old_free[i - 1]) {
                        assert(covers(old_free, x));
                    }
                    if old_free[i as int].addr <= x < blk_end(old_free[i as int]) {
                        assert(covers(old_free, x));
                    }
                }
            }
        } else if left_merge {
            let lb = self.free[i - 1];
            proof {
                assert(blk_end(old_free[i - 1]) == addr as int);
                assert(lb.size as int + size as int <= limit - base);
            }
            let merged = FreeBlock { addr: lb.addr, size: lb.size + size };
            self.free.remove(i - 1);
            let ghost t1 = self.free@;
            proof {
                lemma_blocks_wf_remove(old_free, i - 1, base, limit);
                lemma_covers_remove(old_free, i - 1, base, limit);
                old_free.remove_ensures(i - 1);
            }
            self.free.insert(i - 1, merged);
            proof {
                if i - 1 > 0 {
                    assert(t1[i - 2] == old_free[i - 2]);
                    assert(blk_end(old_free[i - 2]) < old_free[i - 1].addr);
                }
                if i - 1 < t1.len() {
                    assert(t1[i - 1] == old_free[i as int]);
                    assert(old_free[i as int].addr != addr as int + size as int);
                }
                lemma_blocks_wf_insert(t1, i - 1, merged, base, limit);
                lemma_covers_insert(t1, i - 1, merged);
                t1.insert_ensures(i - 1, merged);
                assert(self.free@[i - 1] == merged);
                assert(merged.addr as int <= addr as int && addr as int + size as int <= blk_end(
                    merged,
                ));
                assert forall|x: int|
                    covers(self.free@, x) <==> (covers(old_free, x) || (addr as int <= x
                        < addr as int + size as int)) by {
                    assert(covers(t1, x) <==> (covers(old_free, x) && !(old_free[i - 1].addr <= x
                        < blk_end(old_free[i - 1]))));
                    assert(covers(self.free@, x) <==> (covers(t1, x) || (merged.addr <= x
                        < blk_end(merged))));
                    if old_free[i - 1].addr <= x < blk_end(old_free[i - 1]) {
                        assert(covers(old_free, x));
                    }
                }
            }
        } else if right_merge {
            let rb = self.free[i];
            proof {
                assert(old_free[i as int].addr == addr as int + size as int);
                assert(size as int + rb.size as int <= limit - base);
            }
            let merged = FreeBlock { addr: addr, size: size + rb.size };
            self.free.remove(i);
            let ghost t1 = self.free@;
            proof {
                lemma_blocks_wf_remove(old_free, i as int, base, limit);
                lemma_covers_remove(old_free, i as int, base, limit);
                old_free.remove_ensures(i as int);
            }
            self.free.insert(i, merged);
            proof {
                if i > 0 {
                    assert(t1[i - 1] == old_free[i - 1]);
                    assert(blk_end(old_free[i - 1]) != addr as int);
                }
                if i < t1.len() {
                    assert(t1[i as int] == old_free[i + 1]);
                    assert(blk_end(old_free[i as int]) < old_free[i + 1].addr);
                }
                lemma_blocks_wf_insert(t1, i as int, merged, base, limit);
                lemma_covers_insert(t1, i as int, merged);
                t1.insert_ensures(i as int, merged);
                assert(self.free@[i as int] == merged);
                assert(merged.addr as int <= addr as int && addr as int + size as int <= blk_end(
                    merged,
                ));
                assert forall|x: int|
                    covers(self.free@, x) <==> (covers(old_free, x) || (addr as int <= x
                        < addr as int + size as int)) by {
                    assert(covers(t1, x) <==> (covers(old_free, x) && !(old_free[i as int].addr
                        <= x < blk_end(old_free[i as int]))));
                    assert(covers(self.free@, x) <==> (covers(t1, x) || (merged.addr <= x
                        < blk_end(merged))));
                    if old_free[i as int].addr <= x < blk_end(old_free[i as int]) {
                        assert(covers(old_free, x));
                    }
                }
            }
        } else {
            let nb = FreeBlock { addr: addr, size: size };
            self.free.insert(i, nb);
            proof {
                if i > 0 {
                    assert(blk_end(old_free[i - 1]) != addr as int);
                }
                if i < n {
                    assert(old_free[i as int].addr != addr as int + size as int);
                }
                lemma_blocks_wf_insert(old_free, i as int, nb, base, limit);
                lemma_covers_insert(old_free, i as int, nb);
                old_free.insert_ensures(i as int, nb);
                assert(self.free@[i as int] == nb);
                assert forall|x: int|
                    covers(self.free@, x) <==> (covers(old_free, x) || (addr as int <= x
                        < addr as int + size as int)) by {
                    assert(covers(self.free@, x) <==> (covers(old_free, x) || (nb.addr <= x
                        < blk_end(nb))));
                }
            }
        }
        let ghost newf = self.free@;
        self.live = Ghost(old_live.remove(fp));
        proof {
            assert forall|p: (int, int), x: int|
                #[trigger] self.live@.contains(p) && #[trigger] in_range(p.0, p.1, x)
                    implies !covers(newf, x) by {
                assert(old_live.contains(p) && p != fp);
                if covers(newf, x) {
                    assert(covers(old_free, x) || (addr as int <= x < addr as int + size as int));
                    if addr as int <= x < addr as int + size as int {
                        assert(!range_disjoint(p.0, p.1, fp.0, fp.1));
                        assert(false);
                    }
                    assert(false);
                }
            }
            assert(live_wf(self.live@, base, limit, newf));
            assert(self.wf());
        }
        pop_interrupt_disable(cpu, guard);
    }

    /// Grows the managed region by `by` bytes at its top; the new bytes
    /// become free. The caller must already have backed the added range
    /// with mapped memory.
    pub fn extend(&mut self, by: usize)
        requires
            old(self).wf(),
            old(self).initialized(),
            old(self).base() + old(self).size() + by <= usize::MAX,
        ensures
            final(self).wf(),
            final(self).initialized(),
            final(self).base() == old(self).base(),
            final(self).size() == old(self).size() + by,
            final(self).live_set() == old(self).live_set(),
            forall|x: int|
                final(self).is_free_addr(x) <==> (old(self).is_free_addr(x) || (old(self).base()
                    + old(self).size() <= x < old(self).base() + old(self).size() + by)),
    {
        if by == 0 {
            return ;
        }
        let ghost old_free = self.free@;
        let ghost old_live = self.live@;
        let ghost base = self.region_base as int;
        let ghost old_limit = self.region_base as int + self.region_size as int;
        let ghost limit = old_limit + by as int;
        let old_end = self.region_base + self.region_size;
        self.region_size = self.region_size + by;
        proof {
            assert forall|j: int| 0 <= j < old_free.len() implies blk_wf(
                #[trigger] old_free[j],
                base,
                limit,
            ) by {
                assert(blk_wf(old_free[j], base, old_limit));
            }
            assert(blocks_wf(old_free, base, limit));
        }
        let n = self.free.len();
        let mut merged_done = false;
        if n > 0 {
            let lb = self.free[n - 1];
            if lb.addr + lb.size == old_end {
                let merged = FreeBlock { addr: lb.addr, size: lb.size + by };
                self.free.remove(n - 1);
                let ghost t1 = self.free@;
                proof {
                    lemma_blocks_wf_remove(old_free, n - 1, base, limit);
                    lemma_covers_remove(old_free, n - 1, base, limit);
                    old_free.remove_ensures(n - 1);
                }
                self.free.insert(n - 1, merged);
                merged_done = true;
                proof {
                    if n - 1 > 0 {
                        assert(t1[n - 2] == old_free[n - 2]);
                        assert(blk_end(old_free[n - 2]) < old_free[n - 1].addr);
                    }
                    lemma_blocks_wf_insert(t1, n - 1, merged, base, limit);
                    lemma_covers_insert(t1, n - 1, merged);
                    t1.insert_ensures(n - 1, merged);
                    assert forall|x: int|
                        covers(self.free@, x) <==> (covers(old_free, x) || (old_limit <= x
                            < limit)) by {
                        assert(covers(t1, x) <==> (covers(old_free, x) && !(old_free[n - 1].addr
                            <= x < blk_end(old_free[n - 1]))));
                        assert(covers(self.free@, x) <==> (covers(t1, x) || (merged.addr <= x
                            < blk_end(merged))));
                        if old_free[n - 1].addr <= x < blk_end(old_free[n - 1]) {
                            assert(covers(old_free, x));
                        }
                    }
                }
            }
        }
        if !merged_done {
            let nb = FreeBlock { addr: old_end, size: by };
            self.free.push(nb);
            proof {
                assert(self.free@ =~= old_free.insert(n as int, nb));
                assert forall|j: int| 0 <= j < n implies blk_end(#[trigger] old_free[j])
                    < old_end as int by {
                    if j < n - 1 {
                        assert(blk_end(old_free[j]) < old_free[n - 1].addr);
                        assert(old_free[n - 1].addr < blk_end(old_free[n - 1]));
                        assert(blk_end(old_free[n - 1]) <= old_limit);
                    } else {
                        assert(blk_end(old_free[j]) <= old_limit);
                        assert(blk_end(old_free[j]) != old_end as int);
                    }
                }
                lemma_blocks_wf_insert(old_free, n as int, nb, base, limit);
                lemma_covers_insert(old_free, n as int, nb);
                assert forall|x: int|
                    covers(self.free@, x) <==> (covers(old_free, x) || (old_limit <= x
                        < limit)) by {
                    assert(covers(old_free.insert(n as int, nb), x) <==> (covers(old_free, x) || (
                    nb.addr <= x < blk_end(nb))));
                }
            }
        }
        proof {
            assert(forall|x: int|
                covers(self.free@, x) <==> (covers(old_free, x) || (old_limit <= x < limit)));
            assert forall|p: (int, int), x: int|
                #[trigger] self.live@.contains(p) && #[trigger] in_range(p.0, p.1, x)
                    implies !covers(self.free@, x) by {
                assert(p.0 + p.1 <= old_limit);
                if covers(self.free@, x) {
                    assert(covers(old_free, x) || (old_limit <= x < limit));
                    assert(false);
                }
            }
            assert(live_wf(self.live@, base, limit, self.free@));
            assert(self.wf());
            assert forall|x: int|
                self.is_free_addr(x) <==> (old(self).is_free_addr(x) || (old(self).base() + old(
                    self,
                ).size() <= x < old(self).base() + old(self).size() + by)) by {
                assert(old_free == old(self).free@);
                assert(covers(self.free@, x) <==> (covers(old_free, x) || (old_limit <= x
                    < limit)));
            }
        }
    }
}

/// No two live allocations share a byte: whatever sequence of allocate
/// and deallocate calls produced this state, the ranges currently handed
/// out are pairwise disjoint.
pub proof fn lemma_live_allocations_disjoint(h: HeapAllocator, p: (int, int), q: (int, int))
    requires
        h.wf(),
        h.initialized(),
        h.live_set().contains(p),
        h.live_set().contains(q),
        p != q,
    ensures
        range_disjoint(p.0, p.1, q.0, q.1),
{
}

/// If any block of the free list can serve a request, first fit serves
/// it.
proof fn lemma_fit_at_implies_some(free: Seq<FreeBlock>, size: int, align: int, i: int)
    requires
        0 <= i < free.len(),
        block_fit(free[i], size, align) is Some,
    ensures
        first_fit_in(free, size, align) is Some,
    decreases free.len(),
{
    if block_fit(free[0], size, align) is None {
        let tail = free.subrange(1, free.len() as int);
        assert(tail[i - 1] == free[i]);
        lemma_fit_at_implies_some(tail, size, align, i - 1);
    }
}

/// A deallocated block is eligible for reuse: once the free list holds a
/// block containing `[start, start + bsize)`, an allocation of any
/// equal-or-smaller size whose alignment `start` satisfies will succeed.
pub proof fn lemma_free_block_reusable(
    h: HeapAllocator,
    start: int,
    bsize: int,
    size: int,
    align: int,
)
    requires
        h.wf(),
        h.initialized(),
        h.has_free_block(start, bsize),
        1 <= size <= bsize,
        align >= 1,
        start % align == 0,
    ensures
        h.can_fit(size, align),
{
    let i = choose|i: int|
        0 <= i < h.free@.len() && (#[trigger] h.free@[i]).addr <= start && start + bsize
            <= blk_end(h.free@[i]);
    let b = h.free@[i];
    lemma_round_up_least(b.addr as int, align, start);
    lemma_round_up_props(b.addr as int, align);
    assert(round_up(b.addr as int, align) + size <= blk_end(b));
    assert(block_fit(b, size, align) is Some);
    lemma_fit_at_implies_some(h.free@, size, align, i);
}

} // verus!
