use vstd::prelude::*;
use crate::PAGE_SIZE;

verus! {

/// First page number of the virtual area reserved for kernel stacks.
pub const STACK_AREA_START_PAGE: usize = 0x80000;

/// One past the last page number of the stack area.
pub const STACK_AREA_END_PAGE: usize = 0xc0000;

/// One region of the boot-provided physical memory map.
#[derive(Clone, Copy, PartialEq, Eq, Structural, Debug)]
pub struct MemoryArea {
    /// First byte of the region.
    pub base: usize,
    /// Length of the region in bytes.
    pub len: usize,
    /// Whether the boot loader marked the region available for use.
    pub usable: bool,
}

/// Access rights of one mapped page.
#[derive(Clone, Copy, PartialEq, Eq, Structural, Debug)]
pub struct PagePerm {
    /// Writes are allowed.
    pub writable: bool,
    /// Instruction fetches are allowed.
    pub executable: bool,
}

/// A kernel stack handle: the stack occupies `[bottom, top)` and grows
/// downwards from `top`.
#[derive(Clone, Copy, PartialEq, Eq, Structural, Debug)]
pub struct Stack {
    /// One past the highest byte of the stack; the initial stack pointer.
    pub top: usize,
    /// Lowest byte of the stack.
    pub bottom: usize,
}

/// Failure of the memory controller.
#[derive(Clone, Copy, PartialEq, Eq, Structural, Debug)]
pub enum MemoryError {
    /// The boot memory map holds not even one usable page.
    NoUsableMemory,
    /// Not enough free frames or stack-area pages are left.
    OutOfMemory,
}

/// Full frames a single memory-map region contributes.
pub open spec fn area_frames(a: MemoryArea) -> int {
    if a.usable {
        a.len as int / PAGE_SIZE as int
    } else {
        0
    }
}

/// Full frames of physical memory the whole map offers for use.
pub open spec fn usable_frames(areas: Seq<MemoryArea>) -> int
    decreases areas.len(),
{
    if areas.len() == 0 {
        0
    } else {
        area_frames(areas[0]) + usable_frames(areas.subrange(1, areas.len() as int))
    }
}

/// Saturation of a count at the machine word.
pub open spec fn cap_usize(n: int) -> int {
    if n <= usize::MAX as int {
        n
    } else {
        usize::MAX as int
    }
}

proof fn lemma_usable_frames_push(s: Seq<MemoryArea>, a: MemoryArea)
    ensures
        usable_frames(s.push(a)) == usable_frames(s) + area_frames(a),
    decreases s.len(),
{
    if s.len() == 0 {
        assert(s.push(a).subrange(1, 1) =~= Seq::<MemoryArea>::empty());
        assert(s.push(a)[0] == a);
        assert(usable_frames(Seq::<MemoryArea>::empty()) == 0);
        assert(usable_frames(s) == 0);
        assert(usable_frames(s.push(a)) == area_frames(a));
    } else {
        assert(s.push(a).subrange(1, s.len() as int + 1) =~= s.subrange(1, s.len() as int).push(
            a,
        ));
        assert(s.push(a)[0] == s[0]);
        lemma_usable_frames_push(s.subrange(1, s.len() as int), a);
        assert(usable_frames(s.push(a)) == area_frames(s[0]) + usable_frames(
            s.subrange(1, s.len() as int).push(a),
        ));
        assert(usable_frames(s) == area_frames(s[0]) + usable_frames(
            s.subrange(1, s.len() as int),
        ));
    }
}

proof fn lemma_usable_frames_nonneg(s: Seq<MemoryArea>)
    ensures
        usable_frames(s) >= 0,
    decreases s.len(),
{
    if s.len() > 0 {
        vstd::arithmetic::div_mod::lemma_div_pos_is_pos(s[0].len as int, PAGE_SIZE as int);
        lemma_usable_frames_nonneg(s.subrange(1, s.len() as int));
    }
}

/// A stack handle lies inside the stack area with room for a guard page
/// beneath it.
pub open spec fn stack_shape_ok(s: Stack) -> bool {
    &&& (STACK_AREA_START_PAGE + 1) * PAGE_SIZE <= s.bottom
    &&& s.bottom < s.top
    &&& s.top <= STACK_AREA_END_PAGE * PAGE_SIZE
}

/// Owner of paging state and physical-frame bookkeeping: the only
/// component that decides what memory is mapped. It hands out dedicated
/// stacks, each preceded by an unmapped guard page so an overflow faults
/// instead of silently corrupting the neighbour.
pub struct MemoryController {
    frames_total: usize,
    frames_used: usize,
    next_page: usize,
    mapped: Ghost<Map<int, PagePerm>>,
    stacks: Ghost<Seq<Stack>>,
}

impl MemoryController {
    /// Byte `b` is backed by a present mapping.
    pub closed spec fn byte_mapped(self, b: int) -> bool {
        self.mapped@.dom().contains(b)
    }

    /// Byte `b` is mapped writable and non-executable — the rights every
    /// stack byte gets.
    pub closed spec fn byte_mapped_rw(self, b: int) -> bool {
        &&& self.mapped@.dom().contains(b)
        &&& self.mapped@[b].writable
        &&& !self.mapped@[b].executable
    }

    /// The stacks handed out so far, in order of allocation.
    pub closed spec fn stacks(self) -> Seq<Stack> {
        self.stacks@
    }

    /// Usable frames the memory map offered, saturated at the machine
    /// word.
    pub closed spec fn frames_total(self) -> int {
        self.frames_total as int
    }

    /// Frames handed out so far.
    pub closed spec fn frames_used(self) -> int {
        self.frames_used as int
    }

    /// Frames still available.
    pub open spec fn frames_left(self) -> int {
        self.frames_total() - self.frames_used()
    }

    /// Stack-area pages not yet used.
    pub closed spec fn pages_left(self) -> int {
        STACK_AREA_END_PAGE - self.next_page
    }

    /// One recorded stack is consistent with the current mapping: every
    /// stack byte mapped writable and non-executable, every byte of the
    /// page below it unmapped, and the whole range below the allocation
    /// cursor.
    pub closed spec fn stack_entry_ok(self, s: Stack) -> bool {
        &&& stack_shape_ok(s)
        &&& s.top <= self.next_page * PAGE_SIZE
        &&& forall|b: int| s.bottom <= b < s.top ==> self.byte_mapped_rw(b)
        &&& forall|b: int| s.bottom - PAGE_SIZE <= b < s.bottom ==> !self.byte_mapped(b)
    }

    /// Internal consistency of the controller.
    pub closed spec fn wf(self) -> bool {
        &&& self.frames_used <= self.frames_total
        &&& STACK_AREA_START_PAGE <= self.next_page <= STACK_AREA_END_PAGE
        &&& forall|b: int|
            self.mapped@.dom().contains(b) ==> STACK_AREA_START_PAGE * PAGE_SIZE <= b
                < self.next_page * PAGE_SIZE
        &&& forall|j: int| 0 <= j < self.stacks@.len() ==> self.stack_entry_ok(
            #[trigger] self.stacks@[j],
        )
    }

    /// Consumes the boot memory map and brings up the controller: frame
    /// bookkeeping over the usable regions, an empty stack area, nothing
    /// mapped in it yet. Fails exactly when the map offers not a single
    /// full frame of usable memory — at that point in boot there is no
    /// fallback.
    pub fn init(areas: &Vec<MemoryArea>) -> (r: Result<MemoryController, MemoryError>)
        ensures
            match r {
                Ok(m) => {
                    &&& m.wf()
                    &&& usable_frames(areas@) >= 1
                    &&& m.frames_total() == cap_usize(usable_frames(areas@))
                    &&& m.frames_used() == 0
                    &&& m.stacks() == Seq::<Stack>::empty()
                    &&& m.pages_left() == STACK_AREA_END_PAGE - STACK_AREA_START_PAGE
                },
                Err(e) => {
                    &&& e == MemoryError::NoUsableMemory
                    &&& usable_frames(areas@) == 0
                },
            },
    {
        let n = areas.len();
        let mut total: usize = 0;
        let mut i: usize = 0;
        while i < n
            invariant
                n == areas@.len(),
                0 <= i <= n,
                total as int == cap_usize(usable_frames(areas@.subrange(0, i as int))),
            decreases n - i,
        {
            let a = areas[i];
            let cnt = if a.usable {
                a.len / PAGE_SIZE
            } else {
                0
            };
            proof {
                let pre = areas@.subrange(0, i as int);
                assert(areas@.subrange(0, i + 1) =~= pre.push(areas@[i as int]));
                lemma_usable_frames_push(pre, areas@[i as int]);
                lemma_usable_frames_nonneg(pre);
                vstd::arithmetic::div_mod::lemma_div_pos_is_pos(a.len as int, PAGE_SIZE as int);
                assert(cnt as int == area_frames(areas@[i as int]));
            }
            if cnt <= usize::MAX - total {
                total = total + cnt;
            } else {
                total = usize::MAX;
            }
            i = i + 1;
        }
        proof {
            assert(areas@.subrange(0, n as int) =~= areas@);
            lemma_usable_frames_nonneg(areas@);
        }
        if total == 0 {
            return Err(MemoryError::NoUsableMemory);
        }
        Ok(
            MemoryController {
                frames_total: total,
                frames_used: 0,
                next_page: STACK_AREA_START_PAGE,
                mapped: Ghost(Map::empty()),
                stacks: Ghost(Seq::empty()),
            },
        )
    }

    /// Allocates a dedicated stack of `size_in_pages` pages: maps its
    /// pages writable and non-executable, leaves the page below it
    /// unmapped as a guard, and keeps every earlier mapping and stack
    /// intact. Exhaustion — of frames or of stack-area pages — is an
    /// explicit error, not an abort: the caller decides whether it is
    /// fatal.
    pub fn alloc_stack(&mut self, size_in_pages: usize) -> (r: Result<Stack, MemoryError>)
        requires
            old(self).wf(),
        ensures
            final(self).wf(),
            final(self).frames_total() == old(self).frames_total(),
            match r {
                Ok(s) => {
                    &&& size_in_pages >= 1
                    &&& old(self).frames_left() >= size_in_pages
                    &&& old(self).pages_left() > size_in_pages
                    &&& stack_shape_ok(s)
                    &&& s.top - s.bottom == size_in_pages * PAGE_SIZE
                    &&& final(self).stacks() == old(self).stacks().push(s)
                    &&& forall|b: int| s.bottom <= b < s.top ==> final(self).byte_mapped_rw(b)
                    &&& forall|b: int|
                        s.bottom - PAGE_SIZE <= b < s.bottom ==> !final(self).byte_mapped(b)
                    &&& forall|b: int|
                        old(self).byte_mapped_rw(b) ==> final(self).byte_mapped_rw(b)
                    &&& final(self).frames_used() == old(self).frames_used() + size_in_pages
                    &&& final(self).pages_left() == old(self).pages_left() - size_in_pages - 1
                },
                Err(e) => {
                    &&& *final(self) == *old(self)
                    &&& e == MemoryError::OutOfMemory
                    &&& (size_in_pages == 0 || old(self).frames_left() < size_in_pages || old(
                        self,
                    ).pages_left() <= size_in_pages)
                },
            },
    {
        if size_in_pages == 0 {
            return Err(MemoryError::OutOfMemory);
        }
        if self.frames_total - self.frames_used < size_in_pages {
            return Err(MemoryError::OutOfMemory);
        }
        if STACK_AREA_END_PAGE - self.next_page <= size_in_pages {
            return Err(MemoryError::OutOfMemory);
        }
        let ghost old_map = self.mapped@;
        let ghost old_next = self.next_page as int;
        let bottom_page = self.next_page + 1;
        let top_page = bottom_page + size_in_pages;
        proof {
            assert(top_page as int * 4096 <= 0xc0000000) by (nonlinear_arith)
                requires
                    0 <= top_page as int <= 0xc0000,
            ;
            assert(top_page as int * PAGE_SIZE as int <= 0xc0000000);
            assert(bottom_page as int * 4096 <= 0xc0000000) by (nonlinear_arith)
                requires
                    0 <= bottom_page as int <= 0xc0000,
            ;
            assert(bottom_page as int * PAGE_SIZE as int <= 0xc0000000);
            vstd::arithmetic::mul::lemma_mul_nonnegative(bottom_page as int, PAGE_SIZE as int);
            vstd::arithmetic::mul::lemma_mul_nonnegative(top_page as int, PAGE_SIZE as int);
            vstd::arithmetic::mul::lemma_mul_inequality(
                top_page as int,
                STACK_AREA_END_PAGE as int,
                PAGE_SIZE as int,
            );
            vstd::arithmetic::mul::lemma_mul_inequality(
                STACK_AREA_START_PAGE as int + 1,
                bottom_page as int,
                PAGE_SIZE as int,
            );
            vstd::arithmetic::mul::lemma_mul_strict_inequality(
                old_next,
                bottom_page as int,
                PAGE_SIZE as int,
            );
            vstd::arithmetic::mul::lemma_mul_strict_inequality(
                bottom_page as int,
                top_page as int,
                PAGE_SIZE as int,
            );
            assert((bottom_page as int) * (PAGE_SIZE as int) == old_next * PAGE_SIZE as int
                + PAGE_SIZE as int) by (nonlinear_arith)
                requires
                    bottom_page as int == old_next + 1,
            ;
            assert((top_page as int) * (PAGE_SIZE as int) == (bottom_page as int) * (
            PAGE_SIZE as int) + (size_in_pages as int) * (PAGE_SIZE as int)) by (nonlinear_arith)
                requires
                    top_page as int == bottom_page as int + size_in_pages as int,
            ;
        }
        let bottom = bottom_page * PAGE_SIZE;
        let top = top_page * PAGE_SIZE;
        let s = Stack { top, bottom };
        self.mapped = Ghost(
            Map::new(
                |b: int| old_map.dom().contains(b) || (bottom <= b < top),
                |b: int|
                    if bottom <= b < top {
                        PagePerm { writable: true, executable: false }
                    } else {
                        old_map[b]
                    },
            ),
        );
        self.next_page = top_page;
        self.frames_used = self.frames_used + size_in_pages;
        self.stacks = Ghost(self.stacks@.push(s));
        proof {
            assert forall|b: int| old(self).byte_mapped_rw(b) implies self.byte_mapped_rw(b) by {
                assert(b < old_next * PAGE_SIZE as int);
            }
            assert forall|j: int| 0 <= j < self.stacks@.len() implies self.stack_entry_ok(
                #[trigger] self.stacks@[j],
            ) by {
                if j < self.stacks@.len() - 1 {
                    let t = self.stacks@[j];
                    assert(old(self).stack_entry_ok(t));
                    assert forall|b: int| t.bottom <= b < t.top implies self.byte_mapped_rw(
                        b,
                    ) by {
                        assert(old(self).byte_mapped_rw(b));
                        assert(b < old_next * PAGE_SIZE as int);
                    }
                    assert forall|b: int| t.bottom - PAGE_SIZE <= b < t.bottom
                        implies !self.byte_mapped(b) by {
                        assert(!old(self).byte_mapped(b));
                        assert(b < old_next * PAGE_SIZE as int);
                    }
                    vstd::arithmetic::mul::lemma_mul_inequality(
                        old_next,
                        top_page as int,
                        PAGE_SIZE as int,
                    );
                } else {
                    assert(self.stacks@[j] == s);
                    assert forall|b: int| s.bottom - PAGE_SIZE <= b < s.bottom
                        implies !self.byte_mapped(b) by {
                        assert(b >= old_next * PAGE_SIZE as int);
                        assert(!old_map.dom().contains(b));
                    }
                }
            }
            assert(self.wf());
        }
        Ok(s)
    }
}

/// Every stack the controller has handed out runs over bytes that are
/// mapped writable and non-executable, and the whole page directly below
/// it is unmapped: an overflow off its bottom faults at once instead of
/// corrupting the neighbouring memory.
pub proof fn lemma_stack_guarded(m: MemoryController, j: int)
    requires
        m.wf(),
        0 <= j < m.stacks().len(),
    ensures
        stack_shape_ok(m.stacks()[j]),
        forall|b: int| m.stacks()[j].bottom <= b < m.stacks()[j].top ==> m.byte_mapped_rw(b),
        forall|b: int|
            m.stacks()[j].bottom - PAGE_SIZE <= b < m.stacks()[j].bottom ==> !m.byte_mapped(b),
{
    assert(m.stack_entry_ok(m.stacks()[j]));
}

} // verus!
