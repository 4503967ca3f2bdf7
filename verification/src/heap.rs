//! The kernel heap: a lock-protected free-list allocator over the statically
//! reserved heap region, backing all kernel dynamic allocation, and the
//! kernel stacks carved out of it with fixed size and alignment.

use vstd::prelude::*;

use crate::consts::{KERNEL_HEAP_BASE, KERNEL_HEAP_SIZE, STACK_SIZE};

verus! {

/// One block on the heap's free list.
#[derive(Clone, Copy, PartialEq, Eq, Structural, Debug)]
pub struct HeapBlock {
    pub addr: usize,
    pub size: usize,
}

/// Whether free block `b` satisfies a request for `size` bytes aligned to
/// `align`.
pub open spec fn fits(b: HeapBlock, size: usize, align: usize) -> bool {
    b.size == size && (b.addr as int) % (align as int) == 0
}

/// Index of the first fitting free block at or after position `i`, if any.
pub open spec fn first_fit_from(
    blocks: Seq<HeapBlock>,
    size: usize,
    align: usize,
    i: int,
) -> Option<int>
    decreases blocks.len() - i,
{
    if i < 0 || i >= blocks.len() {
        None
    } else if fits(blocks[i], size, align) {
        Some(i)
    } else {
        first_fit_from(blocks, size, align, i + 1)
    }
}

/// Index of the first free block that satisfies the request, if any.
pub open spec fn first_fit(blocks: Seq<HeapBlock>, size: usize, align: usize) -> Option<int> {
    first_fit_from(blocks, size, align, 0)
}

proof fn lemma_first_fit_at(blocks: Seq<HeapBlock>, size: usize, align: usize, i: int, j: int)
    requires
        0 <= i <= j < blocks.len(),
        fits(blocks[j], size, align),
        forall|k: int| i <= k < j ==> !fits(blocks[k], size, align),
    ensures
        first_fit_from(blocks, size, align, i) == Some(j),
    decreases j - i,
{
    if i < j {
        lemma_first_fit_at(blocks, size, align, i + 1, j);
    }
}

proof fn lemma_first_fit_none(blocks: Seq<HeapBlock>, size: usize, align: usize, i: int)
    requires
        0 <= i <= blocks.len(),
        forall|k: int| i <= k < blocks.len() ==> !fits(blocks[k], size, align),
    ensures
        first_fit_from(blocks, size, align, i) is None,
    decreases blocks.len() - i,
{
    if i < blocks.len() {
        lemma_first_fit_none(blocks, size, align, i + 1);
    }
}

/// Padding that advances `base + brk` to the next `align` boundary.
pub open spec fn bump_pad(base: int, brk: int, align: int) -> int {
    let pos = base + brk;
    if pos % align == 0 {
        0
    } else {
        align - pos % align
    }
}

/// The kernel heap state: the reserved region, the high-water mark of bump
/// allocation, and the free list of returned blocks.
pub struct KernelHeap {
    base: usize,
    size: usize,
    brk: usize,
    free_list: Vec<HeapBlock>,
}

/// What one heap allocation does: either the first fitting free block is
/// taken off the free list, or the request is carved off the unused tail of
/// the region past the next alignment boundary, or the heap reports
/// exhaustion and changes nothing.
pub open spec fn alloc_outcome(
    pre: KernelHeap,
    post: KernelHeap,
    size: usize,
    align: usize,
    r: Option<usize>,
) -> bool {
    &&& post.base() == pre.base()
    &&& post.size() == pre.size()
    &&& match first_fit(pre.free_list(), size, align) {
        Some(bi) => {
            &&& r == Some(pre.free_list()[bi].addr)
            &&& post.free_list() == pre.free_list().remove(bi)
            &&& post.brk() == pre.brk()
        },
        None => {
            let pad = bump_pad(pre.base() as int, pre.brk() as int, align as int);
            if pre.brk() + pad + size <= pre.size() {
                &&& r == Some((pre.base() + pre.brk() + pad) as usize)
                &&& post.brk() == pre.brk() + pad + size
                &&& post.free_list() == pre.free_list()
            } else {
                &&& r is None
                &&& post.brk() == pre.brk()
                &&& post.free_list() == pre.free_list()
            }
        },
    }
}

impl KernelHeap {
    /// Lowest address of the region.
    pub closed spec fn base(&self) -> usize {
        self.base
    }

    /// Size in bytes of the region.
    pub closed spec fn size(&self) -> usize {
        self.size
    }

    /// Bytes consumed from the start of the region by bump allocation.
    pub closed spec fn brk(&self) -> usize {
        self.brk
    }

    /// The free list, in the order blocks were returned.
    pub closed spec fn free_list(&self) -> Seq<HeapBlock> {
        self.free_list@
    }

    /// The heap covers exactly the reserved region, the high-water mark
    /// stays inside it, and every free block lies inside it.
    pub open spec fn wf(&self) -> bool {
        &&& self.base() == KERNEL_HEAP_BASE
        &&& self.size() == KERNEL_HEAP_SIZE
        &&& self.brk() <= self.size()
        &&& forall|i: int|
            0 <= i < self.free_list().len() ==> KERNEL_HEAP_BASE <= (
            #[trigger] self.free_list()[i]).addr && self.free_list()[i].addr
                + self.free_list()[i].size <= KERNEL_HEAP_BASE + KERNEL_HEAP_SIZE
    }

    /// Allocates `size` bytes aligned to `align`, first-fit from the free
    /// list, else by advancing the high-water mark; exhaustion is reported
    /// as an absent value and changes nothing.
    pub fn allocate(&mut self, size: usize, align: usize) -> (r: Option<usize>)
        requires
            old(self).wf(),
            size > 0,
            align > 0,
            (KERNEL_HEAP_BASE as int) % (align as int) == 0,
        ensures
            final(self).wf(),
            alloc_outcome(*old(self), *final(self), size, align, r),
            match r {
                Some(a) => (a as int) % (align as int) == 0 && KERNEL_HEAP_BASE <= a && a + size
                    <= KERNEL_HEAP_BASE + KERNEL_HEAP_SIZE,
                None => true,
            },
    {
        let n: usize = self.free_list.len();
        let mut i: usize = 0;
        while i < n
            invariant
                i <= n,
                n == self.free_list().len(),
                self == old(self),
                self.wf(),
                align > 0,
                forall|k: int| 0 <= k < i ==> !fits(self.free_list()[k], size, align),
            decreases n - i,
        {
            let b = self.free_list[i];
            if b.size == size && b.addr % align == 0 {
                proof {
                    lemma_first_fit_at(self.free_list(), size, align, 0, i as int);
                }
                self.free_list.remove(i);
                proof {
                    assert forall|j: int|
                        0 <= j < self.free_list().len() implies KERNEL_HEAP_BASE <= (
                    #[trigger] self.free_list()[j]).addr && self.free_list()[j].addr
                        + self.free_list()[j].size <= KERNEL_HEAP_BASE + KERNEL_HEAP_SIZE by {
                        if j < i {
                            assert(self.free_list()[j] == old(self).free_list()[j]);
                        } else {
                            assert(self.free_list()[j] == old(self).free_list()[j + 1]);
                        }
                    }
                }
                return Some(b.addr);
            }
            i = i + 1;
        }
        proof {
            lemma_first_fit_none(self.free_list(), size, align, 0);
        }
        let pos = self.base + self.brk;
        let rem = pos % align;
        let pad = if rem == 0 {
            0
        } else {
            align - rem
        };
        if pad <= self.size - self.brk && size <= self.size - self.brk - pad {
            let a = pos + pad;
            self.brk = self.brk + pad + size;
            proof {
                let p = pos as int;
                let al = align as int;
                let rm = p % al;
                if rm != 0 {
                    vstd::arithmetic::div_mod::lemma_fundamental_div_mod(p, al);
                    assert((p + (al - rm)) == al * ((p / al) + 1)) by (nonlinear_arith)
                        requires
                            al > 0,
                            p == al * (p / al) + rm,
                    ;
                    assert((al * ((p / al) + 1)) % al == 0) by (nonlinear_arith)
                        requires
                            al > 0,
                    ;
                }
            }
            Some(a)
        } else {
            None
        }
    }

    /// Returns a previously allocated block to the free list; the caller
    /// guarantees `addr` and `size` describe an allocation obtained from
    /// this heap and not yet freed.
    pub fn deallocate(&mut self, addr: usize, size: usize)
        requires
            old(self).wf(),
            KERNEL_HEAP_BASE <= addr,
            addr + size <= KERNEL_HEAP_BASE + KERNEL_HEAP_SIZE,
        ensures
            final(self).wf(),
            final(self).free_list() == old(self).free_list().push(HeapBlock { addr, size }),
            final(self).brk() == old(self).brk(),
            final(self).base() == old(self).base(),
            final(self).size() == old(self).size(),
    {
        self.free_list.push(HeapBlock { addr, size });
        proof {
            assert forall|i: int|
                0 <= i < self.free_list().len() implies KERNEL_HEAP_BASE <= (
            #[trigger] self.free_list()[i]).addr && self.free_list()[i].addr
                + self.free_list()[i].size <= KERNEL_HEAP_BASE + KERNEL_HEAP_SIZE by {
                if i < old(self).free_list().len() {
                    assert(self.free_list()[i] == old(self).free_list()[i]);
                }
            }
        }
    }
}

/// Sets up the kernel heap over the statically reserved region. Called
/// exactly once at boot, before any dynamic allocation: the returned state
/// is the only handle to the heap, which enforces the ordering by
/// ownership.
pub fn init_heap() -> (h: KernelHeap)
    ensures
        h.wf(),
        h.brk() == 0,
        h.free_list() == Seq::<HeapBlock>::empty(),
{
    KernelHeap { base: KERNEL_HEAP_BASE, size: KERNEL_HEAP_SIZE, brk: 0, free_list: Vec::new() }
}

/// A kernel stack: one fixed-size, stack-size-aligned allocation from the
/// kernel heap, owned exclusively by the execution context it backs.
pub struct KernelStack {
    addr: usize,
}

impl KernelStack {
    /// Lowest address of the stack's allocation.
    pub closed spec fn bottom(&self) -> usize {
        self.addr
    }

    /// The allocation is aligned to the stack size and lies inside the
    /// kernel heap region.
    pub open spec fn wf(&self) -> bool {
        &&& (self.bottom() as int) % (STACK_SIZE as int) == 0
        &&& KERNEL_HEAP_BASE <= self.bottom()
        &&& self.bottom() + STACK_SIZE <= KERNEL_HEAP_BASE + KERNEL_HEAP_SIZE
    }

    /// Requests one size-and-alignment-matched allocation from the kernel
    /// heap; heap exhaustion is reported as an absent value.
    pub fn new(heap: &mut KernelHeap) -> (r: Option<KernelStack>)
        requires
            old(heap).wf(),
        ensures
            final(heap).wf(),
            match r {
                Some(s) => s.wf() && alloc_outcome(
                    *old(heap),
                    *final(heap),
                    STACK_SIZE,
                    STACK_SIZE,
                    Some(s.bottom()),
                ),
                None => alloc_outcome(
                    *old(heap),
                    *final(heap),
                    STACK_SIZE,
                    STACK_SIZE,
                    None::<usize>,
                ),
            },
    {
        match heap.allocate(STACK_SIZE, STACK_SIZE) {
            Some(a) => Some(KernelStack { addr: a }),
            None => None,
        }
    }

    /// The initial stack pointer: the top of the allocation, since stacks
    /// grow downward. Aligned to the stack size, with exactly one stack's
    /// worth of usable bytes below it.
    pub fn top(&self) -> (r: usize)
        requires
            self.wf(),
        ensures
            r == self.bottom() + STACK_SIZE,
            (r as int) % (STACK_SIZE as int) == 0,
    {
        proof {
            assert(((self.bottom() + STACK_SIZE) as int) % (STACK_SIZE as int) == 0)
                by (nonlinear_arith)
                requires
                    (self.bottom() as int) % (STACK_SIZE as int) == 0,
                    (STACK_SIZE as int) > 0,
                    self.bottom() + STACK_SIZE <= usize::MAX,
            ;
        }
        self.addr + STACK_SIZE
    }

    /// Returns the stack's memory to the kernel heap. Release is owed on
    /// every exit path when the owning context is destroyed; consuming the
    /// stack here guarantees it cannot be used afterwards.
    pub fn release(self, heap: &mut KernelHeap)
        requires
            old(heap).wf(),
            self.wf(),
        ensures
            final(heap).wf(),
            final(heap).free_list() == old(heap).free_list().push(
                HeapBlock { addr: self.bottom(), size: STACK_SIZE },
            ),
            final(heap).brk() == old(heap).brk(),
    {
        heap.deallocate(self.addr, STACK_SIZE);
    }
}

} // verus!
