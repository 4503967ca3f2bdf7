//! The physical frame allocator: a bitmap over frame indices, the only
//! source and sink of physical frames, plus the kernel-facing layer that
//! speaks physical addresses instead of bitmap indices.

use vstd::prelude::*;

use crate::consts::{MEMORY_OFFSET, PAGE_SIZE};

verus! {

/// Index of the first free frame at or after position `i`, if any.
pub open spec fn first_free_from(s: Seq<bool>, i: int) -> Option<int>
    decreases s.len() - i,
{
    if i < 0 || i >= s.len() {
        None
    } else if s[i] {
        Some(i)
    } else {
        first_free_from(s, i + 1)
    }
}

/// Index of the lowest free frame in the bitmap, if any.
pub open spec fn first_free(s: Seq<bool>) -> Option<int> {
    first_free_from(s, 0)
}

/// One allocation step of the bitmap: the lowest free index is `i`, and the
/// step marks it used.
pub open spec fn alloc_step(pre: Seq<bool>, post: Seq<bool>, i: int) -> bool {
    &&& first_free(pre) == Some(i)
    &&& post == pre.update(i, false)
}

proof fn lemma_first_free_from(s: Seq<bool>, i: int)
    requires
        0 <= i <= s.len(),
    ensures
        match first_free_from(s, i) {
            Some(j) => i <= j < s.len() && s[j] && (forall|k: int| i <= k < j ==> !s[k]),
            None => forall|k: int| i <= k < s.len() ==> !s[k],
        },
    decreases s.len() - i,
{
    if i < s.len() && !s[i] {
        lemma_first_free_from(s, i + 1);
    }
}

/// The lowest free index is free, lies below the capacity, and nothing below
/// it is free; it is absent exactly when no frame is free at all.
pub proof fn lemma_first_free(s: Seq<bool>)
    ensures
        match first_free(s) {
            Some(j) => 0 <= j < s.len() && s[j] && (forall|k: int| 0 <= k < j ==> !s[k]),
            None => forall|k: int| 0 <= k < s.len() ==> !s[k],
        },
{
    lemma_first_free_from(s, 0);
}

proof fn lemma_first_free_at(s: Seq<bool>, i: int, j: int)
    requires
        0 <= i <= j < s.len(),
        s[j],
        forall|k: int| i <= k < j ==> !s[k],
    ensures
        first_free_from(s, i) == Some(j),
    decreases j - i,
{
    if i < j {
        lemma_first_free_at(s, i + 1, j);
    }
}

proof fn lemma_first_free_none(s: Seq<bool>, i: int)
    requires
        0 <= i <= s.len(),
        forall|k: int| i <= k < s.len() ==> !s[k],
    ensures
        first_free_from(s, i) is None,
    decreases s.len() - i,
{
    if i < s.len() {
        lemma_first_free_none(s, i + 1);
    }
}

/// The bitmap over physical page-frame indices. `true` means the frame is
/// free; all frames start out used until the usable physical range is
/// inserted at boot.
pub struct FrameAlloc {
    bits: Vec<bool>,
}

impl View for FrameAlloc {
    type V = Seq<bool>;

    closed spec fn view(&self) -> Seq<bool> {
        self.bits@
    }
}

impl FrameAlloc {
    /// A bitmap of `capacity` frames, all marked used.
    pub fn new(capacity: usize) -> (r: Self)
        ensures
            r@.len() == capacity,
            forall|i: int| 0 <= i < capacity ==> !r@[i],
    {
        let mut bits: Vec<bool> = Vec::new();
        let mut n: usize = 0;
        while n < capacity
            invariant
                n <= capacity,
                bits@.len() == n,
                forall|i: int| 0 <= i < n ==> !bits@[i],
            decreases capacity - n,
        {
            bits.push(false);
            n = n + 1;
        }
        FrameAlloc { bits }
    }

    /// Number of frames the bitmap covers.
    pub fn capacity(&self) -> (r: usize)
        ensures
            r == self@.len(),
    {
        self.bits.len()
    }

    /// Whether frame `i` is currently free.
    pub fn test(&self, i: usize) -> (r: bool)
        requires
            i < self@.len(),
        ensures
            r == self@[i as int],
    {
        self.bits[i]
    }

    /// Marks the frames of `[start, end)` free: the usable physical range,
    /// declared once at boot.
    pub fn insert_range(&mut self, start: usize, end: usize)
        requires
            start <= end,
            end <= old(self)@.len(),
        ensures
            final(self)@.len() == old(self)@.len(),
            forall|i: int|
                0 <= i < final(self)@.len() ==> final(self)@[i] == (start <= i < end
                    || old(self)@[i]),
    {
        let mut j: usize = start;
        while j < end
            invariant
                start <= j <= end,
                end <= self@.len(),
                self@.len() == old(self)@.len(),
                forall|i: int|
                    0 <= i < self@.len() ==> self@[i] == (start <= i < j || old(self)@[i]),
            decreases end - j,
        {
            self.bits.set(j, true);
            j = j + 1;
        }
    }

    /// Allocates the lowest free frame index and marks it used; reports
    /// exhaustion exactly when no frame is free.
    pub fn allocate(&mut self) -> (r: Option<usize>)
        ensures
            final(self)@.len() == old(self)@.len(),
            match r {
                Some(i) => alloc_step(old(self)@, final(self)@, i as int),
                None => first_free(old(self)@) is None && final(self)@ == old(self)@,
            },
    {
        let n: usize = self.bits.len();
        let mut j: usize = 0;
        while j < n
            invariant
                j <= n,
                n == self@.len(),
                self@ == old(self)@,
                forall|k: int| 0 <= k < j ==> !self@[k],
            decreases n - j,
        {
            if self.bits[j] {
                proof {
                    lemma_first_free_at(old(self)@, 0, j as int);
                }
                self.bits.set(j, false);
                return Some(j);
            }
            j = j + 1;
        }
        proof {
            lemma_first_free_none(old(self)@, 0);
        }
        None
    }

    /// Returns frame `i` to the free pool. The caller guarantees that `i`
    /// was returned by `alloc` and has not been freed since; the `requires`
    /// states exactly that the frame is currently used.
    pub fn dealloc(&mut self, i: usize)
        requires
            i < old(self)@.len(),
            !old(self)@[i as int],
        ensures
            final(self)@ == old(self)@.update(i as int, true),
    {
        self.bits.set(i, true);
    }
}

/// Law: frame allocation never hands out a duplicate. Two successive
/// allocation steps return distinct indices, both below the bitmap capacity,
/// so the set of currently-allocated indices stays disjoint and bounded.
pub proof fn lemma_alloc_distinct(s0: Seq<bool>, s1: Seq<bool>, s2: Seq<bool>, i: int, j: int)
    requires
        alloc_step(s0, s1, i),
        alloc_step(s1, s2, j),
    ensures
        i != j,
        0 <= i < s0.len(),
        0 <= j < s0.len(),
{
    lemma_first_free(s0);
    lemma_first_free(s1);
}

/// Law: an exhausted pool reports exhaustion, not a duplicate index: when
/// every frame is used, no allocation step is possible and `first_free` is
/// absent.
pub proof fn lemma_alloc_exhausted(s: Seq<bool>)
    requires
        forall|k: int| 0 <= k < s.len() ==> !s[k],
    ensures
        first_free(s) is None,
        forall|post: Seq<bool>, i: int| !alloc_step(s, post, i),
{
    lemma_first_free_none(s, 0);
}

/// Law: a freed frame is immediately reusable. Deallocating the frame just
/// returned by an allocation step restores the bitmap exactly, so the next
/// allocation returns the same index (and hence the same physical address).
pub proof fn lemma_realloc_same(s0: Seq<bool>, s1: Seq<bool>, i: int)
    requires
        alloc_step(s0, s1, i),
    ensures
        s1.update(i, true) == s0,
        first_free(s1.update(i, true)) == Some(i),
{
    lemma_first_free(s0);
    assert(s1.update(i, true) =~= s0);
}

/// The kernel-wide frame allocator: the bitmap together with the affine map
/// between bitmap indices and physical addresses
/// (`address == index * PAGE_SIZE + MEMORY_OFFSET`).
pub struct GlobalFrameAlloc {
    bitmap: FrameAlloc,
}

impl View for GlobalFrameAlloc {
    type V = Seq<bool>;

    closed spec fn view(&self) -> Seq<bool> {
        self.bitmap@
    }
}

/// Physical address of the frame with bitmap index `i`.
pub open spec fn frame_addr(i: int) -> int {
    i * PAGE_SIZE + MEMORY_OFFSET
}

impl GlobalFrameAlloc {
    /// The capacity is small enough that every frame's physical address fits
    /// in a machine word.
    pub open spec fn wf(&self) -> bool {
        self@.len() * PAGE_SIZE + MEMORY_OFFSET <= usize::MAX
    }

    /// An allocator over `capacity` frames, all initially used.
    pub fn new(capacity: usize) -> (r: Self)
        requires
            capacity * PAGE_SIZE + MEMORY_OFFSET <= usize::MAX,
        ensures
            r.wf(),
            r@.len() == capacity,
            forall|i: int| 0 <= i < capacity ==> !r@[i],
    {
        GlobalFrameAlloc { bitmap: FrameAlloc::new(capacity) }
    }

    /// Declares the frames of `[start, end)` usable, at boot.
    pub fn insert_range(&mut self, start: usize, end: usize)
        requires
            start <= end,
            end <= old(self)@.len(),
        ensures
            final(self)@.len() == old(self)@.len(),
            final(self).wf() == old(self).wf(),
            forall|i: int|
                0 <= i < final(self)@.len() ==> final(self)@[i] == (start <= i < end
                    || old(self)@[i]),
    {
        self.bitmap.insert_range(start, end);
    }

    /// Allocates one frame and returns its physical address: the lowest free
    /// bitmap index, scaled past the physical memory offset. Exhaustion is
    /// reported as an absent value.
    pub fn allocate(&mut self) -> (r: Option<usize>)
        requires
            old(self).wf(),
        ensures
            final(self).wf(),
            final(self)@.len() == old(self)@.len(),
            match first_free(old(self)@) {
                Some(i) => r == Some(frame_addr(i) as usize)
                    && alloc_step(old(self)@, final(self)@, i),
                None => r is None && final(self)@ == old(self)@,
            },
    {
        match self.bitmap.allocate() {
            Some(id) => {
                proof {
                    lemma_first_free(old(self)@);
                    assert((id as int) * PAGE_SIZE + PAGE_SIZE <= self@.len() * PAGE_SIZE)
                        by (nonlinear_arith)
                        requires
                            (id as int) < self@.len(),
                            PAGE_SIZE > 0,
                    ;
                }
                Some(id * PAGE_SIZE + MEMORY_OFFSET)
            },
            None => None,
        }
    }

    /// Frees the frame at physical address `target`. The caller guarantees
    /// the address was returned by `alloc` and has not been freed since;
    /// the `requires` states exactly that.
    pub fn dealloc(&mut self, target: usize)
        requires
            old(self).wf(),
            MEMORY_OFFSET <= target,
            (target - MEMORY_OFFSET) % (PAGE_SIZE as int) == 0,
            (target - MEMORY_OFFSET) / (PAGE_SIZE as int) < old(self)@.len(),
            !old(self)@[(target - MEMORY_OFFSET) / (PAGE_SIZE as int)],
        ensures
            final(self).wf(),
            final(self)@ == old(self)@.update((target - MEMORY_OFFSET) / (PAGE_SIZE as int), true),
    {
        self.bitmap.dealloc((target - MEMORY_OFFSET) / PAGE_SIZE);
    }
}

/// Allocates a physical frame for the rest of the kernel, returning its
/// physical address, or nothing when physical memory is exhausted.
pub fn alloc_frame(allocator: &mut GlobalFrameAlloc) -> (r: Option<usize>)
    requires
        old(allocator).wf(),
    ensures
        final(allocator).wf(),
        final(allocator)@.len() == old(allocator)@.len(),
        match first_free(old(allocator)@) {
            Some(i) => r == Some(frame_addr(i) as usize)
                && alloc_step(old(allocator)@, final(allocator)@, i),
            None => r is None && final(allocator)@ == old(allocator)@,
        },
{
    allocator.allocate()
}

/// Returns the frame at physical address `target` to the free pool; the
/// caller guarantees the address came from `alloc_frame` and is not yet
/// freed.
pub fn dealloc_frame(allocator: &mut GlobalFrameAlloc, target: usize)
    requires
        old(allocator).wf(),
        MEMORY_OFFSET <= target,
        (target - MEMORY_OFFSET) % (PAGE_SIZE as int) == 0,
        (target - MEMORY_OFFSET) / (PAGE_SIZE as int) < old(allocator)@.len(),
        !old(allocator)@[(target - MEMORY_OFFSET) / (PAGE_SIZE as int)],
    ensures
        final(allocator).wf(),
        final(allocator)@ == old(allocator)@.update(
            (target - MEMORY_OFFSET) / (PAGE_SIZE as int),
            true,
        ),
{
    allocator.dealloc(target);
}

} // verus!
