//! The address-space variant for targets without hardware paging: "mapping"
//! degenerates to bookkeeping over regions allocated from the kernel heap,
//! with no translation step and no page faults.

use vstd::prelude::*;

use crate::heap::{alloc_outcome, KernelHeap};

verus! {

/// Marker for the no-paging build: selects the heap-backed address-space
/// variant and designates the kernel heap as the backing allocator.
#[derive(Clone, Copy, PartialEq, Eq, Structural, Debug)]
pub struct NoMMUSupportImpl;

/// One heap-backed region standing in for a mapped area.
#[derive(Clone, Copy, PartialEq, Eq, Structural, Debug)]
pub struct NoMmuArea {
    pub addr: usize,
    pub size: usize,
}

/// The no-MMU address space: a list of heap-backed regions.
pub struct NoMmuMemorySet {
    areas: Vec<NoMmuArea>,
}

impl NoMmuMemorySet {
    /// The regions, in allocation order.
    pub closed spec fn areas_v(&self) -> Seq<NoMmuArea> {
        self.areas@
    }

    /// An empty no-MMU address space.
    pub fn new() -> (r: Self)
        ensures
            r.areas_v() == Seq::<NoMmuArea>::empty(),
    {
        NoMmuMemorySet { areas: Vec::new() }
    }

    /// "Maps" a region of `size` bytes by allocating backing memory from
    /// the kernel heap and recording it; returns the region's address, or
    /// nothing when the heap is exhausted.
    pub fn push(&mut self, heap: &mut KernelHeap, size: usize) -> (r: Option<usize>)
        requires
            old(heap).wf(),
            size > 0,
        ensures
            final(heap).wf(),
            match r {
                Some(a) => final(self).areas_v() == old(self).areas_v().push(
                    NoMmuArea { addr: a, size },
                ) && alloc_outcome(*old(heap), *final(heap), size, 1, Some(a)),
                None => final(self).areas_v() == old(self).areas_v() && alloc_outcome(
                    *old(heap),
                    *final(heap),
                    size,
                    1,
                    None::<usize>,
                ),
            },
    {
        match heap.allocate(size, 1) {
            Some(a) => {
                self.areas.push(NoMmuArea { addr: a, size });
                Some(a)
            },
            None => None,
        }
    }

    /// Without a paging unit no page fault can occur, so a call here
    /// indicates a trap-dispatch bug elsewhere; the fault is reported
    /// unresolvable and the caller escalates.
    pub fn page_fault_handler(&self, _addr: usize) -> (r: bool)
        ensures
            r == false,
    {
        false
    }
}

} // verus!
