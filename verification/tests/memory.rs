use kmm::consts::{KERNEL_HEAP_SIZE, MEMORY_OFFSET, PAGE_SIZE, STACK_SIZE};
use kmm::frame_alloc::{alloc_frame, dealloc_frame, FrameAlloc, GlobalFrameAlloc};
use kmm::heap::{init_heap, KernelStack};
use kmm::memory_set::{Handler, MemoryArea, MemoryAttr, MemorySet};
use kmm::no_mmu::NoMmuMemorySet;
use kmm::paging::{PageEntry, PageTable};
use kmm::phys_mem::PhysMemory;

fn rw_attr() -> MemoryAttr {
    MemoryAttr { user: true, readonly: false, execute: false }
}

fn setup(frames: usize) -> (FrameAlloc, PhysMemory) {
    let mut fa = FrameAlloc::new(frames);
    fa.insert_range(0, frames);
    (fa, PhysMemory::new(frames))
}

#[test]
fn frame_alloc_distinct_and_exhausted() {
    let mut fa = FrameAlloc::new(4);
    assert_eq!(fa.capacity(), 4);
    fa.insert_range(0, 2);
    let a = fa.allocate().unwrap();
    let b = fa.allocate().unwrap();
    assert_ne!(a, b);
    assert!(a < 4 && b < 4);
    // the pool is exhausted: the signal, never a duplicate index
    assert_eq!(fa.allocate(), None);
    assert_eq!(fa.allocate(), None);
}

#[test]
fn frame_alloc_lowest_first() {
    let mut fa = FrameAlloc::new(8);
    fa.insert_range(2, 5);
    assert_eq!(fa.allocate(), Some(2));
    assert_eq!(fa.allocate(), Some(3));
    assert!(!fa.test(2));
    fa.dealloc(2);
    assert!(fa.test(2));
    assert_eq!(fa.allocate(), Some(2));
}

#[test]
fn frame_roundtrip_same_address() {
    let mut ga = GlobalFrameAlloc::new(16);
    ga.insert_range(0, 16);
    let a = alloc_frame(&mut ga).unwrap();
    assert_eq!(a, MEMORY_OFFSET);
    dealloc_frame(&mut ga, a);
    let b = alloc_frame(&mut ga).unwrap();
    assert_eq!(a, b);
}

#[test]
fn frame_alloc_address_formula() {
    let mut ga = GlobalFrameAlloc::new(8);
    ga.insert_range(3, 8);
    assert_eq!(alloc_frame(&mut ga), Some(3 * PAGE_SIZE + MEMORY_OFFSET));
    assert_eq!(alloc_frame(&mut ga), Some(4 * PAGE_SIZE + MEMORY_OFFSET));
}

#[test]
fn global_frame_alloc_exhausted() {
    let mut ga = GlobalFrameAlloc::new(4);
    // nothing inserted: every frame is used
    assert_eq!(alloc_frame(&mut ga), None);
}

#[test]
fn unmap_is_idempotent() {
    let mut pt = PageTable::new();
    let e = PageEntry {
        present: true,
        writable: true,
        user: false,
        execute: false,
        shared: false,
        target: 7,
    };
    pt.map(9, e);
    assert_eq!(pt.get(9), Some(e));
    assert!(pt.unmap(9));
    assert_eq!(pt.get(9), None);
    // unmapping the already-unmapped page: a no-op with the no-mapping signal
    assert!(!pt.unmap(9));
    assert_eq!(pt.get(9), None);
    assert!(!pt.unmap(1234));
}

#[test]
fn map_replaces_translation() {
    let mut pt = PageTable::new();
    let e1 = PageEntry {
        present: true,
        writable: false,
        user: true,
        execute: false,
        shared: true,
        target: 1,
    };
    let e2 = PageEntry { target: 2, shared: false, writable: true, ..e1 };
    pt.map(5, e1);
    pt.map(5, e2);
    assert_eq!(pt.get(5), Some(e2));
}

#[test]
fn cow_write_fault_with_two_owners() {
    let (mut fa, mut mem) = setup(8);
    let shared = fa.allocate().unwrap();
    mem.write(shared, 0, 0xAB);
    mem.write(shared, 17, 0xCD);

    let area = MemoryArea {
        start: 0x1000,
        end: 0x3000,
        attr: rw_attr(),
        handler: Handler::Cow,
    };
    let mut parent = MemorySet::new();
    parent.push(area);
    let mut child = MemorySet::new();
    child.push(area);
    parent.map_shared(&mut mem, 0x1000, shared);
    child.map_shared(&mut mem, 0x1000, shared);
    assert_eq!(mem.refcount_read(shared), 2);

    // neither owner may write through the shared read-only mapping
    assert!(!parent.write_byte(&mut mem, 0x1000, 0xEE));

    // the write fault from one owner
    assert!(parent.page_fault_handler(&mut fa, &mut mem, 0x1000));

    // (a) that owner now has a private writable frame with identical contents
    let pe = parent.active_table().get(1).unwrap();
    assert!(pe.writable && !pe.shared);
    assert_ne!(pe.target, shared);
    assert_eq!(parent.read_byte(&mem, 0x1000), Some(0xAB));
    assert_eq!(parent.read_byte(&mem, 0x1011), Some(0xCD));
    assert!(parent.write_byte(&mut mem, 0x1000, 0xEE));
    assert_eq!(parent.read_byte(&mem, 0x1000), Some(0xEE));

    // (b) the other owner's mapping is unchanged and still readable
    let ce = child.active_table().get(1).unwrap();
    assert!(ce.shared && !ce.writable);
    assert_eq!(ce.target, shared);
    assert_eq!(child.read_byte(&mem, 0x1000), Some(0xAB));

    // (c) the reference count dropped by exactly one
    assert_eq!(mem.refcount_read(shared), 1);
}

#[test]
fn cow_sole_owner_upgrades_in_place() {
    let (mut fa, mut mem) = setup(8);
    let shared = fa.allocate().unwrap();
    mem.write(shared, 3, 0x42);
    let area = MemoryArea {
        start: 0x1000,
        end: 0x2000,
        attr: rw_attr(),
        handler: Handler::Cow,
    };
    let mut ms = MemorySet::new();
    ms.push(area);
    ms.map_shared(&mut mem, 0x1000, shared);
    assert_eq!(mem.refcount_read(shared), 1);

    assert!(ms.page_fault_handler(&mut fa, &mut mem, 0x1000));
    let e = ms.active_table().get(1).unwrap();
    // upgraded in place: same frame, now writable and private
    assert_eq!(e.target, shared);
    assert!(e.writable && !e.shared);
    assert_eq!(ms.read_byte(&mem, 0x1003), Some(0x42));
    assert_eq!(mem.refcount_read(shared), 0);
}

#[test]
fn cow_fault_fails_cleanly_when_exhausted() {
    let mut fa = FrameAlloc::new(4);
    fa.insert_range(0, 1);
    let mut mem = PhysMemory::new(4);
    let shared = fa.allocate().unwrap();
    let area = MemoryArea {
        start: 0x1000,
        end: 0x2000,
        attr: rw_attr(),
        handler: Handler::Cow,
    };
    let mut parent = MemorySet::new();
    parent.push(area);
    let mut child = MemorySet::new();
    child.push(area);
    parent.map_shared(&mut mem, 0x1000, shared);
    child.map_shared(&mut mem, 0x1000, shared);

    // no free frame for the private copy: the fault aborts cleanly
    assert!(!parent.page_fault_handler(&mut fa, &mut mem, 0x1000));
    // shared state is uncorrupted
    assert_eq!(mem.refcount_read(shared), 2);
    let pe = parent.active_table().get(1).unwrap();
    assert!(pe.shared && pe.target == shared);
}

#[test]
fn lazy_first_touch_zero_fills() {
    let (mut fa, mut mem) = setup(8);
    let area = MemoryArea {
        start: 0x1000,
        end: 0x2000,
        attr: rw_attr(),
        handler: Handler::Lazy,
    };
    let mut ms = MemorySet::new();
    ms.push(area);

    // the first read of the unmapped page faults
    assert_eq!(ms.read_byte(&mem, 0x1234), None);
    // the fault resolves successfully
    assert!(ms.page_fault_handler(&mut fa, &mut mem, 0x1234));
    // the page reads back zero-filled
    assert_eq!(ms.read_byte(&mem, 0x1000), Some(0));
    assert_eq!(ms.read_byte(&mem, 0x1234), Some(0));
    assert_eq!(ms.read_byte(&mem, 0x1fff), Some(0));
    // a second read of the same page needs no further fault
    assert_eq!(ms.read_byte(&mem, 0x1234), Some(0));
}

#[test]
fn containment_miss_is_unresolved() {
    let (mut fa, mut mem) = setup(8);
    let mut ms = MemorySet::new();
    // empty address space: any address is an unresolved fault
    assert!(!ms.page_fault_handler(&mut fa, &mut mem, 0x1000));
    let area = MemoryArea {
        start: 0x1000,
        end: 0x2000,
        attr: rw_attr(),
        handler: Handler::Lazy,
    };
    ms.push(area);
    assert!(!ms.page_fault_handler(&mut fa, &mut mem, 0xfff));
    assert!(!ms.page_fault_handler(&mut fa, &mut mem, 0x2000));
    assert!(!ms.page_fault_handler(&mut fa, &mut mem, 0x5000));
    assert!(ms.page_fault_handler(&mut fa, &mut mem, 0x1000));
}

#[test]
fn end_to_end_lazy_area() {
    let (mut fa, mut mem) = setup(16);
    let area = MemoryArea {
        start: 0x1000,
        end: 0x2000,
        attr: rw_attr(),
        handler: Handler::Lazy,
    };
    let mut ms = MemorySet::new();
    ms.push(area);

    // a write touches 0x1000: the access faults, the fault resolves
    assert!(!ms.write_byte(&mut mem, 0x1000, 42));
    assert!(ms.page_fault_handler(&mut fa, &mut mem, 0x1000));
    // the page is now readable and writable, and the value persists
    assert!(ms.write_byte(&mut mem, 0x1000, 42));
    assert_eq!(ms.read_byte(&mem, 0x1000), Some(42));
    // outside the area: unresolved
    assert!(!ms.page_fault_handler(&mut fa, &mut mem, 0x5000));
    assert_eq!(ms.read_byte(&mem, 0x5000), None);
}

#[test]
fn direct_area_premapped_and_faults_rejected() {
    let mut fa = FrameAlloc::new(8);
    fa.insert_range(0, 2);
    let mut mem = PhysMemory::new(8);
    // frames 2 and 3 stand outside the free pool, as device memory would
    mem.write(2, 0, 0x11);
    mem.write(3, 5, 0x22);
    let area = MemoryArea {
        start: 0x4000,
        end: 0x6000,
        attr: rw_attr(),
        handler: Handler::Direct,
    };
    let mut ms = MemorySet::new();
    ms.push_direct(area, 2);

    assert_eq!(ms.read_byte(&mem, 0x4000), Some(0x11));
    assert_eq!(ms.read_byte(&mem, 0x5005), Some(0x22));
    // all frames were pre-mapped: a fault inside a direct area is an error
    assert!(!ms.page_fault_handler(&mut fa, &mut mem, 0x4000));
}

#[test]
fn swap_area_fault_unresolved() {
    let (mut fa, mut mem) = setup(4);
    let area = MemoryArea {
        start: 0x1000,
        end: 0x2000,
        attr: rw_attr(),
        handler: Handler::Swap,
    };
    let mut ms = MemorySet::new();
    ms.push(area);
    // the backing store is not installed: the fault is unresolved
    assert!(!ms.page_fault_handler(&mut fa, &mut mem, 0x1000));
}

#[test]
fn readonly_lazy_area_maps_readonly() {
    let (mut fa, mut mem) = setup(4);
    let area = MemoryArea {
        start: 0x1000,
        end: 0x2000,
        attr: MemoryAttr { user: true, readonly: true, execute: false },
        handler: Handler::Lazy,
    };
    let mut ms = MemorySet::new();
    ms.push(area);
    assert!(ms.page_fault_handler(&mut fa, &mut mem, 0x1000));
    assert_eq!(ms.read_byte(&mem, 0x1000), Some(0));
    // writes through the read-only mapping are refused
    assert!(!ms.write_byte(&mut mem, 0x1000, 1));
}

#[test]
fn kernel_stack_alignment_and_reuse() {
    let mut heap = init_heap();
    let s1 = KernelStack::new(&mut heap).unwrap();
    let top = s1.top();
    // the top is aligned to the configured stack size, with exactly one
    // stack's worth of usable bytes below it
    assert_eq!(top % STACK_SIZE, 0);
    let bottom = top - STACK_SIZE;
    assert_eq!(top - bottom, STACK_SIZE);

    // a second live stack never overlaps the first
    let s2 = KernelStack::new(&mut heap).unwrap();
    assert_ne!(s2.top(), top);

    // after release, an allocation of equal size may reuse the freed region
    s1.release(&mut heap);
    let s3 = KernelStack::new(&mut heap).unwrap();
    assert_eq!(s3.top(), top);
}

#[test]
fn heap_allocate_aligns_and_exhausts() {
    let mut heap = init_heap();
    let a = heap.allocate(0x1000, 0x1000).unwrap();
    assert_eq!(a % 0x1000, 0);
    let b = heap.allocate(0x1000, 0x1000).unwrap();
    assert_ne!(a, b);
    // a request larger than the whole region is exhaustion
    assert_eq!(heap.allocate(KERNEL_HEAP_SIZE, 1), None);
    // freed blocks are found again, first fit
    heap.deallocate(a, 0x1000);
    assert_eq!(heap.allocate(0x1000, 0x1000), Some(a));
}

#[test]
fn no_mmu_set_allocates_and_never_faults() {
    let mut heap = init_heap();
    let mut ms = NoMmuMemorySet::new();
    let a = ms.push(&mut heap, 0x2000).unwrap();
    let b = ms.push(&mut heap, 0x2000).unwrap();
    assert_ne!(a, b);
    // without a paging unit a fault cannot be resolved, whatever the state
    assert!(!ms.page_fault_handler(a));
    assert!(!ms.page_fault_handler(0xdead));
}
