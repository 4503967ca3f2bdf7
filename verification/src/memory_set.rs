//! The address space (memory set): an ordered collection of non-overlapping
//! memory areas, each with an attribute set and a fault-handling policy,
//! plus the one page table the address space owns. The page fault handler
//! performs the containment search and applies the owning area's policy.

use vstd::prelude::*;

use crate::consts::PAGE_SIZE;
use crate::frame_alloc::{first_free, lemma_first_free, FrameAlloc};
use crate::paging::{vpn_of, PageEntry, PageTable};
use crate::phys_mem::{zero_page, PhysMemory};

verus! {

/// Permissions of one memory area.
#[derive(Clone, Copy, PartialEq, Eq, Structural, Debug)]
pub struct MemoryAttr {
    /// The area is accessible from user mode.
    pub user: bool,
    /// The area must never be mapped writable.
    pub readonly: bool,
    /// The area is executable.
    pub execute: bool,
}

/// The fault-handling policy of a memory area.
#[derive(Clone, Copy, PartialEq, Eq, Structural, Debug)]
pub enum Handler {
    /// All frames are pre-mapped when the area is created; a fault inside
    /// the area is a protection violation.
    Direct,
    /// Frames are allocated and zero-filled on first touch.
    Lazy,
    /// Frames are shared read-only and reference counted; a write fault
    /// privatizes the page.
    Cow,
    /// A hook for demand paging from a backing store. The backing store is
    /// an external collaborator and is not installed here, so a fault in
    /// such an area is reported as unresolved.
    Swap,
}

/// A contiguous virtual range `[start, end)` with one attribute set and one
/// fault-handling policy, owned by exactly one address space.
#[derive(Clone, Copy, PartialEq, Eq, Structural, Debug)]
pub struct MemoryArea {
    pub start: usize,
    pub end: usize,
    pub attr: MemoryAttr,
    pub handler: Handler,
}

/// A well-formed area is non-empty and page-aligned at both ends.
pub open spec fn area_wf(a: MemoryArea) -> bool {
    &&& a.start < a.end
    &&& (a.start as int) % (PAGE_SIZE as int) == 0
    &&& (a.end as int) % (PAGE_SIZE as int) == 0
}

/// Whether `addr` falls inside area `a`.
pub open spec fn area_contains(a: MemoryArea, addr: usize) -> bool {
    a.start <= addr < a.end
}

/// Two areas that share no address.
pub open spec fn areas_disjoint(a: MemoryArea, b: MemoryArea) -> bool {
    a.end <= b.start || b.end <= a.start
}

/// Whether some area of the sequence covers `addr`.
pub open spec fn covered(areas: Seq<MemoryArea>, addr: usize) -> bool {
    exists|k: int| 0 <= k < areas.len() && area_contains(#[trigger] areas[k], addr)
}

/// The entry installed when a fault gives a page a private frame: present,
/// writable exactly when the area is not read-only, not shared.
pub open spec fn mapped_entry(attr: MemoryAttr, f: usize) -> PageEntry {
    PageEntry {
        present: true,
        writable: !attr.readonly,
        user: attr.user,
        execute: attr.execute,
        shared: false,
        target: f,
    }
}

/// The entry installed for a copy-on-write sharing of a frame: present,
/// read-only, marked shared.
pub open spec fn shared_entry(attr: MemoryAttr, f: usize) -> PageEntry {
    PageEntry {
        present: true,
        writable: false,
        user: attr.user,
        execute: attr.execute,
        shared: true,
        target: f,
    }
}

/// What one page fault does, given the policy of the area that owns the
/// faulting address: the relation between the pre- and post-states of the
/// page table (`pre_t`, `post_t`), the frame bitmap (`pre_b`, `post_b`) and
/// physical memory (`pre_m`, `post_m`), and the handler's verdict `r`.
pub open spec fn policy_outcome(
    area: MemoryArea,
    pre_t: Map<usize, PageEntry>,
    post_t: Map<usize, PageEntry>,
    pre_b: Seq<bool>,
    post_b: Seq<bool>,
    pre_m: PhysMemory,
    post_m: PhysMemory,
    addr: usize,
    r: bool,
) -> bool {
    let vpn = vpn_of(addr);
    match area.handler {
        Handler::Direct => r == false,
        Handler::Swap => r == false,
        Handler::Lazy => {
            if pre_t.contains_key(vpn) {
                r == false
            } else {
                match first_free(pre_b) {
                    None => r == false,
                    Some(f) => {
                        &&& r == true
                        &&& post_t == pre_t.insert(vpn, mapped_entry(area.attr, f as usize))
                        &&& post_b == pre_b.update(f, false)
                        &&& post_m.frame(f) == zero_page()
                        &&& forall|g: int|
                            0 <= g < pre_m.num_frames() && g != f ==> post_m.frame(g)
                                == pre_m.frame(g)
                        &&& forall|g: int|
                            0 <= g < pre_m.num_frames() ==> post_m.refcount(g) == pre_m.refcount(g)
                    },
                }
            }
        },
        Handler::Cow => {
            if pre_t.contains_key(vpn) && pre_t[vpn].shared {
                let e = pre_t[vpn];
                if pre_m.refcount(e.target as int) == 1 {
                    // sole owner left: upgrade the mapping in place
                    &&& r == true
                    &&& post_t == pre_t.insert(vpn, mapped_entry(area.attr, e.target))
                    &&& post_b == pre_b
                    &&& post_m.refcount(e.target as int) == 0
                    &&& forall|g: int|
                        0 <= g < pre_m.num_frames() && g != e.target ==> post_m.refcount(g)
                            == pre_m.refcount(g)
                    &&& forall|g: int|
                        0 <= g < pre_m.num_frames() ==> post_m.frame(g) == pre_m.frame(g)
                } else {
                    match first_free(pre_b) {
                        None => r == false,
                        Some(nf) => {
                            // a fresh private frame with identical contents;
                            // the original frame and its other owners are
                            // untouched, its count drops by exactly one
                            &&& r == true
                            &&& nf != e.target
                            &&& post_t == pre_t.insert(vpn, mapped_entry(area.attr, nf as usize))
                            &&& post_b == pre_b.update(nf, false)
                            &&& post_m.frame(nf) == pre_m.frame(e.target as int)
                            &&& forall|g: int|
                                0 <= g < pre_m.num_frames() && g != nf ==> post_m.frame(g)
                                    == pre_m.frame(g)
                            &&& post_m.refcount(e.target as int) == pre_m.refcount(
                                e.target as int,
                            ) - 1
                            &&& forall|g: int|
                                0 <= g < pre_m.num_frames() && g != e.target ==> post_m.refcount(g)
                                    == pre_m.refcount(g)
                        },
                    }
                }
            } else {
                r == false
            }
        },
    }
}

/// An address space: its areas and its one owned page table.
pub struct MemorySet {
    areas: Vec<MemoryArea>,
    table: PageTable,
}

impl MemorySet {
    /// The areas, in insertion order.
    pub closed spec fn areas_v(&self) -> Seq<MemoryArea> {
        self.areas@
    }

    /// The translations of the owned page table.
    pub closed spec fn translation(&self) -> Map<usize, PageEntry> {
        self.table@
    }

    /// Every area is well formed and no two areas overlap, so every address
    /// belongs to at most one area.
    pub open spec fn wf(&self) -> bool {
        &&& forall|i: int| 0 <= i < self.areas_v().len() ==> area_wf(#[trigger] self.areas_v()[i])
        &&& forall|i: int, j: int|
            0 <= i < j < self.areas_v().len() ==> #[trigger] areas_disjoint(
                self.areas_v()[i],
                self.areas_v()[j],
            )
    }

    /// Every mapped frame index lies below `n`, the number of managed
    /// frames.
    pub open spec fn targets_ok(&self, n: int) -> bool {
        forall|v: usize| #[trigger]
            self.translation().contains_key(v) ==> self.translation()[v].target < n
    }

    /// Every mapped frame is marked used in the frame bitmap: a mapped frame
    /// is never in the free pool, so a fresh allocation can never alias a
    /// mapping.
    pub open spec fn targets_allocated(&self, bits: Seq<bool>) -> bool {
        forall|v: usize| #[trigger]
            self.translation().contains_key(v) ==> !bits[self.translation()[v].target as int]
    }

    /// No two pages of this address space share the same frame: one
    /// copy-on-write sharing of a frame per address space, so the frame's
    /// reference count is the number of owning address spaces.
    pub open spec fn shared_distinct(&self) -> bool {
        forall|v1: usize, v2: usize|
            #[trigger] self.translation().contains_key(v1) && #[trigger] self.translation(
            ).contains_key(v2) && self.translation()[v1].shared && self.translation()[v2].shared
                && v1 != v2 ==> self.translation()[v1].target != self.translation()[v2].target
    }

    /// Every shared mapping's frame has at least one counted owner.
    pub open spec fn shared_counted(&self, mem: PhysMemory) -> bool {
        forall|v: usize| #[trigger]
            self.translation().contains_key(v) && self.translation()[v].shared ==> mem.refcount(
                self.translation()[v].target as int,
            ) >= 1
    }

    /// An empty address space: no areas, no translations.
    pub fn new() -> (r: Self)
        ensures
            r.wf(),
            r.areas_v() == Seq::<MemoryArea>::empty(),
            r.translation() == Map::<usize, PageEntry>::empty(),
    {
        MemorySet { areas: Vec::new(), table: PageTable::new() }
    }

    /// A borrow of the owned page table, valid as the active table only
    /// while a thread of the owning process stays scheduled: the borrow must
    /// not be kept across a potential context switch.
    pub fn active_table(&self) -> (r: &PageTable)
        ensures
            r@ == self.translation(),
    {
        &self.table
    }

    /// Index of the area covering `addr`, if any.
    fn find_area(&self, addr: usize) -> (r: Option<usize>)
        ensures
            match r {
                Some(k) => k < self.areas_v().len() && area_contains(
                    self.areas_v()[k as int],
                    addr,
                ),
                None => !covered(self.areas_v(), addr),
            },
    {
        let n: usize = self.areas.len();
        let mut k: usize = 0;
        while k < n
            invariant
                k <= n,
                n == self.areas_v().len(),
                forall|i: int| 0 <= i < k ==> !area_contains(#[trigger] self.areas_v()[i], addr),
            decreases n - k,
        {
            let a = self.areas[k];
            if a.start <= addr && addr < a.end {
                return Some(k);
            }
            k = k + 1;
        }
        None
    }

    /// Adds an area whose pages are established on fault (lazy, copy-on-
    /// write, or swap-backed), mapping nothing yet. Direct areas go through
    /// `push_direct`, which pre-maps them.
    pub fn push(&mut self, area: MemoryArea)
        requires
            old(self).wf(),
            area_wf(area),
            !(area.handler is Direct),
            forall|i: int|
                0 <= i < old(self).areas_v().len() ==> areas_disjoint(
                    #[trigger] old(self).areas_v()[i],
                    area,
                ),
        ensures
            final(self).wf(),
            final(self).areas_v() == old(self).areas_v().push(area),
            final(self).translation() == old(self).translation(),
    {
        self.areas.push(area);
        proof {
            self.lemma_push_wf(*old(self), area);
        }
    }

    proof fn lemma_push_wf(&self, pre: MemorySet, area: MemoryArea)
        requires
            pre.wf(),
            area_wf(area),
            forall|i: int|
                0 <= i < pre.areas_v().len() ==> areas_disjoint(
                    #[trigger] pre.areas_v()[i],
                    area,
                ),
            self.areas_v() == pre.areas_v().push(area),
        ensures
            self.wf(),
    {
        let n = pre.areas_v().len() as int;
        assert forall|i: int, j: int|
            0 <= i < j < self.areas_v().len() implies #[trigger] areas_disjoint(
            self.areas_v()[i],
            self.areas_v()[j],
        ) by {
            if j < n {
                assert(areas_disjoint(pre.areas_v()[i], pre.areas_v()[j]));
            } else {
                assert(areas_disjoint(pre.areas_v()[i], area));
            }
        }
    }

    /// Adds a direct area and pre-maps every one of its pages to the
    /// contiguous frame range beginning at `first_frame`: page `p` of the
    /// area translates to frame `first_frame + p`. The caller designates
    /// frames outside the allocator's free pool, as with device or kernel
    /// memory.
    pub fn push_direct(&mut self, area: MemoryArea, first_frame: usize)
        requires
            old(self).wf(),
            area_wf(area),
            area.handler is Direct,
            forall|i: int|
                0 <= i < old(self).areas_v().len() ==> areas_disjoint(
                    #[trigger] old(self).areas_v()[i],
                    area,
                ),
            first_frame + (area.end as int) / (PAGE_SIZE as int) <= usize::MAX,
        ensures
            final(self).wf(),
            final(self).areas_v() == old(self).areas_v().push(area),
            forall|v: usize|
                #[trigger] final(self).translation().contains_key(v) <==> (old(self).translation(
                ).contains_key(v) || vpn_of(area.start) <= v < vpn_of(area.end)),
            forall|v: usize|
                vpn_of(area.start) <= v < vpn_of(area.end) ==> #[trigger] final(self).translation(
                )[v] == mapped_entry(area.attr, (first_frame + (v - vpn_of(area.start))) as usize),
            forall|v: usize|
                #[trigger] old(self).translation().contains_key(v) && !(vpn_of(area.start) <= v
                    < vpn_of(area.end)) ==> final(self).translation()[v] == old(self).translation(
                )[v],
    {
        let svpn: usize = area.start / PAGE_SIZE;
        let evpn: usize = area.end / PAGE_SIZE;
        let mut v: usize = svpn;
        while v < evpn
            invariant
                svpn <= v <= evpn,
                svpn == vpn_of(area.start),
                evpn == vpn_of(area.end),
                first_frame + evpn <= usize::MAX,
                self.areas_v() == old(self).areas_v(),
                forall|u: usize| #[trigger]
                    self.translation().contains_key(u) <==> (old(self).translation().contains_key(
                        u,
                    ) || svpn <= u < v),
                forall|u: usize|
                    svpn <= u < v ==> #[trigger] self.translation()[u] == mapped_entry(
                        area.attr,
                        (first_frame + (u - svpn)) as usize,
                    ),
                forall|u: usize| #[trigger]
                    old(self).translation().contains_key(u) && !(svpn <= u < v) ==> self
                        .translation()[u] == old(self).translation()[u],
            decreases evpn - v,
        {
            let entry = PageEntry {
                present: true,
                writable: !area.attr.readonly,
                user: area.attr.user,
                execute: area.attr.execute,
                shared: false,
                target: first_frame + (v - svpn),
            };
            let ghost pre_t = self.translation();
            self.table.map(v, entry);
            proof {
                assert(self.translation() == pre_t.insert(v, entry));
                assert forall|u: usize| #[trigger]
                    self.translation().contains_key(u) <==> (old(self).translation().contains_key(
                    u,
                ) || svpn <= u < v + 1) by {
                    assert(pre_t.contains_key(u) <==> (old(self).translation().contains_key(u)
                        || svpn <= u < v));
                    if u != v {
                        assert(self.translation().contains_key(u) <==> pre_t.contains_key(u));
                    }
                }
                assert forall|u: usize| svpn <= u < v + 1 implies #[trigger] self.translation()[u]
                    == mapped_entry(area.attr, (first_frame + (u - svpn)) as usize) by {
                    if u == v {
                        assert(self.translation()[u] == entry);
                    } else {
                        assert(pre_t[u] == mapped_entry(
                            area.attr,
                            (first_frame + (u - svpn)) as usize,
                        ));
                        assert(self.translation()[u] == pre_t[u]);
                    }
                }
                assert forall|u: usize| #[trigger]
                    old(self).translation().contains_key(u) && !(svpn <= u < v + 1) implies self
                    .translation()[u] == old(self).translation()[u] by {
                    assert(pre_t.contains_key(u));
                    assert(self.translation()[u] == pre_t[u]);
                }
            }
            v = v + 1;
        }
        let ghost t_done = self.translation();
        self.areas.push(area);
        proof {
            assert(self.translation() == t_done);
            assert forall|u: usize| #[trigger]
                self.translation().contains_key(u) <==> (old(self).translation().contains_key(u)
                || vpn_of(area.start) <= u < vpn_of(area.end)) by {
                assert(t_done.contains_key(u) <==> (old(self).translation().contains_key(u)
                    || svpn <= u < v));
            }
            assert forall|u: usize| vpn_of(area.start) <= u < vpn_of(area.end) implies #[trigger]
                self.translation()[u] == mapped_entry(
                area.attr,
                (first_frame + (u - vpn_of(area.start))) as usize,
            ) by {
                assert(t_done[u] == mapped_entry(area.attr, (first_frame + (u - svpn)) as usize));
            }
            assert forall|u: usize| #[trigger]
                old(self).translation().contains_key(u) && !(vpn_of(area.start) <= u < vpn_of(
                area.end,
            )) implies self.translation()[u] == old(self).translation()[u] by {
                assert(t_done[u] == old(self).translation()[u]);
            }
            self.lemma_push_wf(*old(self), area);
        }
    }

    /// Installs a copy-on-write sharing of `frame` for the page holding
    /// `addr` (as process cloning does for both parent and child): a
    /// read-only shared translation, and one more counted owner of the
    /// frame. The address must lie in a copy-on-write area.
    pub fn map_shared(&mut self, mem: &mut PhysMemory, addr: usize, frame: usize)
        requires
            old(self).wf(),
            old(mem).wf(),
            frame < old(mem).num_frames(),
            old(mem).refcount(frame as int) < usize::MAX,
            exists|k: int|
                0 <= k < old(self).areas_v().len() && area_contains(
                    #[trigger] old(self).areas_v()[k],
                    addr,
                ) && old(self).areas_v()[k].handler is Cow,
        ensures
            final(self).wf(),
            final(mem).wf(),
            final(self).areas_v() == old(self).areas_v(),
            final(mem).num_frames() == old(mem).num_frames(),
            forall|k: int|
                0 <= k < old(self).areas_v().len() && area_contains(
                    #[trigger] old(self).areas_v()[k],
                    addr,
                ) ==> final(self).translation() == old(self).translation().insert(
                    vpn_of(addr),
                    shared_entry(old(self).areas_v()[k].attr, frame),
                ),
            final(mem).refcount(frame as int) == old(mem).refcount(frame as int) + 1,
            forall|g: int|
                0 <= g < old(mem).num_frames() && g != frame ==> final(mem).refcount(g) == old(
                    mem,
                ).refcount(g),
            forall|g: int|
                0 <= g < old(mem).num_frames() ==> final(mem).frame(g) == old(mem).frame(g),
    {
        let k = match self.find_area(addr) {
            Some(k) => k,
            None => {
                proof {
                    assert(covered(self.areas_v(), addr));
                }
                vstd::pervasive::unreached()
            },
        };
        let area = self.areas[k];
        proof {
            self.lemma_unique_area(k as int, addr);
        }
        let vpn: usize = addr / PAGE_SIZE;
        mem.refcount_inc(frame);
        let entry = PageEntry {
            present: true,
            writable: false,
            user: area.attr.user,
            execute: area.attr.execute,
            shared: true,
            target: frame,
        };
        self.table.map(vpn, entry);
    }

    /// In a well-formed address space the containing area is unique: every
    /// index whose area covers `addr` holds the same area value.
    proof fn lemma_unique_area(&self, k: int, addr: usize)
        requires
            self.wf(),
            0 <= k < self.areas_v().len(),
            area_contains(self.areas_v()[k], addr),
        ensures
            forall|k2: int|
                0 <= k2 < self.areas_v().len() && area_contains(
                    #[trigger] self.areas_v()[k2],
                    addr,
                ) ==> self.areas_v()[k2] == self.areas_v()[k],
    {
        assert forall|k2: int|
            0 <= k2 < self.areas_v().len() && area_contains(
                #[trigger] self.areas_v()[k2],
                addr,
            ) implies self.areas_v()[k2] == self.areas_v()[k] by {
            if k2 < k {
                assert(areas_disjoint(self.areas_v()[k2], self.areas_v()[k]));
            } else if k2 > k {
                assert(areas_disjoint(self.areas_v()[k], self.areas_v()[k2]));
            }
        }
    }

    /// Reads one byte through the translation, as a load instruction would:
    /// succeeds exactly when the page is mapped present.
    pub fn read_byte(&self, mem: &PhysMemory, addr: usize) -> (r: Option<u8>)
        requires
            mem.wf(),
            self.targets_ok(mem.num_frames()),
        ensures
            match r {
                Some(b) => {
                    &&& self.translation().contains_key(vpn_of(addr))
                    &&& self.translation()[vpn_of(addr)].present
                    &&& b == mem.frame(self.translation()[vpn_of(addr)].target as int)[(
                    addr as int) % (PAGE_SIZE as int)]
                },
                None => !self.translation().contains_key(vpn_of(addr)) || !self.translation()[
                    vpn_of(addr)].present,
            },
    {
        let vpn: usize = addr / PAGE_SIZE;
        match self.table.get(vpn) {
            None => None,
            Some(e) => {
                if e.present {
                    proof {
                        assert(self.translation().contains_key(vpn));
                    }
                    Some(mem.read(e.target, addr % PAGE_SIZE))
                } else {
                    None
                }
            },
        }
    }

    /// Writes one byte through the translation, as a store instruction
    /// would: succeeds exactly when the page is mapped present and writable.
    pub fn write_byte(&self, mem: &mut PhysMemory, addr: usize, val: u8) -> (r: bool)
        requires
            old(mem).wf(),
            self.targets_ok(old(mem).num_frames()),
        ensures
            final(mem).wf(),
            final(mem).num_frames() == old(mem).num_frames(),
            r == (self.translation().contains_key(vpn_of(addr)) && self.translation()[vpn_of(
                addr,
            )].present && self.translation()[vpn_of(addr)].writable),
            r ==> final(mem).frame(self.translation()[vpn_of(addr)].target as int) == old(
                mem,
            ).frame(self.translation()[vpn_of(addr)].target as int).update(
                (addr as int) % (PAGE_SIZE as int),
                val,
            ),
            r ==> forall|g: int|
                0 <= g < old(mem).num_frames() && g != self.translation()[vpn_of(addr)].target
                    ==> final(mem).frame(g) == old(mem).frame(g),
            !r ==> forall|g: int|
                0 <= g < old(mem).num_frames() ==> final(mem).frame(g) == old(mem).frame(g),
            forall|g: int|
                0 <= g < old(mem).num_frames() ==> final(mem).refcount(g) == old(mem).refcount(g),
    {
        let vpn: usize = addr / PAGE_SIZE;
        match self.table.get(vpn) {
            None => false,
            Some(e) => {
                if e.present && e.writable {
                    proof {
                        assert(self.translation().contains_key(vpn));
                    }
                    mem.write(e.target, addr % PAGE_SIZE, val);
                    true
                } else {
                    false
                }
            },
        }
    }

    /// Handles a page fault at `addr`: finds the area that owns the address
    /// and applies its policy. Returns `true` to resume the faulting
    /// instruction, `false` for an unresolvable fault (address in no area, a
    /// policy that forbids the access, or frame exhaustion), which the
    /// caller escalates. An unresolved fault changes nothing.
    pub fn page_fault_handler(
        &mut self,
        allocator: &mut FrameAlloc,
        mem: &mut PhysMemory,
        addr: usize,
    ) -> (r: bool)
        requires
            old(self).wf(),
            old(mem).wf(),
            old(allocator)@.len() == old(mem).num_frames(),
            old(self).targets_ok(old(mem).num_frames()),
            old(self).targets_allocated(old(allocator)@),
            old(self).shared_counted(*old(mem)),
            old(self).shared_distinct(),
        ensures
            final(self).wf(),
            final(mem).wf(),
            final(self).areas_v() == old(self).areas_v(),
            final(allocator)@.len() == old(allocator)@.len(),
            final(mem).num_frames() == old(mem).num_frames(),
            final(self).targets_ok(final(mem).num_frames()),
            final(self).targets_allocated(final(allocator)@),
            final(self).shared_counted(*final(mem)),
            final(self).shared_distinct(),
            !covered(old(self).areas_v(), addr) ==> r == false,
            !r ==> final(self).translation() == old(self).translation() && final(allocator)@
                == old(allocator)@ && (forall|g: int|
                0 <= g < old(mem).num_frames() ==> final(mem).frame(g) == old(mem).frame(g)
                    && final(mem).refcount(g) == old(mem).refcount(g)),
            forall|k: int|
                0 <= k < old(self).areas_v().len() && area_contains(
                    #[trigger] old(self).areas_v()[k],
                    addr,
                ) ==> policy_outcome(
                    old(self).areas_v()[k],
                    old(self).translation(),
                    final(self).translation(),
                    old(allocator)@,
                    final(allocator)@,
                    *old(mem),
                    *final(mem),
                    addr,
                    r,
                ),
    {
        let k = match self.find_area(addr) {
            Some(k) => k,
            None => {
                return false;
            },
        };
        let area = self.areas[k];
        proof {
            self.lemma_unique_area(k as int, addr);
        }
        let vpn: usize = addr / PAGE_SIZE;
        match area.handler {
            Handler::Direct => false,
            Handler::Swap => false,
            Handler::Lazy => {
                match self.table.get(vpn) {
                    Some(_) => false,
                    None => {
                        match allocator.allocate() {
                            None => false,
                            Some(f) => {
                                proof {
                                    lemma_first_free(old(allocator)@);
                                }
                                mem.zero_frame(f);
                                let entry = PageEntry {
                                    present: true,
                                    writable: !area.attr.readonly,
                                    user: area.attr.user,
                                    execute: area.attr.execute,
                                    shared: false,
                                    target: f,
                                };
                                self.table.map(vpn, entry);
                                proof {
                                    self.lemma_preserved(
                                        *old(self),
                                        allocator@,
                                        *mem,
                                        old(mem).num_frames(),
                                        vpn,
                                    );
                                }
                                true
                            },
                        }
                    },
                }
            },
            Handler::Cow => {
                match self.table.get(vpn) {
                    None => false,
                    Some(e) => {
                        if !e.shared {
                            false
                        } else {
                            proof {
                                assert(old(self).translation().contains_key(vpn));
                            }
                            let count = mem.refcount_read(e.target);
                            if count == 1 {
                                mem.refcount_dec(e.target);
                                let entry = PageEntry {
                                    present: true,
                                    writable: !area.attr.readonly,
                                    user: area.attr.user,
                                    execute: area.attr.execute,
                                    shared: false,
                                    target: e.target,
                                };
                                self.table.map(vpn, entry);
                                proof {
                                    self.lemma_preserved(
                                        *old(self),
                                        allocator@,
                                        *mem,
                                        old(mem).num_frames(),
                                        vpn,
                                    );
                                }
                                true
                            } else {
                                match allocator.allocate() {
                                    None => false,
                                    Some(nf) => {
                                        proof {
                                            lemma_first_free(old(allocator)@);
                                        }
                                        mem.copy_frame(e.target, nf);
                                        mem.refcount_dec(e.target);
                                        let entry = PageEntry {
                                            present: true,
                                            writable: !area.attr.readonly,
                                            user: area.attr.user,
                                            execute: area.attr.execute,
                                            shared: false,
                                            target: nf,
                                        };
                                        self.table.map(vpn, entry);
                                        proof {
                                            self.lemma_preserved(
                                                *old(self),
                                                allocator@,
                                                *mem,
                                                old(mem).num_frames(),
                                                vpn,
                                            );
                                        }
                                        true
                                    },
                                }
                            }
                        }
                    },
                }
            },
        }
    }

    /// The three cross-structure invariants survive a fault that rewrites
    /// the one entry `vpn` to an unshared, used, in-range frame and leaves
    /// every other entry intact.
    proof fn lemma_preserved(
        &self,
        pre: MemorySet,
        bits: Seq<bool>,
        mem: PhysMemory,
        n: int,
        vpn: usize,
    )
        requires
            mem.num_frames() == n,
            forall|v: usize| #[trigger]
                self.translation().contains_key(v) ==> v == vpn
                    || pre.translation().contains_key(v),
            forall|v: usize|
                v != vpn && #[trigger] pre.translation().contains_key(v) ==> self.translation()[v]
                    == pre.translation()[v],
            forall|v: usize| #[trigger]
                pre.translation().contains_key(v) ==> self.translation().contains_key(v),
            pre.targets_ok(n),
            self.translation().contains_key(vpn),
            !self.translation()[vpn].shared,
            self.translation()[vpn].target < n,
            !bits[self.translation()[vpn].target as int],
            forall|v: usize|
                v != vpn && #[trigger] pre.translation().contains_key(v) ==> !bits[pre.translation(
                )[v].target as int],
            forall|v: usize|
                v != vpn && #[trigger] pre.translation().contains_key(v) && pre.translation(
                )[v].shared ==> mem.refcount(pre.translation()[v].target as int) >= 1,
            pre.shared_distinct(),
        ensures
            self.targets_ok(n),
            self.targets_allocated(bits),
            self.shared_counted(mem),
            self.shared_distinct(),
    {
        assert forall|v: usize| #[trigger]
            self.translation().contains_key(v) implies self.translation()[v].target < n by {
            if v != vpn {
                assert(pre.translation().contains_key(v));
            }
        }
        assert forall|v: usize| #[trigger]
            self.translation().contains_key(v) implies !bits[self.translation()[
            v].target as int] by {
            if v != vpn {
                assert(pre.translation().contains_key(v));
            }
        }
        assert forall|v: usize| #[trigger]
            self.translation().contains_key(v) && self.translation()[v].shared implies mem.refcount(
            self.translation()[v].target as int,
        ) >= 1 by {
            if v != vpn {
                assert(pre.translation().contains_key(v));
            }
        }
        assert forall|v1: usize, v2: usize|
            #[trigger] self.translation().contains_key(v1) && #[trigger] self.translation(
            ).contains_key(v2) && self.translation()[v1].shared && self.translation()[v2].shared
                && v1 != v2 implies self.translation()[v1].target != self.translation()[
            v2].target by {
            if v1 != vpn && v2 != vpn {
                assert(pre.translation().contains_key(v1));
                assert(pre.translation().contains_key(v2));
            }
        }
    }
}

/// The only way to reach the active page table: the one owned by the
/// address space whose thread is currently running. The borrow must not be
/// kept across a potential context switch.
pub fn active_table(memory_set: &MemorySet) -> (r: &PageTable)
    ensures
        r@ == memory_set.translation(),
{
    memory_set.active_table()
}

} // verus!
