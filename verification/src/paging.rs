//! The page table abstraction: the mapping from virtual page numbers to
//! entries (frame, permissions, presence). The same structure serves as the
//! active table (the one installed in hardware while a thread of its owning
//! process runs) and as the inactive tables of descheduled processes.

use std::collections::HashMap;
use vstd::prelude::*;

use crate::consts::PAGE_SIZE;

verus! {

broadcast use vstd::std_specs::hash::group_hash_axioms;

/// Virtual page number of the page holding `addr`.
pub open spec fn vpn_of(addr: usize) -> usize {
    ((addr as int) / (PAGE_SIZE as int)) as usize
}

/// One page-table entry: the physical frame a page translates to, its
/// permission bits, and the copy-on-write sharing mark.
#[derive(Clone, Copy, PartialEq, Eq, Structural, Debug)]
pub struct PageEntry {
    /// The translation is installed in the table.
    pub present: bool,
    /// Writes through this translation are permitted.
    pub writable: bool,
    /// User-mode accesses through this translation are permitted.
    pub user: bool,
    /// Instruction fetches through this translation are permitted.
    pub execute: bool,
    /// The frame is shared copy-on-write: readable, not writable, and
    /// reference counted until a write fault privatizes it.
    pub shared: bool,
    /// Index of the physical frame this page translates to.
    pub target: usize,
}

/// A page table. Unmapping never frees the underlying frame: freeing is the
/// owning area's responsibility, so shared copy-on-write frames are not
/// released prematurely. The kernel-shared upper half of every table is
/// installed once by the architecture layer and never mutated here.
pub struct PageTable {
    entries: HashMap<usize, PageEntry>,
}

impl View for PageTable {
    type V = Map<usize, PageEntry>;

    closed spec fn view(&self) -> Map<usize, PageEntry> {
        self.entries@
    }
}

impl PageTable {
    /// A fresh table with no translations.
    pub fn new() -> (r: Self)
        ensures
            r@ == Map::<usize, PageEntry>::empty(),
    {
        PageTable { entries: HashMap::new() }
    }

    /// Installs or replaces the translation for virtual page `vpn`. Any
    /// cached stale translation for the page must be invalidated by the
    /// architecture layer on the current core.
    pub fn map(&mut self, vpn: usize, entry: PageEntry)
        ensures
            final(self)@ == old(self)@.insert(vpn, entry),
    {
        self.entries.insert(vpn, entry);
    }

    /// Removes the translation for virtual page `vpn` and reports whether
    /// one was present. Unmapping an unmapped page leaves the table exactly
    /// as it was and reports `false`.
    pub fn unmap(&mut self, vpn: usize) -> (r: bool)
        ensures
            final(self)@ == old(self)@.remove(vpn),
            r == old(self)@.contains_key(vpn),
    {
        self.entries.remove(&vpn).is_some()
    }

    /// The translation for virtual page `vpn`, if one is installed.
    pub fn get(&self, vpn: usize) -> (r: Option<PageEntry>)
        ensures
            match r {
                Some(e) => self@.contains_key(vpn) && e == self@[vpn],
                None => !self@.contains_key(vpn),
            },
    {
        match self.entries.get(&vpn) {
            Some(e) => Some(*e),
            None => None,
        }
    }
}

/// Law: unmap is idempotent. Removing a translation that is not present
/// leaves the table exactly as it was, so unmapping an already-unmapped
/// virtual page never corrupts the table.
pub proof fn lemma_unmap_idempotent(m: Map<usize, PageEntry>, vpn: usize)
    requires
        !m.contains_key(vpn),
    ensures
        m.remove(vpn) == m,
{
    assert(m.remove(vpn) =~= m);
}

} // verus!
