//! The model of managed physical memory that fault handling reads and
//! writes: the byte contents of every frame and, for copy-on-write sharing,
//! the per-frame owner reference count.

use vstd::prelude::*;

use crate::consts::PAGE_SIZE;

verus! {

/// A page full of zero bytes.
pub open spec fn zero_page() -> Seq<u8> {
    Seq::new(PAGE_SIZE as nat, |k: int| 0u8)
}

/// The managed physical frames: byte contents and copy-on-write reference
/// counts, indexed by frame number.
pub struct PhysMemory {
    frames: Vec<Vec<u8>>,
    rc: Vec<usize>,
}

impl PhysMemory {
    /// Byte contents of frame `f`.
    pub closed spec fn frame(&self, f: int) -> Seq<u8> {
        self.frames@[f]@
    }

    /// Copy-on-write reference count of frame `f`: how many address spaces
    /// currently share it.
    pub closed spec fn refcount(&self, f: int) -> usize {
        self.rc@[f]
    }

    /// Number of managed frames.
    pub closed spec fn num_frames(&self) -> int {
        self.frames@.len() as int
    }

    /// Number of per-frame reference counts kept.
    pub closed spec fn num_counts(&self) -> int {
        self.rc@.len() as int
    }

    /// Every frame holds exactly one page of bytes, with one reference count
    /// per frame.
    pub open spec fn wf(&self) -> bool {
        &&& self.num_frames() == self.num_counts()
        &&& forall|f: int| 0 <= f < self.num_frames() ==> (#[trigger] self.frame(f)).len() == PAGE_SIZE
    }

    /// `n` frames, all zero-filled and unshared.
    pub fn new(n: usize) -> (r: Self)
        ensures
            r.wf(),
            r.num_frames() == n,
            forall|f: int| 0 <= f < n ==> r.frame(f) == zero_page(),
            forall|f: int| 0 <= f < n ==> r.refcount(f) == 0,
    {
        let mut frames: Vec<Vec<u8>> = Vec::new();
        let mut rc: Vec<usize> = Vec::new();
        let mut i: usize = 0;
        while i < n
            invariant
                i <= n,
                frames@.len() == i,
                rc@.len() == i,
                forall|f: int| 0 <= f < i ==> (#[trigger] frames@[f])@ == zero_page(),
                forall|f: int| 0 <= f < i ==> rc@[f] == 0,
            decreases n - i,
        {
            let page = vec![0u8; PAGE_SIZE];
            proof {
                assert(page@ =~= zero_page());
            }
            frames.push(page);
            rc.push(0);
            i = i + 1;
        }
        PhysMemory { frames, rc }
    }

    /// The byte at offset `off` of frame `f`.
    pub fn read(&self, f: usize, off: usize) -> (r: u8)
        requires
            self.wf(),
            f < self.num_frames(),
            off < PAGE_SIZE,
        ensures
            r == self.frame(f as int)[off as int],
    {
        proof {
            assert(self.frame(f as int).len() == PAGE_SIZE);
        }
        self.frames[f][off]
    }

    /// Stores `val` at offset `off` of frame `f`; every other byte and every
    /// reference count is unchanged.
    pub fn write(&mut self, f: usize, off: usize, val: u8)
        requires
            old(self).wf(),
            f < old(self).num_frames(),
            off < PAGE_SIZE,
        ensures
            final(self).wf(),
            final(self).num_frames() == old(self).num_frames(),
            final(self).frame(f as int) == old(self).frame(f as int).update(off as int, val),
            forall|g: int|
                0 <= g < old(self).num_frames() && g != f ==> final(self).frame(g) == old(
                    self,
                ).frame(g),
            forall|g: int|
                0 <= g < old(self).num_frames() ==> final(self).refcount(g) == old(self).refcount(
                    g,
                ),
    {
        proof {
            assert(old(self).frame(f as int).len() == PAGE_SIZE);
        }
        self.frames[f].set(off, val);
        proof {
            assert forall|g: int|
                0 <= g < self.num_frames() implies (#[trigger] self.frame(g)).len()
                == PAGE_SIZE by {
                assert(old(self).frame(g).len() == PAGE_SIZE);
            }
        }
    }

    /// Zero-fills frame `f`; every other frame and every reference count is
    /// unchanged.
    pub fn zero_frame(&mut self, f: usize)
        requires
            old(self).wf(),
            f < old(self).num_frames(),
        ensures
            final(self).wf(),
            final(self).num_frames() == old(self).num_frames(),
            final(self).frame(f as int) == zero_page(),
            forall|g: int|
                0 <= g < old(self).num_frames() && g != f ==> final(self).frame(g) == old(
                    self,
                ).frame(g),
            forall|g: int|
                0 <= g < old(self).num_frames() ==> final(self).refcount(g) == old(self).refcount(
                    g,
                ),
    {
        let page = vec![0u8; PAGE_SIZE];
        proof {
            assert(page@ =~= zero_page());
        }
        self.frames.set(f, page);
        proof {
            assert forall|g: int|
                0 <= g < self.num_frames() implies (#[trigger] self.frame(g)).len()
                == PAGE_SIZE by {
                assert(old(self).frame(g).len() == PAGE_SIZE);
            }
        }
    }

    /// Copies the contents of frame `src` into frame `dst`; every other
    /// frame and every reference count is unchanged.
    pub fn copy_frame(&mut self, src: usize, dst: usize)
        requires
            old(self).wf(),
            src < old(self).num_frames(),
            dst < old(self).num_frames(),
        ensures
            final(self).wf(),
            final(self).num_frames() == old(self).num_frames(),
            final(self).frame(dst as int) == old(self).frame(src as int),
            forall|g: int|
                0 <= g < old(self).num_frames() && g != dst ==> final(self).frame(g) == old(
                    self,
                ).frame(g),
            forall|g: int|
                0 <= g < old(self).num_frames() ==> final(self).refcount(g) == old(self).refcount(
                    g,
                ),
    {
        let mut page: Vec<u8> = Vec::new();
        let mut k: usize = 0;
        while k < PAGE_SIZE
            invariant
                k <= PAGE_SIZE,
                page@.len() == k,
                self == old(self),
                src < self.num_frames(),
                self.wf(),
                forall|t: int| 0 <= t < k ==> page@[t] == self.frame(src as int)[t],
            decreases PAGE_SIZE - k,
        {
            let b = self.read(src, k);
            page.push(b);
            k = k + 1;
        }
        proof {
            assert(page@ =~= old(self).frame(src as int));
        }
        self.frames.set(dst, page);
        proof {
            assert forall|g: int|
                0 <= g < self.num_frames() implies (#[trigger] self.frame(g)).len()
                == PAGE_SIZE by {
                assert(old(self).frame(g).len() == PAGE_SIZE);
            }
        }
    }

    /// The copy-on-write reference count of frame `f`.
    pub fn refcount_read(&self, f: usize) -> (r: usize)
        requires
            self.wf(),
            f < self.num_frames(),
        ensures
            r == self.refcount(f as int),
    {
        self.rc[f]
    }

    /// Counts one more owner of frame `f`; contents and every other count
    /// are unchanged.
    pub fn refcount_inc(&mut self, f: usize)
        requires
            old(self).wf(),
            f < old(self).num_frames(),
            old(self).refcount(f as int) < usize::MAX,
        ensures
            final(self).wf(),
            final(self).num_frames() == old(self).num_frames(),
            final(self).refcount(f as int) == old(self).refcount(f as int) + 1,
            forall|g: int|
                0 <= g < old(self).num_frames() && g != f ==> final(self).refcount(g) == old(
                    self,
                ).refcount(g),
            forall|g: int|
                0 <= g < old(self).num_frames() ==> final(self).frame(g) == old(self).frame(g),
    {
        let c = self.rc[f];
        self.rc.set(f, c + 1);
        proof {
            assert forall|g: int|
                0 <= g < self.num_frames() implies (#[trigger] self.frame(g)).len()
                == PAGE_SIZE by {
                assert(old(self).frame(g).len() == PAGE_SIZE);
            }
        }
    }

    /// Counts one owner of frame `f` fewer; contents and every other count
    /// are unchanged.
    pub fn refcount_dec(&mut self, f: usize)
        requires
            old(self).wf(),
            f < old(self).num_frames(),
            old(self).refcount(f as int) >= 1,
        ensures
            final(self).wf(),
            final(self).num_frames() == old(self).num_frames(),
            final(self).refcount(f as int) == old(self).refcount(f as int) - 1,
            forall|g: int|
                0 <= g < old(self).num_frames() && g != f ==> final(self).refcount(g) == old(
                    self,
                ).refcount(g),
            forall|g: int|
                0 <= g < old(self).num_frames() ==> final(self).frame(g) == old(self).frame(g),
    {
        let c = self.rc[f];
        self.rc.set(f, c - 1);
        proof {
            assert forall|g: int|
                0 <= g < self.num_frames() implies (#[trigger] self.frame(g)).len()
                == PAGE_SIZE by {
                assert(old(self).frame(g).len() == PAGE_SIZE);
            }
        }
    }
}

} // verus!
