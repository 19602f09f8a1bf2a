//! Physical memory: the frames, their bytes, and which of them are in use.

use vstd::prelude::*;
use crate::config::PAGE_SIZE;

verus! {

/// The machine's physical memory, cut into frames of one page each, together
/// with the allocator that hands frames out.
pub struct PhysMemory {
    bytes: Vec<u8>,
    free: Vec<usize>,
}

impl View for PhysMemory {
    type V = Seq<u8>;

    /// Every byte of physical memory, frame after frame.
    closed spec fn view(&self) -> Seq<u8> {
        self.bytes@
    }
}

impl PhysMemory {
    /// Number of frames the memory consists of.
    pub closed spec fn frame_count(&self) -> nat {
        (self.bytes@.len() / (PAGE_SIZE as nat)) as nat
    }

    /// Whether frame `ppn` is currently handed out.
    pub closed spec fn is_allocated(&self, ppn: int) -> bool {
        0 <= ppn < self.frame_count() && !self.free@.contains(ppn as usize)
    }

    /// Number of frames that can still be handed out.
    pub closed spec fn free_frames(&self) -> nat {
        self.free@.len()
    }

    /// The allocator's invariant: the free list names each free frame once.
    pub closed spec fn wf(&self) -> bool {
        &&& self.bytes@.len() == self.frame_count() * PAGE_SIZE
        &&& self.bytes@.len() <= isize::MAX
        &&& self.free@.no_duplicates()
        &&& forall|i: int| 0 <= i < self.free@.len() ==> (#[trigger] self.free@[i]) < self.frame_count()
    }

    /// What `wf` implies about the size of the memory.
    pub proof fn lemma_size(&self)
        requires
            self.wf(),
        ensures
            self@.len() == self.frame_count() * PAGE_SIZE,
            self@.len() <= isize::MAX,
            forall|ppn: int| self.is_allocated(ppn) ==> 0 <= ppn < self.frame_count(),
    {
    }

    /// A memory of `frames` zeroed frames, none of them handed out; `None`
    /// when that many bytes cannot be addressed.
    pub fn new(frames: usize) -> (made: Option<Self>)
        ensures
            made is Some <==> frames * PAGE_SIZE <= isize::MAX,
            made matches Some(m) ==> {
                &&& m.wf()
                &&& m.frame_count() == frames
                &&& m.free_frames() == frames
                &&& forall|ppn: int| !m.is_allocated(ppn)
                &&& forall|i: int| 0 <= i < m@.len() ==> m@[i] == 0
            },
    {
        if frames > (isize::MAX as usize) / PAGE_SIZE {
            return None;
        }
        let total: usize = frames * PAGE_SIZE;
        let mut bytes: Vec<u8> = Vec::new();
        let mut filled: usize = 0;
        while filled < total
            invariant
                filled <= total,
                bytes@.len() == filled,
                forall|i: int| 0 <= i < bytes@.len() ==> bytes@[i] == 0,
            decreases total - filled,
        {
            bytes.push(0u8);
            filled = filled + 1;
        }
        let mut free: Vec<usize> = Vec::new();
        let mut left: usize = frames;
        while left > 0
            invariant
                left <= frames,
                free@.len() == frames - left,
                forall|i: int| 0 <= i < free@.len() ==> (#[trigger] free@[i]) == frames - 1 - i,
            decreases left,
        {
            left = left - 1;
            free.push(left);
        }
        let m = PhysMemory { bytes, free };
        proof {
            assert(m.frame_count() == frames);
            assert forall|ppn: int| !m.is_allocated(ppn) by {
                if 0 <= ppn < frames {
                    assert(m.free@[frames - 1 - ppn] == ppn as usize);
                }
            }
        }
        Some(m)
    }

    /// Number of bytes of physical memory.
    pub fn len(&self) -> (n: usize)
        ensures
            n == self@.len(),
    {
        self.bytes.len()
    }

    /// Number of frames that can still be handed out.
    pub fn available(&self) -> (n: usize)
        ensures
            n == self.free_frames(),
    {
        self.free.len()
    }

    /// Hands out a frame that was free, with every byte set to zero, or
    /// `None` when all frames are in use.
    pub fn alloc_frame(&mut self) -> (got: Option<usize>)
        requires
            old(self).wf(),
        ensures
            final(self).wf(),
            final(self).frame_count() == old(self).frame_count(),
            match got {
                Some(ppn) => {
                    &&& old(self).free_frames() > 0
                    &&& final(self).free_frames() == old(self).free_frames() - 1
                    &&& ppn < old(self).frame_count()
                    &&& !old(self).is_allocated(ppn as int)
                    &&& forall|q: int|
                        final(self).is_allocated(q) == (q == ppn || old(self).is_allocated(q))
                    &&& final(self)@.len() == old(self)@.len()
                    &&& forall|i: int|
                        0 <= i < old(self)@.len() ==> final(self)@[i] == if ppn * PAGE_SIZE <= i
                            < ppn * PAGE_SIZE + PAGE_SIZE {
                            0u8
                        } else {
                            old(self)@[i]
                        }
                },
                None => old(self).free_frames() == 0 && *final(self) == *old(self),
            },
    {
        if self.free.len() == 0 {
            return None;
        }
        let ghost before = self.free@;
        match self.free.pop() {
            None => None,
            Some(ppn) => {
                self.zero_frame(ppn);
                proof {
                    assert(before[before.len() - 1] == ppn);
                    assert(self.free@ =~= before.drop_last());
                    assert forall|q: int|
                        self.is_allocated(q) == (q == ppn || old(self).is_allocated(q)) by {
                        if 0 <= q < self.frame_count() {
                            if before.contains(q as usize) && q != ppn {
                                let j = choose|j: int| 0 <= j < before.len() && before[j] == q as usize;
                                assert(self.free@[j] == q as usize);
                            }
                            if self.free@.contains(q as usize) {
                                let j = choose|j: int| 0 <= j < self.free@.len() && self.free@[j] == q as usize;
                                assert(before[j] == q as usize);
                            }
                        }
                    }
                }
                Some(ppn)
            },
        }
    }

    /// Sets every byte of frame `ppn` to zero.
    fn zero_frame(&mut self, ppn: usize)
        requires
            ppn * PAGE_SIZE + PAGE_SIZE <= old(self).bytes@.len(),
        ensures
            final(self).free == old(self).free,
            final(self).bytes@.len() == old(self).bytes@.len(),
            forall|i: int|
                0 <= i < old(self).bytes@.len() ==> final(self).bytes@[i] == if ppn * PAGE_SIZE <= i
                    < ppn * PAGE_SIZE + PAGE_SIZE {
                    0u8
                } else {
                    old(self).bytes@[i]
                },
    {
        let size: usize = self.bytes.len();
        let base: usize = ppn * PAGE_SIZE;
        let mut k: usize = 0;
        while k < PAGE_SIZE
            invariant
                k <= PAGE_SIZE,
                base == ppn * PAGE_SIZE,
                base + PAGE_SIZE <= size,
                self.bytes@.len() == size,
                size == old(self).bytes@.len(),
                self.free == old(self).free,
                forall|i: int|
                    0 <= i < self.bytes@.len() ==> self.bytes@[i] == if base <= i < base + k {
                        0u8
                    } else {
                        old(self).bytes@[i]
                    },
            decreases PAGE_SIZE - k,
        {
            self.bytes.set(base + k, 0u8);
            k = k + 1;
        }
    }

    /// Takes back frame `ppn`, which must be handed out.
    pub fn free_frame(&mut self, ppn: usize)
        requires
            old(self).wf(),
            old(self).is_allocated(ppn as int),
        ensures
            final(self).wf(),
            final(self).frame_count() == old(self).frame_count(),
            final(self).free_frames() == old(self).free_frames() + 1,
            final(self)@ == old(self)@,
            forall|q: int| final(self).is_allocated(q) == (q != ppn && old(self).is_allocated(q)),
    {
        let ghost before = self.free@;
        self.free.push(ppn);
        proof {
            assert forall|q: int|
                self.is_allocated(q) == (q != ppn && old(self).is_allocated(q)) by {
                if 0 <= q < self.frame_count() {
                    if before.contains(q as usize) {
                        let j = choose|j: int| 0 <= j < before.len() && before[j] == q as usize;
                        assert(self.free@[j] == q as usize);
                    }
                    if q == ppn {
                        assert(self.free@[before.len() as int] == ppn);
                    }
                    if self.free@.contains(q as usize) && q != ppn {
                        let j = choose|j: int| 0 <= j < self.free@.len() && self.free@[j] == q as usize;
                        assert(before[j] == q as usize);
                    }
                }
            }
        }
    }

    /// The byte at physical address `pa`.
    pub fn read(&self, pa: usize) -> (b: u8)
        requires
            pa < self@.len(),
        ensures
            b == self@[pa as int],
    {
        self.bytes[pa]
    }

    /// Stores `b` at physical address `pa`.
    pub fn write(&mut self, pa: usize, b: u8)
        requires
            pa < old(self)@.len(),
        ensures
            final(self)@ == old(self)@.update(pa as int, b),
            final(self).wf() == old(self).wf(),
            final(self).frame_count() == old(self).frame_count(),
            final(self).free_frames() == old(self).free_frames(),
            forall|q: int| final(self).is_allocated(q) == old(self).is_allocated(q),
    {
        self.bytes.set(pa, b);
    }
}

} // verus!
