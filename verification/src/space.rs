//! The virtual memory of one task: its mapped areas, its heap, and the page
//! table behind both.

use vstd::prelude::*;
use crate::address::{page_aligned, page_ceil, page_ceil_of, page_number};
use crate::config::PAGE_SIZE;
use crate::fault::Fault;
use crate::memory::PhysMemory;
use crate::page_table::{AddressSpaceToken, MapPermission, PageTable};
use crate::translate::{frames_distinct, frames_within, Pages};

verus! {

/// A virtual memory area: the pages from `start_page` up to, but not
/// including, `end_page`, all mapped with the same permission.
#[derive(Clone, Copy, Debug, PartialEq, Eq, Structural)]
pub struct Vma {
    pub start_page: usize,
    pub end_page: usize,
    pub perm: MapPermission,
}

impl Vma {
    /// Whether page `vpn` belongs to the area.
    pub open spec fn covers(self, vpn: int) -> bool {
        self.start_page <= vpn < self.end_page
    }

    /// Whether the area shares a page with the pages `[lo, hi)`.
    pub open spec fn meets(self, lo: int, hi: int) -> bool {
        lo < hi && self.start_page < hi && lo < self.end_page
    }

    /// Whether the area is a part of `whole`, with the same permission.
    pub open spec fn part_of(self, whole: Vma) -> bool {
        &&& whole.start_page <= self.start_page
        &&& self.start_page < self.end_page
        &&& self.end_page <= whole.end_page
        &&& self.perm == whole.perm
    }
}

/// Whether `perm` can be asked for in a mapping request: the page is
/// accessible from user mode and some access is granted.
pub open spec fn requestable(perm: MapPermission) -> bool {
    perm.user && (perm.read || perm.write || perm.execute)
}

/// Whether page `vpn` belongs to one of the areas.
pub open spec fn in_areas(areas: Seq<Vma>, vpn: int) -> bool {
    exists|i: int| 0 <= i < areas.len() && (#[trigger] areas[i]).covers(vpn)
}

/// Whether one of the areas shares a page with the pages `[lo, hi)`.
pub open spec fn areas_meet(areas: Seq<Vma>, lo: int, hi: int) -> bool {
    exists|i: int| 0 <= i < areas.len() && (#[trigger] areas[i]).meets(lo, hi)
}

/// The invariant of a set of areas: none is empty, no two share a page,
/// and each carries a permission that can be asked for.
pub open spec fn areas_wf(areas: Seq<Vma>) -> bool {
    &&& forall|i: int|
        0 <= i < areas.len() ==> (#[trigger] areas[i]).start_page < areas[i].end_page && requestable(
            areas[i].perm,
        )
    &&& forall|i: int, j: int|
        0 <= i < j < areas.len() ==> !(#[trigger] areas[i]).meets(
            (#[trigger] areas[j]).start_page as int,
            areas[j].end_page as int,
        )
}

/// What remains of `area` below page `lo`, for an area that reaches
/// beyond `lo`.
pub open spec fn left_part(area: Vma, lo: int) -> Seq<Vma> {
    if area.start_page < lo {
        seq![Vma { start_page: area.start_page, end_page: lo as usize, perm: area.perm }]
    } else {
        Seq::empty()
    }
}

/// What remains of `area` from page `hi` on, for an area that starts
/// below `hi`.
pub open spec fn right_part(area: Vma, hi: int) -> Seq<Vma> {
    if hi < area.end_page {
        seq![Vma { start_page: hi as usize, end_page: area.end_page, perm: area.perm }]
    } else {
        Seq::empty()
    }
}

/// What remains of `area` once the pages `[lo, hi)` are taken out: the
/// area itself where it lies clear of them, else a part below, a part
/// above, both or nothing.
pub open spec fn remainder(area: Vma, lo: int, hi: int) -> Seq<Vma> {
    if !area.meets(lo, hi) {
        seq![area]
    } else {
        left_part(area, lo) + right_part(area, hi)
    }
}

/// The areas once the pages `[lo, hi)` are taken out of each, in the
/// order of the areas they come from.
pub open spec fn carve(areas: Seq<Vma>, lo: int, hi: int) -> Seq<Vma>
    decreases areas.len(),
{
    if areas.len() == 0 {
        Seq::empty()
    } else {
        carve(areas.drop_last(), lo, hi) + remainder(areas.last(), lo, hi)
    }
}

/// The state of an address space as contracts see it.
pub struct SpaceView {
    /// The token of the page table.
    pub token: AddressSpaceToken,
    /// The mapped pages.
    pub pages: Pages,
    /// The areas made by mapping requests, in the order of their making.
    pub areas: Seq<Vma>,
    /// The address at which the heap starts; it never moves.
    pub heap_bottom: int,
    /// The program break: the address at which the heap ends.
    pub brk: int,
}

impl SpaceView {
    /// Number of the first heap page.
    pub open spec fn heap_lo(self) -> int {
        page_number(self.heap_bottom)
    }

    /// Number of the page after the last heap page.
    pub open spec fn heap_hi(self) -> int {
        page_ceil(self.brk)
    }

    /// Whether page `vpn` belongs to the heap.
    pub open spec fn in_heap(self, vpn: int) -> bool {
        self.heap_lo() <= vpn < self.heap_hi()
    }

    /// Whether the pages `[lo, hi)` share a page with an area or the heap.
    pub open spec fn overlaps(self, lo: int, hi: int) -> bool {
        areas_meet(self.areas, lo, hi) || (lo < hi && self.heap_lo() < hi && lo < self.heap_hi())
    }

    /// Whether each of the pages `[lo, hi)` belongs to an area.
    pub open spec fn covered(self, lo: int, hi: int) -> bool {
        forall|vpn: int| lo <= vpn < hi ==> #[trigger] in_areas(self.areas, vpn)
    }

    /// The invariant that ties areas, heap, page table and frames together:
    /// a page is mapped exactly if it belongs to an area or to the heap, with
    /// the permission of what it belongs to, in a frame of its own that is
    /// handed out.
    pub open spec fn wf(self, mem: &PhysMemory) -> bool {
        &&& areas_wf(self.areas)
        &&& page_aligned(self.heap_bottom)
        &&& 0 <= self.heap_bottom <= self.brk <= isize::MAX
        &&& !areas_meet(self.areas, self.heap_lo(), self.heap_hi())
        &&& forall|vpn: usize| #[trigger]
            self.pages.contains_key(vpn) <==> self.in_heap(vpn as int) || in_areas(self.areas, vpn as int)
        &&& forall|i: int, vpn: usize|
            0 <= i < self.areas.len() && (#[trigger] self.areas[i]).covers(vpn as int)
                ==> (#[trigger] self.pages[vpn]).perm == self.areas[i].perm
        &&& forall|vpn: usize|
            self.in_heap(vpn as int) ==> (#[trigger] self.pages[vpn]).perm == MapPermission::heap()
        &&& table_ok(self.pages, mem)
    }
}

/// Every mapped page lies in a frame of its own that exists and is handed
/// out.
pub open spec fn table_ok(pages: Pages, mem: &PhysMemory) -> bool {
    &&& frames_within(pages, mem.frame_count())
    &&& frames_distinct(pages)
    &&& forall|vpn: usize| pages.contains_key(vpn) ==> mem.is_allocated((#[trigger] pages[vpn]).frame as int)
}

/// The pages after `[lo, hi)` were mapped with `perm` into frames that
/// were free in `before_mem`.
pub open spec fn pages_added(
    before: Pages,
    after: Pages,
    before_mem: &PhysMemory,
    lo: int,
    hi: int,
    perm: MapPermission,
) -> bool {
    &&& forall|vpn: usize| #[trigger]
        after.contains_key(vpn) <==> before.contains_key(vpn) || lo <= vpn < hi
    &&& forall|vpn: usize| before.contains_key(vpn) ==> #[trigger] after[vpn] == before[vpn]
    &&& forall|vpn: usize|
        lo <= vpn < hi ==> (#[trigger] after[vpn]).perm == perm && !before_mem.is_allocated(
            after[vpn].frame as int,
        )
}

/// The pages after `[lo, hi)` were unmapped.
pub open spec fn pages_removed(before: Pages, after: Pages, lo: int, hi: int) -> bool {
    &&& forall|vpn: usize| #[trigger]
        after.contains_key(vpn) <==> before.contains_key(vpn) && !(lo <= vpn < hi)
    &&& forall|vpn: usize| after.contains_key(vpn) ==> #[trigger] after[vpn] == before[vpn]
}

/// Memory after frames were handed out for newly mapped pages: what was
/// handed out before still is and holds the same bytes.
pub open spec fn memory_grown(before: &PhysMemory, after: &PhysMemory, count: int) -> bool {
    &&& after.wf()
    &&& after.frame_count() == before.frame_count()
    &&& after@.len() == before@.len()
    &&& after.free_frames() == before.free_frames() - count
    &&& forall|q: int| before.is_allocated(q) ==> after.is_allocated(q)
    &&& forall|i: int|
        0 <= i < before@.len() && before.is_allocated(i / (PAGE_SIZE as int)) ==> #[trigger] after@[i]
            == before@[i]
}

/// Memory after the frames of unmapped pages were taken back: no byte
/// changed, and nothing was handed out.
pub open spec fn memory_shrunk(before: &PhysMemory, after: &PhysMemory, count: int) -> bool {
    &&& after.wf()
    &&& after.frame_count() == before.frame_count()
    &&& after@ == before@
    &&& after.free_frames() == before.free_frames() + count
    &&& forall|q: int| after.is_allocated(q) ==> before.is_allocated(q)
}

/// The virtual memory of one task.
pub struct AddressSpace {
    table: PageTable,
    areas: Vec<Vma>,
    heap_bottom: usize,
    brk: usize,
}

impl View for AddressSpace {
    type V = SpaceView;

    closed spec fn view(&self) -> SpaceView {
        SpaceView {
            token: self.table.spec_token(),
            pages: self.table@,
            areas: self.areas@,
            heap_bottom: self.heap_bottom as int,
            brk: self.brk as int,
        }
    }
}

impl AddressSpace {
    /// Whether the address space is consistent with itself and with the
    /// frames handed out by `mem`.
    pub open spec fn wf(&self, mem: &PhysMemory) -> bool {
        self@.wf(mem)
    }

    /// An address space with nothing mapped and an empty heap at
    /// `heap_bottom`; `None` where `heap_bottom` is not page-aligned or lies
    /// in the upper half of the address range.
    pub fn new(token: AddressSpaceToken, heap_bottom: usize) -> (made: Option<Self>)
        ensures
            made is Some <==> page_aligned(heap_bottom as int) && heap_bottom <= isize::MAX,
            made matches Some(space) ==> {
                &&& space@.token == token
                &&& space@.pages == Map::<usize, crate::page_table::PageTableEntry>::empty()
                &&& space@.areas == Seq::<Vma>::empty()
                &&& space@.heap_bottom == heap_bottom
                &&& space@.brk == heap_bottom
                &&& forall|mem: &PhysMemory| mem.wf() ==> #[trigger] space.wf(mem)
            },
    {
        if heap_bottom % PAGE_SIZE != 0 || heap_bottom > isize::MAX as usize {
            return None;
        }
        let space = AddressSpace {
            table: PageTable::new(token),
            areas: Vec::new(),
            heap_bottom,
            brk: heap_bottom,
        };
        Some(space)
    }

    /// The token of the address space.
    pub fn token(&self) -> (token: AddressSpaceToken)
        ensures
            token == self@.token,
    {
        self.table.token()
    }

    /// The page table of the address space.
    pub fn table(&self) -> (table: &PageTable)
        ensures
            table@ == self@.pages,
            table.spec_token() == self@.token,
    {
        &self.table
    }

    /// The program break.
    pub fn program_break(&self) -> (brk: usize)
        ensures
            brk == self@.brk,
    {
        self.brk
    }

    /// Number of areas made by mapping requests.
    pub fn area_count(&self) -> (n: usize)
        ensures
            n == self@.areas.len(),
    {
        self.areas.len()
    }

    /// The `index`-th area.
    pub fn area(&self, index: usize) -> (area: Vma)
        requires
            index < self@.areas.len(),
        ensures
            area == self@.areas[index as int],
    {
        self.areas[index]
    }

    /// Whether the pages `[lo, hi)` share a page with an area or the heap.
    pub fn overlaps(&self, lo: usize, hi: usize) -> (hit: bool)
        ensures
            hit == self@.overlaps(lo as int, hi as int),
    {
        if lo >= hi {
            return false;
        }
        let heap_lo: usize = self.heap_bottom / PAGE_SIZE;
        let heap_hi: usize = page_ceil_of(self.brk);
        if heap_lo < hi && lo < heap_hi {
            return true;
        }
        let mut i: usize = 0;
        while i < self.areas.len()
            invariant
                i <= self.areas@.len(),
                lo < hi,
                forall|k: int| 0 <= k < i ==> !(#[trigger] self.areas@[k]).meets(lo as int, hi as int),
            decreases self.areas.len() - i,
        {
            let area = self.areas[i];
            if area.start_page < hi && lo < area.end_page {
                assert(self.areas@[i as int].meets(lo as int, hi as int));
                return true;
            }
            i = i + 1;
        }
        false
    }

    /// Whether page `vpn` belongs to an area.
    pub fn in_some_area(&self, vpn: usize) -> (found: bool)
        ensures
            found == in_areas(self@.areas, vpn as int),
    {
        let mut i: usize = 0;
        while i < self.areas.len()
            invariant
                i <= self.areas@.len(),
                forall|k: int| 0 <= k < i ==> !(#[trigger] self.areas@[k]).covers(vpn as int),
            decreases self.areas.len() - i,
        {
            let area = self.areas[i];
            if area.start_page <= vpn && vpn < area.end_page {
                assert(self.areas@[i as int].covers(vpn as int));
                return true;
            }
            i = i + 1;
        }
        false
    }

    /// Whether each of the pages `[lo, hi)` belongs to an area.
    pub fn covered(&self, lo: usize, hi: usize) -> (all: bool)
        ensures
            all == self@.covered(lo as int, hi as int),
    {
        if lo >= hi {
            return true;
        }
        let mut vpn: usize = lo;
        while vpn < hi
            invariant
                lo <= vpn <= hi,
                forall|v: int| lo <= v < vpn ==> #[trigger] in_areas(self@.areas, v),
            decreases hi - vpn,
        {
            if !self.in_some_area(vpn) {
                return false;
            }
            vpn = vpn + 1;
        }
        true
    }

    /// Maps each of the pages `[lo, hi)`, none of which is mapped, to a
    /// zeroed frame of its own.
    fn map_range(&mut self, mem: &mut PhysMemory, lo: usize, hi: usize, perm: MapPermission)
        requires
            old(mem).wf(),
            table_ok(old(self)@.pages, old(mem)),
            lo <= hi,
            forall|vpn: usize| lo <= vpn < hi ==> !old(self)@.pages.contains_key(vpn),
            hi - lo <= old(mem).free_frames(),
        ensures
            final(self)@.token == old(self)@.token,
            final(self)@.areas == old(self)@.areas,
            final(self)@.heap_bottom == old(self)@.heap_bottom,
            final(self)@.brk == old(self)@.brk,
            pages_added(old(self)@.pages, final(self)@.pages, old(mem), lo as int, hi as int, perm),
            table_ok(final(self)@.pages, final(mem)),
            memory_grown(old(mem), final(mem), hi - lo),
            fresh_pages_zeroed(final(self)@.pages, final(mem)@, lo as int, hi as int),
    {
        let mut cur: usize = lo;
        while cur < hi
            invariant
                lo <= cur <= hi,
                mem.wf(),
                self.areas == old(self).areas,
                self.heap_bottom == old(self).heap_bottom,
                self.brk == old(self).brk,
                self.table.spec_token() == old(self).table.spec_token(),
                forall|vpn: usize| cur <= vpn < hi ==> !self.table@.contains_key(vpn),
                hi - cur <= mem.free_frames(),
                pages_added(old(self).table@, self.table@, old(mem), lo as int, cur as int, perm),
                table_ok(self.table@, mem),
                memory_grown(old(mem), mem, cur - lo),
                fresh_pages_zeroed(self.table@, mem@, lo as int, cur as int),
            decreases hi - cur,
        {
            let ghost mem_before = *mem;
            let ghost pages_before = self.table@;
            match mem.alloc_frame() {
                Some(frame) => {
                    self.table.map(cur, frame, perm);
                    proof {
                        mem_before.lemma_size();
                        mem.lemma_size();
                        assert(!old(mem).is_allocated(frame as int));
                        assert forall|i: int|
                            0 <= i < old(mem)@.len() && old(mem).is_allocated(
                                i / (PAGE_SIZE as int),
                            ) implies #[trigger] mem@[i] == old(mem)@[i] by {
                            assert(mem_before@[i] == old(mem)@[i]);
                            if frame * PAGE_SIZE <= i < frame * PAGE_SIZE + PAGE_SIZE {
                                assert(i / (PAGE_SIZE as int) == frame);
                            }
                        }
                        assert forall|vpn: usize| lo <= vpn < cur + 1 implies page_zeroed(
                            mem@,
                            (#[trigger] self.table@[vpn]).frame as int,
                        ) by {
                            if vpn < cur {
                                assert(pages_before.contains_key(vpn));
                                assert(page_zeroed(mem_before@, pages_before[vpn].frame as int));
                                assert(pages_before[vpn].frame * PAGE_SIZE + PAGE_SIZE
                                    <= mem_before@.len()) by (nonlinear_arith)
                                    requires
                                        pages_before[vpn].frame < mem_before.frame_count(),
                                        mem_before@.len() == mem_before.frame_count() * PAGE_SIZE,
                                ;
                            }
                        }
                    }
                },
                None => {
                    proof {
                        assert(false);
                    }
                },
            }
            cur = cur + 1;
        }
    }

    /// Unmaps each of the pages `[lo, hi)`, all of which are mapped, and
    /// takes their frames back.
    fn unmap_range(&mut self, mem: &mut PhysMemory, lo: usize, hi: usize)
        requires
            old(mem).wf(),
            table_ok(old(self)@.pages, old(mem)),
            lo <= hi,
            forall|vpn: usize| lo <= vpn < hi ==> old(self)@.pages.contains_key(vpn),
        ensures
            final(self)@.token == old(self)@.token,
            final(self)@.areas == old(self)@.areas,
            final(self)@.heap_bottom == old(self)@.heap_bottom,
            final(self)@.brk == old(self)@.brk,
            pages_removed(old(self)@.pages, final(self)@.pages, lo as int, hi as int),
            table_ok(final(self)@.pages, final(mem)),
            memory_shrunk(old(mem), final(mem), hi - lo),
            forall|vpn: usize|
                lo <= vpn < hi ==> !final(mem).is_allocated((#[trigger] old(self)@.pages[vpn]).frame as int),
    {
        let mut cur: usize = lo;
        while cur < hi
            invariant
                lo <= cur <= hi,
                mem.wf(),
                self.areas == old(self).areas,
                self.heap_bottom == old(self).heap_bottom,
                self.brk == old(self).brk,
                self.table.spec_token() == old(self).table.spec_token(),
                pages_removed(old(self).table@, self.table@, lo as int, cur as int),
                forall|vpn: usize| lo <= vpn < hi ==> old(self).table@.contains_key(vpn),
                table_ok(self.table@, mem),
                memory_shrunk(old(mem), mem, cur - lo),
                forall|vpn: usize|
                    lo <= vpn < cur ==> !mem.is_allocated((#[trigger] old(self).table@[vpn]).frame as int),
            decreases hi - cur,
        {
            let ghost pages_before = self.table@;
            assert(pages_before.contains_key(cur));
            match self.table.unmap(cur) {
                Some(entry) => {
                    assert(entry == pages_before[cur]);
                    mem.free_frame(entry.frame);
                    proof {
                        assert forall|vpn: usize| self.table@.contains_key(vpn) implies mem.is_allocated(
                            (#[trigger] self.table@[vpn]).frame as int,
                        ) by {
                            assert(pages_before.contains_key(vpn));
                            assert(pages_before[vpn].frame != pages_before[cur].frame);
                        }
                    }
                },
                None => {
                    proof {
                        assert(false);
                    }
                },
            }
            cur = cur + 1;
        }
    }

    /// Maps the pages of `[start, start + len)` with permission `perm`, each
    /// into a zeroed frame of its own, and records them as one new area.
    ///
    /// The request is checked in full before anything changes: a request
    /// that is refused leaves the address space and the memory as they were.
    /// A request for no bytes is granted and maps nothing.
    pub fn mmap(&mut self, mem: &mut PhysMemory, start: usize, len: usize, perm: MapPermission) -> (out:
        Result<(), Fault>)
        requires
            old(mem).wf(),
            old(self).wf(old(mem)),
        ensures
            final(mem).wf(),
            final(self).wf(final(mem)),
            out == match mmap_refusal(old(self)@, old(mem).free_frames(), start as int, len as int, perm) {
                Some(fault) => Err::<(), Fault>(fault),
                None => Ok(()),
            },
            out is Err ==> *final(self) == *old(self) && *final(mem) == *old(mem),
            out is Ok ==> mmap_effect(
                old(self)@,
                final(self)@,
                old(mem),
                final(mem),
                start as int,
                len as int,
                perm,
            ),
    {
        if start % PAGE_SIZE != 0 {
            return Err(Fault::AlignmentViolation);
        }
        if !(perm.user && (perm.read || perm.write || perm.execute)) {
            return Err(Fault::InvalidArgument);
        }
        if start > usize::MAX - len {
            return Err(Fault::AddressFault);
        }
        let lo: usize = start / PAGE_SIZE;
        let hi: usize = page_ceil_of(start + len);
        if self.overlaps(lo, hi) {
            return Err(Fault::OverlapViolation);
        }
        if mem.available() < hi - lo {
            return Err(Fault::OutOfMemory);
        }
        if lo == hi {
            return Ok(());
        }
        proof {
            assert forall|vpn: usize| lo <= vpn < hi implies !self@.pages.contains_key(vpn) by {
                if in_areas(self@.areas, vpn as int) {
                    let i = choose|i: int| 0 <= i < self@.areas.len() && (#[trigger] self@.areas[i]).covers(vpn as int);
                    assert(self@.areas[i].meets(lo as int, hi as int));
                }
            }
        }
        self.map_range(mem, lo, hi, perm);
        let area = Vma { start_page: lo, end_page: hi, perm };
        self.areas.push(area);
        proof {
            let pre = old(self)@;
            let post = self@;
            assert(post.areas == pre.areas.push(area));
            assert forall|i: int| 0 <= i < pre.areas.len() implies !(#[trigger] pre.areas[i]).meets(
                lo as int,
                hi as int,
            ) by {}
            assert forall|vpn: usize| #[trigger]
                post.pages.contains_key(vpn) <==> post.in_heap(vpn as int) || in_areas(
                    post.areas,
                    vpn as int,
                ) by {
                lemma_in_areas_push(pre.areas, area, vpn as int);
            }
            assert(!areas_meet(post.areas, post.heap_lo(), post.heap_hi())) by {
                if areas_meet(post.areas, post.heap_lo(), post.heap_hi()) {
                    let i = choose|i: int|
                        0 <= i < post.areas.len() && (#[trigger] post.areas[i]).meets(
                            post.heap_lo(),
                            post.heap_hi(),
                        );
                    if i < pre.areas.len() {
                        assert(pre.areas[i].meets(pre.heap_lo(), pre.heap_hi()));
                    }
                }
            }
            assert forall|i: int, vpn: usize|
                0 <= i < post.areas.len() && (#[trigger] post.areas[i]).covers(vpn as int) implies (
            #[trigger] post.pages[vpn]).perm == post.areas[i].perm by {
                if i < pre.areas.len() {
                    assert(pre.areas[i].covers(vpn as int));
                    assert(in_areas(pre.areas, vpn as int));
                    assert(pre.pages.contains_key(vpn));
                }
            }
            assert forall|vpn: usize| post.in_heap(vpn as int) implies (#[trigger] post.pages[vpn]).perm
                == MapPermission::heap() by {
                assert(pre.pages.contains_key(vpn));
            }
        }
        Ok(())
    }

    /// Unmaps the pages of `[start, start + len)`, takes their frames back,
    /// and cuts them out of the areas they belong to: an area may vanish,
    /// shrink at one end, or fall into two.
    ///
    /// Each page of the range must belong to an area; a request that is
    /// refused leaves the address space and the memory as they were.
    pub fn munmap(&mut self, mem: &mut PhysMemory, start: usize, len: usize) -> (out: Result<(), Fault>)
        requires
            old(mem).wf(),
            old(self).wf(old(mem)),
        ensures
            final(mem).wf(),
            final(self).wf(final(mem)),
            out == match munmap_refusal(old(self)@, start as int, len as int) {
                Some(fault) => Err::<(), Fault>(fault),
                None => Ok(()),
            },
            out is Err ==> *final(self) == *old(self) && *final(mem) == *old(mem),
            out is Ok ==> munmap_effect(
                old(self)@,
                final(self)@,
                old(mem),
                final(mem),
                start as int,
                len as int,
            ),
    {
        if start % PAGE_SIZE != 0 {
            return Err(Fault::AlignmentViolation);
        }
        if start > usize::MAX - len {
            return Err(Fault::RangeNotMapped);
        }
        let lo: usize = start / PAGE_SIZE;
        let hi: usize = page_ceil_of(start + len);
        if !self.covered(lo, hi) {
            return Err(Fault::RangeNotMapped);
        }
        if lo == hi {
            return Ok(());
        }
        proof {
            assert forall|vpn: usize| lo <= vpn < hi implies self@.pages.contains_key(vpn) by {
                assert(in_areas(self@.areas, vpn as int));
            }
        }
        self.unmap_range(mem, lo, hi);
        let mut kept: Vec<Vma> = Vec::new();
        let mut i: usize = 0;
        while i < self.areas.len()
            invariant
                i <= self.areas@.len(),
                lo < hi,
                kept@ == carve(self.areas@.take(i as int), lo as int, hi as int),
            decreases self.areas.len() - i,
        {
            let area = self.areas[i];
            proof {
                assert(self.areas@.take(i + 1).drop_last() =~= self.areas@.take(i as int));
                assert(self.areas@.take(i + 1).last() == area);
            }
            let ghost before = kept@;
            if !(area.start_page < hi && lo < area.end_page) {
                kept.push(area);
                proof {
                    assert(kept@ =~= before + remainder(area, lo as int, hi as int));
                }
            } else {
                if area.start_page < lo {
                    kept.push(Vma { start_page: area.start_page, end_page: lo, perm: area.perm });
                }
                if hi < area.end_page {
                    kept.push(Vma { start_page: hi, end_page: area.end_page, perm: area.perm });
                }
                proof {
                    assert(kept@ =~= before + remainder(area, lo as int, hi as int));
                }
            }
            i = i + 1;
        }
        proof {
            assert(self.areas@.take(i as int) =~= self.areas@);
        }
        self.areas = kept;
        proof {
            let pre = old(self)@;
            let post = self@;
            lemma_carve(pre.areas, lo as int, hi as int);
            assert(post.areas == carve(pre.areas, lo as int, hi as int));
            assert(!areas_meet(post.areas, post.heap_lo(), post.heap_hi())) by {
                if areas_meet(post.areas, post.heap_lo(), post.heap_hi()) {
                    let k = choose|k: int|
                        0 <= k < post.areas.len() && (#[trigger] post.areas[k]).meets(
                            post.heap_lo(),
                            post.heap_hi(),
                        );
                    let j = choose|j: int|
                        0 <= j < pre.areas.len() && post.areas[k].part_of(#[trigger] pre.areas[j]);
                    assert(pre.areas[j].meets(pre.heap_lo(), pre.heap_hi()));
                }
            }
            assert forall|vpn: usize| #[trigger]
                post.pages.contains_key(vpn) <==> post.in_heap(vpn as int) || in_areas(
                    post.areas,
                    vpn as int,
                ) by {
                if post.in_heap(vpn as int) && lo <= vpn < hi {
                    assert(in_areas(pre.areas, vpn as int));
                    let j = choose|j: int| 0 <= j < pre.areas.len() && (#[trigger] pre.areas[j]).covers(vpn as int);
                    assert(pre.areas[j].meets(pre.heap_lo(), pre.heap_hi()));
                }
            }
            assert forall|k: int, vpn: usize|
                0 <= k < post.areas.len() && (#[trigger] post.areas[k]).covers(vpn as int) implies (
            #[trigger] post.pages[vpn]).perm == post.areas[k].perm by {
                let j = choose|j: int|
                    0 <= j < pre.areas.len() && post.areas[k].part_of(#[trigger] pre.areas[j]);
                assert(pre.areas[j].covers(vpn as int));
                assert(in_areas(post.areas, vpn as int));
                assert(post.pages.contains_key(vpn));
            }
            assert forall|vpn: usize| post.in_heap(vpn as int) implies (#[trigger] post.pages[vpn]).perm
                == MapPermission::heap() by {
                assert(post.pages.contains_key(vpn));
            }
        }
        Ok(())
    }

    /// Moves the program break by `delta` bytes and returns the break as it
    /// was before. Growing maps the heap pages that the new break needs, each
    /// into a zeroed frame; shrinking unmaps those no longer needed.
    ///
    /// The break can neither fall below the bottom of the heap, nor rise
    /// into the upper half of the address range or into a mapped area, nor
    /// ask for more frames than are free: then nothing changes and `None` is
    /// returned.
    pub fn brk(&mut self, mem: &mut PhysMemory, delta: i32) -> (old_break: Option<usize>)
        requires
            old(mem).wf(),
            old(self).wf(old(mem)),
        ensures
            final(mem).wf(),
            final(self).wf(final(mem)),
            old_break == if brk_refused(old(self)@, old(mem).free_frames(), delta as int) {
                None::<usize>
            } else {
                Some(old(self)@.brk as usize)
            },
            old_break is None ==> *final(self) == *old(self) && *final(mem) == *old(mem),
            old_break is Some ==> brk_effect(old(self)@, final(self)@, old(mem), final(mem), delta as int),
    {
        let before: usize = self.brk;
        let from: usize = page_ceil_of(before);
        if delta >= 0 {
            let up: usize = delta as usize;
            if up > isize::MAX as usize - before {
                return None;
            }
            let target: usize = before + up;
            let to: usize = page_ceil_of(target);
            if self.overlaps(from, to) {
                return None;
            }
            if mem.available() < to - from {
                return None;
            }
            proof {
                assert forall|vpn: usize| from <= vpn < to implies !self@.pages.contains_key(vpn) by {
                    if in_areas(self@.areas, vpn as int) {
                        let i = choose|i: int| 0 <= i < self@.areas.len() && (#[trigger] self@.areas[i]).covers(vpn as int);
                        assert(self@.areas[i].meets(from as int, to as int));
                    }
                }
            }
            self.map_range(mem, from, to, MapPermission::for_heap());
            self.brk = target;
            proof {
                let pre = old(self)@;
                let post = self@;
                assert(!areas_meet(post.areas, post.heap_lo(), post.heap_hi())) by {
                    if areas_meet(post.areas, post.heap_lo(), post.heap_hi()) {
                        let i = choose|i: int|
                            0 <= i < post.areas.len() && (#[trigger] post.areas[i]).meets(
                                post.heap_lo(),
                                post.heap_hi(),
                            );
                        assert(pre.areas[i].meets(pre.heap_lo(), pre.heap_hi()) || pre.areas[i].meets(
                            from as int,
                            to as int,
                        ));
                    }
                }
                assert forall|i: int, vpn: usize|
                    0 <= i < post.areas.len() && (#[trigger] post.areas[i]).covers(vpn as int) implies (
                #[trigger] post.pages[vpn]).perm == post.areas[i].perm by {
                    assert(in_areas(pre.areas, vpn as int));
                    assert(pre.pages.contains_key(vpn));
                }
                assert forall|vpn: usize| post.in_heap(vpn as int) implies (#[trigger] post.pages[vpn]).perm
                    == MapPermission::heap() by {
                    if vpn < from {
                        assert(pre.pages.contains_key(vpn));
                    }
                }
            }
            Some(before)
        } else {
            let down: usize = (-(delta as i64)) as usize;
            if down > before - self.heap_bottom {
                return None;
            }
            let target: usize = before - down;
            let to: usize = page_ceil_of(target);
            proof {
                assert forall|vpn: usize| to <= vpn < from implies self@.pages.contains_key(vpn) by {
                    assert(self@.in_heap(vpn as int));
                }
            }
            if to < from {
                self.unmap_range(mem, to, from);
            }
            self.brk = target;
            proof {
                let pre = old(self)@;
                let post = self@;
                assert(!areas_meet(post.areas, post.heap_lo(), post.heap_hi())) by {
                    if areas_meet(post.areas, post.heap_lo(), post.heap_hi()) {
                        let i = choose|i: int|
                            0 <= i < post.areas.len() && (#[trigger] post.areas[i]).meets(
                                post.heap_lo(),
                                post.heap_hi(),
                            );
                        assert(pre.areas[i].meets(pre.heap_lo(), pre.heap_hi()));
                    }
                }
                assert forall|vpn: usize| #[trigger]
                    post.pages.contains_key(vpn) <==> post.in_heap(vpn as int) || in_areas(
                        post.areas,
                        vpn as int,
                    ) by {
                    if in_areas(pre.areas, vpn as int) && to <= vpn < from {
                        let i = choose|i: int| 0 <= i < pre.areas.len() && (#[trigger] pre.areas[i]).covers(vpn as int);
                        assert(pre.areas[i].meets(pre.heap_lo(), pre.heap_hi()));
                    }
                }
                assert forall|i: int, vpn: usize|
                    0 <= i < post.areas.len() && (#[trigger] post.areas[i]).covers(vpn as int) implies (
                #[trigger] post.pages[vpn]).perm == post.areas[i].perm by {
                    assert(in_areas(post.areas, vpn as int));
                    assert(post.pages.contains_key(vpn));
                }
                assert forall|vpn: usize| post.in_heap(vpn as int) implies (#[trigger] post.pages[vpn]).perm
                    == MapPermission::heap() by {
                    assert(post.pages.contains_key(vpn));
                }
            }
            Some(before)
        }
    }
}

/// Whether a move of the program break by `delta` bytes is refused.
pub open spec fn brk_refused(space: SpaceView, free_frames: nat, delta: int) -> bool {
    let target = space.brk + delta;
    let from = page_ceil(space.brk);
    let to = page_ceil(target);
    ||| target < space.heap_bottom
    ||| target > isize::MAX
    ||| areas_meet(space.areas, from, to)
    ||| free_frames < to - from
}

/// What a granted move of the program break by `delta` bytes does: the
/// break is where it was asked to be, and the heap pages are those that it
/// needs; areas and the pages of areas are untouched.
pub open spec fn brk_effect(
    pre: SpaceView,
    post: SpaceView,
    pre_mem: &PhysMemory,
    post_mem: &PhysMemory,
    delta: int,
) -> bool {
    let from = page_ceil(pre.brk);
    let to = page_ceil(pre.brk + delta);
    &&& post.token == pre.token
    &&& post.heap_bottom == pre.heap_bottom
    &&& post.areas == pre.areas
    &&& post.brk == pre.brk + delta
    &&& from <= to ==> {
        &&& pages_added(pre.pages, post.pages, pre_mem, from, to, MapPermission::heap())
        &&& memory_grown(pre_mem, post_mem, to - from)
        &&& fresh_pages_zeroed(post.pages, post_mem@, from, to)
    }
    &&& to < from ==> {
        &&& pages_removed(pre.pages, post.pages, to, from)
        &&& memory_shrunk(pre_mem, post_mem, from - to)
    }
}

impl AddressSpace {
    /// Gives up everything the task has mapped: every area and the whole
    /// heap are unmapped and their frames taken back. The address space is
    /// then as it was made, with the break at the bottom of the heap.
    pub fn teardown(&mut self, mem: &mut PhysMemory)
        requires
            old(mem).wf(),
            old(self).wf(old(mem)),
        ensures
            final(mem).wf(),
            final(self).wf(final(mem)),
            final(self)@.token == old(self)@.token,
            final(self)@.heap_bottom == old(self)@.heap_bottom,
            final(self)@.brk == old(self)@.heap_bottom,
            final(self)@.areas == Seq::<Vma>::empty(),
            final(self)@.pages == Map::<usize, crate::page_table::PageTableEntry>::empty(),
            final(mem)@ == old(mem)@,
            final(mem).frame_count() == old(mem).frame_count(),
            forall|q: int| final(mem).is_allocated(q) ==> old(mem).is_allocated(q),
            forall|vpn: usize|
                old(self)@.pages.contains_key(vpn) ==> !final(mem).is_allocated(
                    (#[trigger] old(self)@.pages[vpn]).frame as int,
                ),
    {
        let heap_lo: usize = self.heap_bottom / PAGE_SIZE;
        let heap_hi: usize = page_ceil_of(self.brk);
        if heap_lo < heap_hi {
            proof {
                assert forall|vpn: usize| heap_lo <= vpn < heap_hi implies self@.pages.contains_key(vpn) by {
                    assert(self@.in_heap(vpn as int));
                }
            }
            self.unmap_range(mem, heap_lo, heap_hi);
        }
        self.brk = self.heap_bottom;
        proof {
            let pre = old(self)@;
            let now = self@;
            assert forall|vpn: usize| #[trigger]
                now.pages.contains_key(vpn) <==> now.in_heap(vpn as int) || in_areas(now.areas, vpn as int) by {
                if in_areas(pre.areas, vpn as int) && pre.in_heap(vpn as int) {
                    let i = choose|i: int| 0 <= i < pre.areas.len() && (#[trigger] pre.areas[i]).covers(vpn as int);
                    assert(pre.areas[i].meets(pre.heap_lo(), pre.heap_hi()));
                }
            }
            assert forall|i: int, vpn: usize|
                0 <= i < now.areas.len() && (#[trigger] now.areas[i]).covers(vpn as int) implies (
            #[trigger] now.pages[vpn]).perm == now.areas[i].perm by {
                assert(in_areas(now.areas, vpn as int));
                assert(now.pages.contains_key(vpn));
            }
            assert(!areas_meet(now.areas, now.heap_lo(), now.heap_hi()));
        }
        while self.areas.len() > 0
            invariant
                mem.wf(),
                self@.wf(mem),
                self@.token == old(self)@.token,
                self@.heap_bottom == old(self)@.heap_bottom,
                self@.brk == old(self)@.heap_bottom,
                mem@ == old(mem)@,
                mem.frame_count() == old(mem).frame_count(),
                forall|q: int| mem.is_allocated(q) ==> old(mem).is_allocated(q),
                forall|vpn: usize|
                    old(self)@.pages.contains_key(vpn) ==> (self@.pages.contains_key(vpn) && self@.pages[vpn]
                        == old(self)@.pages[vpn]) || !mem.is_allocated(
                        (#[trigger] old(self)@.pages[vpn]).frame as int,
                    ),
            decreases self.areas.len(),
        {
            let ghost before = self@;
            let last: usize = self.areas.len() - 1;
            let area = self.areas[last];
            proof {
                assert(before.areas[last as int] == area);
                assert forall|vpn: usize| area.start_page <= vpn < area.end_page implies before.pages.contains_key(
                    vpn,
                ) by {
                    assert(before.areas[last as int].covers(vpn as int));
                    assert(in_areas(before.areas, vpn as int));
                }
            }
            self.unmap_range(mem, area.start_page, area.end_page);
            self.areas.pop();
            proof {
                let now = self@;
                assert(now.areas =~= before.areas.drop_last());
                assert forall|i: int| 0 <= i < now.areas.len() implies now.areas[i] == before.areas[i] by {}
                assert(!areas_meet(now.areas, now.heap_lo(), now.heap_hi())) by {
                    if areas_meet(now.areas, now.heap_lo(), now.heap_hi()) {
                        let i = choose|i: int|
                            0 <= i < now.areas.len() && (#[trigger] now.areas[i]).meets(
                                now.heap_lo(),
                                now.heap_hi(),
                            );
                        assert(before.areas[i].meets(before.heap_lo(), before.heap_hi()));
                    }
                }
                assert forall|vpn: usize| #[trigger]
                    now.pages.contains_key(vpn) <==> now.in_heap(vpn as int) || in_areas(
                        now.areas,
                        vpn as int,
                    ) by {
                    if in_areas(now.areas, vpn as int) {
                        let i = choose|i: int| 0 <= i < now.areas.len() && (#[trigger] now.areas[i]).covers(vpn as int);
                        assert(before.areas[i].covers(vpn as int));
                        assert(!before.areas[i].meets(area.start_page as int, area.end_page as int));
                    }
                    if in_areas(before.areas, vpn as int) && !area.covers(vpn as int) {
                        let i = choose|i: int|
                            0 <= i < before.areas.len() && (#[trigger] before.areas[i]).covers(vpn as int);
                        assert(now.areas[i].covers(vpn as int));
                    }
                }
                assert forall|i: int, vpn: usize|
                    0 <= i < now.areas.len() && (#[trigger] now.areas[i]).covers(vpn as int) implies (
                #[trigger] now.pages[vpn]).perm == now.areas[i].perm by {
                    assert(before.areas[i].covers(vpn as int));
                    assert(in_areas(now.areas, vpn as int));
                    assert(now.pages.contains_key(vpn));
                }
            }
        }
        proof {
            assert(self@.areas =~= Seq::<Vma>::empty());
            assert forall|vpn: usize| !self@.pages.contains_key(vpn) by {
                assert(!in_areas(self@.areas, vpn as int));
            }
            assert(self@.pages =~= Map::<usize, crate::page_table::PageTableEntry>::empty());
        }
    }
}

/// Cutting the pages `[lo, hi)` out of well-formed areas leaves
/// well-formed areas. Each of them is a part of an area that was there and
/// lies clear of the cut, and together they hold the pages that the areas
/// held, but for those of the cut.
pub proof fn lemma_carve(areas: Seq<Vma>, lo: int, hi: int)
    requires
        areas_wf(areas),
        0 <= lo < hi <= usize::MAX,
    ensures
        areas_wf(carve(areas, lo, hi)),
        forall|k: int|
            0 <= k < carve(areas, lo, hi).len() ==> !(#[trigger] carve(areas, lo, hi)[k]).meets(lo, hi)
                && exists|j: int|
                0 <= j < areas.len() && carve(areas, lo, hi)[k].part_of(#[trigger] areas[j]),
        forall|vpn: int| #[trigger]
            in_areas(carve(areas, lo, hi), vpn) <==> in_areas(areas, vpn) && !(lo <= vpn < hi),
    decreases areas.len(),
{
    let res = carve(areas, lo, hi);
    if areas.len() > 0 {
        let init = areas.drop_last();
        let last = areas.last();
        let n = init.len() as int;
        assert(areas_wf(init)) by {
            assert forall|i: int| 0 <= i < init.len() implies init[i] == areas[i] by {}
        }
        lemma_carve(init, lo, hi);
        let prev = carve(init, lo, hi);
        let rem = remainder(last, lo, hi);
        assert(res == prev + rem);
        assert forall|r: int| 0 <= r < rem.len() implies (#[trigger] rem[r]).part_of(last) && !rem[r].meets(
            lo,
            hi,
        ) by {}
        assert forall|k: int| 0 <= k < res.len() implies !(#[trigger] res[k]).meets(lo, hi) && exists|j: int|
            0 <= j < areas.len() && res[k].part_of(#[trigger] areas[j]) by {
            if k < prev.len() {
                assert(res[k] == prev[k]);
                let j = choose|j: int| 0 <= j < init.len() && prev[k].part_of(#[trigger] init[j]);
                assert(res[k].part_of(areas[j]));
            } else {
                assert(res[k] == rem[k - prev.len()]);
                assert(res[k].part_of(areas[n]));
            }
        }
        assert forall|a: int, b: int| 0 <= a < b < res.len() implies !(#[trigger] res[a]).meets(
            (#[trigger] res[b]).start_page as int,
            res[b].end_page as int,
        ) by {
            if b < prev.len() {
                assert(res[a] == prev[a] && res[b] == prev[b]);
            } else if a < prev.len() {
                assert(res[a] == prev[a]);
                assert(res[b] == rem[b - prev.len()]);
                let j = choose|j: int| 0 <= j < init.len() && prev[a].part_of(#[trigger] init[j]);
                assert(init[j] == areas[j]);
                assert(!areas[j].meets(areas[n].start_page as int, areas[n].end_page as int));
            } else {
                assert(res[a] == rem[a - prev.len()]);
                assert(res[b] == rem[b - prev.len()]);
            }
        }
        assert forall|k: int| 0 <= k < res.len() implies (#[trigger] res[k]).start_page < res[k].end_page
            && requestable(res[k].perm) by {
            let j = choose|j: int| 0 <= j < areas.len() && res[k].part_of(#[trigger] areas[j]);
        }
        assert forall|vpn: int| #[trigger]
            in_areas(res, vpn) <==> in_areas(areas, vpn) && !(lo <= vpn < hi) by {
            if in_areas(res, vpn) {
                let k = choose|k: int| 0 <= k < res.len() && (#[trigger] res[k]).covers(vpn);
                let j = choose|j: int| 0 <= j < areas.len() && res[k].part_of(#[trigger] areas[j]);
                assert(areas[j].covers(vpn));
                assert(!res[k].meets(lo, hi));
            }
            if in_areas(areas, vpn) && !(lo <= vpn < hi) {
                let j = choose|j: int| 0 <= j < areas.len() && (#[trigger] areas[j]).covers(vpn);
                if j < n {
                    assert(init[j].covers(vpn));
                    assert(in_areas(init, vpn));
                    assert(in_areas(prev, vpn));
                    let k = choose|k: int| 0 <= k < prev.len() && (#[trigger] prev[k]).covers(vpn);
                    assert(res[k].covers(vpn));
                } else {
                    assert(last.covers(vpn));
                    if !last.meets(lo, hi) {
                        assert(res[prev.len() as int] == rem[0]);
                        assert(res[prev.len() as int].covers(vpn));
                    } else if vpn < lo {
                        assert(res[prev.len() as int] == rem[0]);
                        assert(res[prev.len() as int].covers(vpn));
                    } else {
                        let r = rem.len() - 1;
                        assert(res[prev.len() + r] == rem[r]);
                        assert(res[prev.len() + r].covers(vpn));
                    }
                }
            }
        }
    }
}

/// Why an unmapping request is refused, if it is.
pub open spec fn munmap_refusal(space: SpaceView, start: int, len: int) -> Option<Fault> {
    if !page_aligned(start) {
        Some(Fault::AlignmentViolation)
    } else if start + len > usize::MAX || !space.covered(page_number(start), page_ceil(start + len)) {
        Some(Fault::RangeNotMapped)
    } else {
        None
    }
}

/// What a granted unmapping request does: the pages of the range are no
/// longer mapped and their frames are free again; the areas are what
/// remains of them outside the range; nothing else moves, and no byte of
/// memory changes.
pub open spec fn munmap_effect(
    pre: SpaceView,
    post: SpaceView,
    pre_mem: &PhysMemory,
    post_mem: &PhysMemory,
    start: int,
    len: int,
) -> bool {
    let lo = page_number(start);
    let hi = page_ceil(start + len);
    &&& post.token == pre.token
    &&& post.heap_bottom == pre.heap_bottom
    &&& post.brk == pre.brk
    &&& post.areas == if lo < hi {
        carve(pre.areas, lo, hi)
    } else {
        pre.areas
    }
    &&& pages_removed(pre.pages, post.pages, lo, hi)
    &&& lo < hi ==> memory_shrunk(pre_mem, post_mem, hi - lo)
    &&& lo >= hi ==> *post_mem == *pre_mem
    &&& forall|vpn: usize| lo <= vpn < hi ==> !post_mem.is_allocated((#[trigger] pre.pages[vpn]).frame as int)
}

/// Whether page `vpn` belongs to the areas with one more pushed: exactly
/// if it belonged to them before or belongs to the new one.
pub proof fn lemma_in_areas_push(areas: Seq<Vma>, area: Vma, vpn: int)
    ensures
        in_areas(areas.push(area), vpn) <==> in_areas(areas, vpn) || area.covers(vpn),
{
    let more = areas.push(area);
    if in_areas(areas, vpn) {
        let i = choose|i: int| 0 <= i < areas.len() && (#[trigger] areas[i]).covers(vpn);
        assert(more[i].covers(vpn));
    }
    if area.covers(vpn) {
        assert(more[areas.len() as int].covers(vpn));
    }
    if in_areas(more, vpn) {
        let i = choose|i: int| 0 <= i < more.len() && (#[trigger] more[i]).covers(vpn);
        if i < areas.len() {
            assert(areas[i].covers(vpn));
        }
    }
}

/// Why a mapping request is refused, if it is: the first of the checks
/// that fails, in the order in which they are made.
pub open spec fn mmap_refusal(space: SpaceView, free_frames: nat, start: int, len: int, perm: MapPermission) -> Option<
    Fault,
> {
    let lo = page_number(start);
    let hi = page_ceil(start + len);
    if !page_aligned(start) {
        Some(Fault::AlignmentViolation)
    } else if !requestable(perm) {
        Some(Fault::InvalidArgument)
    } else if start + len > usize::MAX {
        Some(Fault::AddressFault)
    } else if space.overlaps(lo, hi) {
        Some(Fault::OverlapViolation)
    } else if free_frames < hi - lo {
        Some(Fault::OutOfMemory)
    } else {
        None
    }
}

/// What a granted mapping request does: the pages of the range are mapped
/// with the permission asked for, into frames that were free and now hold
/// zeroes; they form one new area behind the others; nothing else moves.
pub open spec fn mmap_effect(
    pre: SpaceView,
    post: SpaceView,
    pre_mem: &PhysMemory,
    post_mem: &PhysMemory,
    start: int,
    len: int,
    perm: MapPermission,
) -> bool {
    let lo = page_number(start);
    let hi = page_ceil(start + len);
    &&& post.token == pre.token
    &&& post.heap_bottom == pre.heap_bottom
    &&& post.brk == pre.brk
    &&& post.areas == if lo < hi {
        pre.areas.push(Vma { start_page: lo as usize, end_page: hi as usize, perm })
    } else {
        pre.areas
    }
    &&& pages_added(pre.pages, post.pages, pre_mem, lo, hi, perm)
    &&& memory_grown(pre_mem, post_mem, hi - lo)
    &&& fresh_pages_zeroed(post.pages, post_mem@, lo, hi)
}

/// Every byte of frame `frame` is zero.
pub open spec fn page_zeroed(mem: Seq<u8>, frame: int) -> bool {
    forall|i: int| frame * PAGE_SIZE <= i < frame * PAGE_SIZE + PAGE_SIZE ==> #[trigger] mem[i] == 0
}

/// Each of the pages `[lo, hi)` lies in a frame whose bytes are all zero.
pub open spec fn fresh_pages_zeroed(pages: Pages, mem: Seq<u8>, lo: int, hi: int) -> bool {
    forall|vpn: usize| lo <= vpn < hi ==> page_zeroed(mem, (#[trigger] pages[vpn]).frame as int)
}

/// Cutting pages out of areas that hold none of them changes nothing.
pub proof fn lemma_carve_clear(areas: Seq<Vma>, lo: int, hi: int)
    requires
        !areas_meet(areas, lo, hi),
    ensures
        carve(areas, lo, hi) == areas,
    decreases areas.len(),
{
    if areas.len() > 0 {
        let init = areas.drop_last();
        assert(!areas_meet(init, lo, hi)) by {
            if areas_meet(init, lo, hi) {
                let i = choose|i: int| 0 <= i < init.len() && (#[trigger] init[i]).meets(lo, hi);
                assert(areas[i].meets(lo, hi));
            }
        }
        lemma_carve_clear(init, lo, hi);
        assert(!areas[areas.len() - 1].meets(lo, hi));
        assert(init + seq![areas.last()] =~= areas);
    } else {
        assert(carve(areas, lo, hi) =~= areas);
    }
}

/// Unmapping undoes mapping. After a granted request to map
/// `[start, start + len)`, the request to unmap the same range is granted
/// too, and it leaves the areas, the mapped pages and the number of free
/// frames exactly as they were before the mapping. A second request to
/// unmap the range, if the range is not empty, is then refused because the
/// range is not mapped.
pub proof fn lemma_munmap_undoes_mmap(
    pre: SpaceView,
    mid: SpaceView,
    post: SpaceView,
    pre_mem: &PhysMemory,
    mid_mem: &PhysMemory,
    post_mem: &PhysMemory,
    start: int,
    len: int,
    perm: MapPermission,
)
    requires
        0 <= start,
        0 <= len,
        pre_mem.wf(),
        pre.wf(pre_mem),
        mmap_refusal(pre, pre_mem.free_frames(), start, len, perm) is None,
        mmap_effect(pre, mid, pre_mem, mid_mem, start, len, perm),
        munmap_effect(mid, post, mid_mem, post_mem, start, len),
    ensures
        munmap_refusal(mid, start, len) is None,
        post.areas == pre.areas,
        post.pages == pre.pages,
        post == pre,
        post_mem.free_frames() == pre_mem.free_frames(),
        len > 0 ==> munmap_refusal(post, start, len) == Some(Fault::RangeNotMapped),
{
    let lo = page_number(start);
    let hi = page_ceil(start + len);
    if lo < hi {
        let area = Vma { start_page: lo as usize, end_page: hi as usize, perm };
        assert(mid.areas == pre.areas.push(area));
        assert forall|vpn: int| lo <= vpn < hi implies #[trigger] in_areas(mid.areas, vpn) by {
            assert(mid.areas[pre.areas.len() as int].covers(vpn));
        }
        assert(mid.areas.drop_last() =~= pre.areas);
        assert(mid.areas.last() == area);
        lemma_carve_clear(pre.areas, lo, hi);
        assert(remainder(area, lo, hi) =~= Seq::<Vma>::empty());
        assert(carve(mid.areas, lo, hi) =~= pre.areas);
        assert forall|vpn: usize| lo <= vpn < hi implies !pre.pages.contains_key(vpn) by {
            if in_areas(pre.areas, vpn as int) {
                let i = choose|i: int| 0 <= i < pre.areas.len() && (#[trigger] pre.areas[i]).covers(vpn as int);
                assert(pre.areas[i].meets(lo, hi));
            }
        }
        assert(post.pages =~= pre.pages);
        if len > 0 {
            assert(!in_areas(pre.areas, lo)) by {
                if in_areas(pre.areas, lo) {
                    let i = choose|i: int| 0 <= i < pre.areas.len() && (#[trigger] pre.areas[i]).covers(lo);
                    assert(pre.areas[i].meets(lo, hi));
                }
            }
        }
    } else {
        assert(post.pages =~= pre.pages);
    }
}

/// No two mappings overlap. After a granted request to map
/// `[start, start + len)`, every request to map a range that shares a byte
/// with it is refused, whatever permission it asks for and however many
/// frames are free.
pub proof fn lemma_overlapping_mmap_refused(
    pre: SpaceView,
    mid: SpaceView,
    pre_mem: &PhysMemory,
    mid_mem: &PhysMemory,
    start: int,
    len: int,
    perm: MapPermission,
    other_start: int,
    other_len: int,
    other_perm: MapPermission,
    free_frames: nat,
)
    requires
        0 <= start,
        0 < len,
        0 <= other_start,
        0 < other_len,
        mmap_refusal(pre, pre_mem.free_frames(), start, len, perm) is None,
        mmap_effect(pre, mid, pre_mem, mid_mem, start, len, perm),
        start < other_start + other_len,
        other_start < start + len,
    ensures
        mmap_refusal(mid, free_frames, other_start, other_len, other_perm) is Some,
{
    let lo = page_number(start);
    let hi = page_ceil(start + len);
    let other_lo = page_number(other_start);
    let other_hi = page_ceil(other_start + other_len);
    let area = Vma { start_page: lo as usize, end_page: hi as usize, perm };
    assert(mid.areas == pre.areas.push(area));
    assert(mid.areas[pre.areas.len() as int].meets(other_lo, other_hi));
}

/// Every mapped page has one owner: it belongs to the heap or to an area,
/// never to both, and never to two areas.
pub proof fn lemma_page_has_one_owner(space: SpaceView, mem: &PhysMemory, vpn: usize)
    requires
        space.wf(mem),
        space.pages.contains_key(vpn),
    ensures
        space.in_heap(vpn as int) != in_areas(space.areas, vpn as int),
        forall|i: int, j: int|
            0 <= i < space.areas.len() && 0 <= j < space.areas.len() && (#[trigger] space.areas[i]).covers(
                vpn as int,
            ) && (#[trigger] space.areas[j]).covers(vpn as int) ==> i == j,
{
    if space.in_heap(vpn as int) && in_areas(space.areas, vpn as int) {
        let i = choose|i: int| 0 <= i < space.areas.len() && (#[trigger] space.areas[i]).covers(vpn as int);
        assert(space.areas[i].meets(space.heap_lo(), space.heap_hi()));
    }
    assert forall|i: int, j: int|
        0 <= i < space.areas.len() && 0 <= j < space.areas.len() && (#[trigger] space.areas[i]).covers(
            vpn as int,
        ) && (#[trigger] space.areas[j]).covers(vpn as int) implies i == j by {
        if i < j {
            assert(space.areas[i].meets(space.areas[j].start_page as int, space.areas[j].end_page as int));
        } else if j < i {
            assert(space.areas[j].meets(space.areas[i].start_page as int, space.areas[i].end_page as int));
        }
    }
}

} // verus!
