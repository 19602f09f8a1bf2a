//! The address translator: from a range of user addresses to page-bounded
//! segments of physical memory, and the copies that go through them.

use vstd::prelude::*;
use crate::address::{page_number, page_offset, UserAddr};
use crate::config::PAGE_SIZE;
use crate::fault::Fault;
use crate::memory::PhysMemory;
use crate::page_table::{Access, AddressSpaceToken, PageTable, PageTableEntry};

verus! {

/// A run of bytes of physical memory that lies inside one frame:
/// `len` bytes from physical address `base` on.
#[derive(Clone, Copy, Debug, PartialEq, Eq, Structural)]
pub struct BufferSegment {
    pub base: usize,
    pub len: usize,
}

/// The mapped pages of an address space, by page number.
pub type Pages = Map<usize, PageTableEntry>;

/// Whether the byte at user address `va` lies in a mapped page that allows
/// `access`.
pub open spec fn byte_accessible(pages: Pages, va: int, access: Access) -> bool {
    &&& 0 <= va <= usize::MAX
    &&& pages.contains_key(page_number(va) as usize)
    &&& pages[page_number(va) as usize].perm.allows(access)
}

/// Whether the byte at user address `va` lies in a mapped page.
pub open spec fn byte_mapped(pages: Pages, va: int) -> bool {
    0 <= va <= usize::MAX && pages.contains_key(page_number(va) as usize)
}

/// Whether all of `[ptr, ptr + len)` lies in mapped pages that allow
/// `access`. The range must end below the last address of the address
/// space, so that the address behind it can still be named.
pub open spec fn span_accessible(pages: Pages, ptr: int, len: int, access: Access) -> bool {
    &&& ptr + len <= usize::MAX
    &&& forall|va: int| ptr <= va < ptr + len ==> #[trigger] byte_accessible(pages, va, access)
}

/// The physical address behind user address `va`.
pub open spec fn phys_addr(pages: Pages, va: int) -> int {
    pages[page_number(va) as usize].frame * PAGE_SIZE + page_offset(va)
}

/// Every mapped page lies in a frame that exists.
pub open spec fn frames_within(pages: Pages, frame_count: nat) -> bool {
    forall|vpn: usize| pages.contains_key(vpn) ==> (#[trigger] pages[vpn]).frame < frame_count
}

/// No two mapped pages share a frame.
pub open spec fn frames_distinct(pages: Pages) -> bool {
    forall|v1: usize, v2: usize|
        pages.contains_key(v1) && pages.contains_key(v2) && v1 != v2 ==> (#[trigger] pages[v1]).frame
            != (#[trigger] pages[v2]).frame
}

/// Length of the first segment of `[ptr, ptr + len)`: up to the end of the
/// range or of the page, whichever comes first.
pub open spec fn chunk_len(ptr: int, len: int) -> int {
    if len <= PAGE_SIZE - page_offset(ptr) {
        len
    } else {
        PAGE_SIZE - page_offset(ptr)
    }
}

/// The segment behind the `n` bytes from user address `va` on, which lie
/// in one page.
pub open spec fn segment_at(pages: Pages, va: int, n: int) -> BufferSegment {
    BufferSegment { base: phys_addr(pages, va) as usize, len: n as usize }
}

/// The segments of `[ptr, ptr + len)`, in address order: one for each page
/// that the range touches.
pub open spec fn segments_of(pages: Pages, ptr: int, len: int) -> Seq<BufferSegment>
    decreases len,
{
    if len <= 0 {
        Seq::empty()
    } else {
        let n = chunk_len(ptr, len);
        seq![segment_at(pages, ptr, n)] + segments_of(pages, ptr + n, len - n)
    }
}

/// Number of pages that `[ptr, ptr + len)` touches.
pub open spec fn pages_spanned(ptr: int, len: int) -> int {
    if len <= 0 {
        0
    } else {
        page_number(ptr + len - 1) - page_number(ptr) + 1
    }
}

/// The `len` bytes that a user task sees from address `ptr` on.
pub open spec fn user_bytes(pages: Pages, mem: Seq<u8>, ptr: int, len: int) -> Seq<u8> {
    Seq::new(len as nat, |i: int| mem[phys_addr(pages, ptr + i)])
}

/// Every segment lies inside a memory of `size` bytes.
pub open spec fn segments_within(segs: Seq<BufferSegment>, size: int) -> bool {
    forall|k: int| 0 <= k < segs.len() ==> (#[trigger] segs[k]).base + segs[k].len <= size
}

/// Total number of bytes in the segments.
pub open spec fn segments_len(segs: Seq<BufferSegment>) -> int
    decreases segs.len(),
{
    if segs.len() == 0 {
        0
    } else {
        segs[0].len + segments_len(segs.drop_first())
    }
}

/// The bytes of the segments, one segment after the other.
pub open spec fn segments_bytes(mem: Seq<u8>, segs: Seq<BufferSegment>) -> Seq<u8>
    decreases segs.len(),
{
    if segs.len() == 0 {
        Seq::empty()
    } else {
        mem.subrange(segs[0].base as int, segs[0].base + segs[0].len) + segments_bytes(
            mem,
            segs.drop_first(),
        )
    }
}

/// Memory `mem` with `chunk` stored from physical address `base` on.
pub open spec fn store_at(mem: Seq<u8>, base: int, chunk: Seq<u8>) -> Seq<u8> {
    Seq::new(
        mem.len(),
        |i: int|
            if base <= i < base + chunk.len() {
                chunk[i - base]
            } else {
                mem[i]
            },
    )
}

/// Memory `mem` after `data` is stored into the segments in order. Data
/// that is shorter than the segments leaves their tail untouched; data
/// beyond the segments is not stored.
pub open spec fn store_segments(mem: Seq<u8>, segs: Seq<BufferSegment>, data: Seq<u8>) -> Seq<u8>
    decreases segs.len(),
{
    if segs.len() == 0 || data.len() == 0 {
        mem
    } else {
        let n = if data.len() <= segs[0].len {
            data.len() as int
        } else {
            segs[0].len as int
        };
        store_segments(store_at(mem, segs[0].base as int, data.take(n)), segs.drop_first(), data.skip(n))
    }
}

/// Turns the user range `[ptr, ptr + len)` of the address space `token`
/// into its segments, after checking that every page of it is mapped and
/// allows `access`.
///
/// The page table is walked anew on every call; nothing is cached, since
/// mappings may change between two syscalls.
pub fn translate(
    table: &PageTable,
    mem: &PhysMemory,
    token: AddressSpaceToken,
    ptr: UserAddr,
    len: usize,
    access: Access,
) -> (out: Result<Vec<BufferSegment>, Fault>)
    requires
        mem.wf(),
        frames_within(table@, mem.frame_count()),
    ensures
        out is Ok <==> token == table.spec_token() && span_accessible(
            table@,
            ptr.value(),
            len as int,
            access,
        ),
        out matches Ok(segs) ==> segs@ == segments_of(table@, ptr.value(), len as int),
        out matches Err(fault) ==> fault == Fault::AddressFault,
{
    if token != table.token() {
        return Err(Fault::AddressFault);
    }
    let mut segs: Vec<BufferSegment> = Vec::new();
    if len == 0 {
        return Ok(segs);
    }
    if ptr.0 > usize::MAX - len {
        return Err(Fault::AddressFault);
    }
    let mut cur: usize = ptr.0;
    let mut left: usize = len;
    while left > 0
        invariant
            mem.wf(),
            frames_within(table@, mem.frame_count()),
            ptr.0 + len <= usize::MAX,
            cur + left == ptr.0 + len,
            ptr.0 <= cur,
            segments_of(table@, ptr.value(), len as int) == segs@ + segments_of(
                table@,
                cur as int,
                left as int,
            ),
            forall|va: int| ptr.0 <= va < cur ==> #[trigger] byte_accessible(table@, va, access),
        decreases left,
    {
        let vpn: usize = UserAddr(cur).page();
        let off: usize = UserAddr(cur).offset();
        let entry = match table.lookup(vpn) {
            Some(e) => e,
            None => {
                assert(!byte_accessible(table@, cur as int, access));
                return Err(Fault::AddressFault);
            },
        };
        if !entry.perm.permits(access) {
            assert(!byte_accessible(table@, cur as int, access));
            return Err(Fault::AddressFault);
        }
        let room: usize = PAGE_SIZE - off;
        let n: usize = if left <= room {
            left
        } else {
            room
        };
        proof {
            mem.lemma_size();
            assert(n == chunk_len(cur as int, left as int));
            assert(entry.frame < mem.frame_count());
            assert(entry.frame * PAGE_SIZE + PAGE_SIZE <= mem@.len()) by (nonlinear_arith)
                requires
                    entry.frame < mem.frame_count(),
                    mem@.len() == mem.frame_count() * PAGE_SIZE,
            ;
        }
        let seg = BufferSegment { base: entry.frame * PAGE_SIZE + off, len: n };
        proof {
            assert(seg == segment_at(table@, cur as int, n as int));
            assert(segs@.push(seg) + segments_of(table@, cur + n, left - n) =~= segs@ + (seq![seg]
                + segments_of(table@, cur + n, left - n)));
            assert forall|va: int| ptr.0 <= va < cur + n implies #[trigger] byte_accessible(
                table@,
                va,
                access,
            ) by {
                if va >= cur {
                    assert(page_number(va) == vpn);
                }
            }
        }
        segs.push(seg);
        cur = cur + n;
        left = left - n;
    }
    proof {
        assert(segments_of(table@, cur as int, 0) =~= Seq::<BufferSegment>::empty());
        assert(segs@ + Seq::<BufferSegment>::empty() =~= segs@);
    }
    Ok(segs)
}

/// The segments of an accessible range are its split at the page
/// boundaries: there is one segment for each page that the range touches
/// and none more, no segment is empty or leaves its frame, together they
/// are as long as the range, and their bytes, one segment after the other,
/// are the bytes that the user task sees in the range.
pub proof fn lemma_segments_split_at_page_boundaries(
    pages: Pages,
    mem: Seq<u8>,
    frame_count: nat,
    ptr: int,
    len: int,
    access: Access,
)
    requires
        0 <= ptr,
        0 <= len,
        span_accessible(pages, ptr, len, access),
        frames_within(pages, frame_count),
        mem.len() == frame_count * PAGE_SIZE,
        mem.len() <= usize::MAX,
    ensures
        segments_of(pages, ptr, len).len() == pages_spanned(ptr, len),
        forall|k: int|
            0 <= k < segments_of(pages, ptr, len).len() ==> {
                let seg = #[trigger] segments_of(pages, ptr, len)[k];
                &&& 1 <= seg.len
                &&& page_offset(seg.base as int) + seg.len <= PAGE_SIZE
                &&& seg.base + seg.len <= mem.len()
            },
        segments_within(segments_of(pages, ptr, len), mem.len() as int),
        segments_len(segments_of(pages, ptr, len)) == len,
        segments_bytes(mem, segments_of(pages, ptr, len)) == user_bytes(pages, mem, ptr, len),
    decreases len,
{
    let segs = segments_of(pages, ptr, len);
    if len <= 0 {
        assert(user_bytes(pages, mem, ptr, len) =~= Seq::<u8>::empty());
    } else {
        let n = chunk_len(ptr, len);
        let first = segment_at(pages, ptr, n);
        let rest = segments_of(pages, ptr + n, len - n);
        assert(span_accessible(pages, ptr + n, len - n, access)) by {
            assert forall|va: int| ptr + n <= va < ptr + len implies #[trigger] byte_accessible(
                pages,
                va,
                access,
            ) by {}
        }
        lemma_segments_split_at_page_boundaries(pages, mem, frame_count, ptr + n, len - n, access);
        assert(byte_accessible(pages, ptr, access));
        let frame = pages[page_number(ptr) as usize].frame;
        assert(frame < frame_count);
        assert(frame * PAGE_SIZE + PAGE_SIZE <= mem.len()) by (nonlinear_arith)
            requires
                frame < frame_count,
                mem.len() == frame_count * PAGE_SIZE,
        ;
        assert(first.base == phys_addr(pages, ptr));
        assert(first.len == n);
        assert(segs.drop_first() =~= rest);
        assert(segs[0] == first);
        assert forall|i: int| 0 <= i < n implies #[trigger] user_bytes(pages, mem, ptr, len)[i]
            == mem[first.base + i] by {
            assert(page_number(ptr + i) == page_number(ptr));
        }
        assert(user_bytes(pages, mem, ptr, len) =~= mem.subrange(
            first.base as int,
            first.base + first.len,
        ) + user_bytes(pages, mem, ptr + n, len - n));
        assert(page_offset(first.base as int) == page_offset(ptr));
        assert forall|k: int| 0 <= k < segs.len() implies {
            let seg = #[trigger] segs[k];
            &&& 1 <= seg.len
            &&& page_offset(seg.base as int) + seg.len <= PAGE_SIZE
            &&& seg.base + seg.len <= mem.len()
        } by {
            if k > 0 {
                assert(segs[k] == rest[k - 1]);
            }
        }
    }
}

/// The pieces of a split lie one page further on at most with each piece:
/// piece `k` starts no later than `k` pages behind the first.
proof fn lemma_piece_start_bound(bounds: Seq<int>, k: int)
    requires
        0 <= k < bounds.len(),
        forall|i: int|
            0 <= i < bounds.len() - 1 ==> (#[trigger] bounds[i]) < bounds[i + 1] && page_number(bounds[i])
                == page_number(bounds[i + 1] - 1),
    ensures
        page_number(bounds[k]) <= page_number(bounds[0]) + k,
    decreases k,
{
    if k > 0 {
        lemma_piece_start_bound(bounds, k - 1);
        assert(bounds[k - 1] < bounds[k - 1 + 1]);
    }
}

/// No split is shorter. However a range that is not empty is cut into
/// pieces that follow one another and lie in one page each, there are at
/// least as many pieces as the range touches pages: as many as its segments.
/// The pieces are given by their bounds, piece `k` reaching from
/// `bounds[k]` up to `bounds[k + 1]`.
pub proof fn lemma_no_split_is_shorter(pages: Pages, bounds: Seq<int>, ptr: int, len: int)
    requires
        0 <= ptr,
        0 < len,
        bounds.len() >= 2,
        bounds[0] == ptr,
        bounds[bounds.len() - 1] == ptr + len,
        forall|i: int|
            0 <= i < bounds.len() - 1 ==> (#[trigger] bounds[i]) < bounds[i + 1] && page_number(bounds[i])
                == page_number(bounds[i + 1] - 1),
    ensures
        bounds.len() - 1 >= pages_spanned(ptr, len),
        bounds.len() - 1 >= segments_of(pages, ptr, len).len(),
{
    let last = bounds.len() - 2;
    lemma_piece_start_bound(bounds, last);
    assert(bounds[last] < bounds[last + 1]);
    lemma_segments_count(pages, ptr, len);
}

/// A range has as many segments as it touches pages.
pub proof fn lemma_segments_count(pages: Pages, ptr: int, len: int)
    requires
        0 <= ptr,
    ensures
        segments_of(pages, ptr, len).len() == pages_spanned(ptr, len),
    decreases len,
{
    if len > 0 {
        let n = chunk_len(ptr, len);
        lemma_segments_count(pages, ptr + n, len - n);
    }
}

/// Storing through the segments of an accessible range is storing into the
/// range as the user task sees it: the first `data.len()` bytes of the
/// range become `data`, and every other mapped byte keeps its value. Bytes
/// of physical memory behind no address of the range keep their value too.
pub proof fn lemma_store_reaches_user_range(
    pages: Pages,
    mem: Seq<u8>,
    frame_count: nat,
    ptr: int,
    len: int,
    access: Access,
    data: Seq<u8>,
)
    requires
        0 <= ptr,
        0 <= len,
        data.len() <= len,
        span_accessible(pages, ptr, len, access),
        frames_within(pages, frame_count),
        frames_distinct(pages),
        mem.len() == frame_count * PAGE_SIZE,
        mem.len() <= usize::MAX,
    ensures
        store_segments(mem, segments_of(pages, ptr, len), data).len() == mem.len(),
        forall|va: int| #[trigger]
            byte_mapped(pages, va) ==> store_segments(mem, segments_of(pages, ptr, len), data)[phys_addr(
                pages,
                va,
            )] == if ptr <= va < ptr + data.len() {
                data[va - ptr]
            } else {
                mem[phys_addr(pages, va)]
            },
        forall|pa: int|
            0 <= pa < mem.len() && (forall|va: int|
                ptr <= va < ptr + data.len() ==> #[trigger] phys_addr(pages, va) != pa)
                ==> #[trigger] store_segments(mem, segments_of(pages, ptr, len), data)[pa] == mem[pa],
    decreases len,
{
    let segs = segments_of(pages, ptr, len);
    let out = store_segments(mem, segs, data);
    if len <= 0 || data.len() == 0 {
    } else {
        let c = chunk_len(ptr, len);
        let first = segment_at(pages, ptr, c);
        let rest = segments_of(pages, ptr + c, len - c);
        let n: int = if data.len() <= c {
            data.len() as int
        } else {
            c
        };
        assert(byte_accessible(pages, ptr, access));
        let vpn = page_number(ptr) as usize;
        let frame = pages[vpn].frame;
        assert(frame < frame_count);
        assert(frame * PAGE_SIZE + PAGE_SIZE <= mem.len()) by (nonlinear_arith)
            requires
                frame < frame_count,
                mem.len() == frame_count * PAGE_SIZE,
        ;
        let base = phys_addr(pages, ptr);
        assert(first.base == base);
        assert(first.len == c);
        assert(segs[0] == first);
        assert(segs.drop_first() =~= rest);
        let mid = store_at(mem, base, data.take(n));
        let tail = data.skip(n);
        assert(out == store_segments(mid, rest, tail));
        assert(span_accessible(pages, ptr + c, len - c, access)) by {
            assert forall|va: int| ptr + c <= va < ptr + len implies #[trigger] byte_accessible(
                pages,
                va,
                access,
            ) by {}
        }
        lemma_store_reaches_user_range(pages, mid, frame_count, ptr + c, len - c, access, tail);
        assert forall|va: int| #[trigger] byte_mapped(pages, va) implies out[phys_addr(pages, va)] == if ptr
            <= va < ptr + data.len() {
            data[va - ptr]
        } else {
            mem[phys_addr(pages, va)]
        } by {
            let pa = phys_addr(pages, va);
            let v2 = page_number(va) as usize;
            assert(pages[v2].frame < frame_count);
            assert(pages[v2].frame * PAGE_SIZE + PAGE_SIZE <= mem.len()) by (nonlinear_arith)
                requires
                    pages[v2].frame < frame_count,
                    mem.len() == frame_count * PAGE_SIZE,
            ;
            if ptr <= va < ptr + n {
                assert(page_number(va) == page_number(ptr));
                assert(pa == base + (va - ptr));
                assert(mid[pa] == data.take(n)[va - ptr]);
            } else {
                if base <= pa < base + n {
                    assert(pages[v2].frame == frame);
                    assert(v2 == vpn);
                    assert(false);
                }
                assert(mid[pa] == mem[pa]);
            }
            if ptr + c <= va < ptr + c + tail.len() {
                assert(n == c);
                assert(tail[va - ptr - c] == data[va - ptr]);
            }
        }
        assert forall|pa: int|
            0 <= pa < mem.len() && (forall|va: int|
                ptr <= va < ptr + data.len() ==> #[trigger] phys_addr(pages, va) != pa) implies #[trigger] out[pa]
            == mem[pa] by {
            if base <= pa < base + n {
                let va = ptr + (pa - base);
                assert(page_number(va) == page_number(ptr));
                assert(phys_addr(pages, va) == pa);
                assert(false);
            }
            assert(mid[pa] == mem[pa]);
            assert forall|va: int| ptr + c <= va < ptr + c + tail.len() implies #[trigger] phys_addr(
                pages,
                va,
            ) != pa by {
                assert(n == c);
            }
        }
    }
}

/// The segments hold no negative number of bytes.
pub proof fn lemma_segments_len_nonnegative(segs: Seq<BufferSegment>)
    ensures
        segments_len(segs) >= 0,
    decreases segs.len(),
{
    if segs.len() > 0 {
        lemma_segments_len_nonnegative(segs.drop_first());
    }
}

/// Copies the bytes of the segments out of physical memory, one segment
/// after the other.
pub fn read_segments(mem: &PhysMemory, segs: &Vec<BufferSegment>) -> (out: Vec<u8>)
    requires
        segments_within(segs@, mem@.len() as int),
    ensures
        out@ == segments_bytes(mem@, segs@),
{
    let mut out: Vec<u8> = Vec::new();
    let mut k: usize = 0;
    proof {
        assert(segs@.skip(0) =~= segs@);
        assert(out@ + segments_bytes(mem@, segs@) =~= segments_bytes(mem@, segs@));
    }
    while k < segs.len()
        invariant
            k <= segs.len(),
            segments_within(segs@, mem@.len() as int),
            segments_bytes(mem@, segs@) == out@ + segments_bytes(mem@, segs@.skip(k as int)),
        decreases segs.len() - k,
    {
        let seg = segs[k];
        let ghost before = out@;
        let size: usize = mem.len();
        let mut j: usize = 0;
        while j < seg.len
            invariant
                j <= seg.len,
                seg.base + seg.len <= size,
                size == mem@.len(),
                out@ == before + mem@.subrange(seg.base as int, seg.base + j),
            decreases seg.len - j,
        {
            out.push(mem.read(seg.base + j));
            proof {
                assert(mem@.subrange(seg.base as int, seg.base + j).push(mem@[seg.base + j])
                    =~= mem@.subrange(seg.base as int, seg.base + j + 1));
            }
            j = j + 1;
        }
        proof {
            let here = segs@.skip(k as int);
            assert(here[0] == seg);
            assert(here.drop_first() =~= segs@.skip(k + 1));
            assert(before + (mem@.subrange(seg.base as int, seg.base + seg.len) + segments_bytes(
                mem@,
                segs@.skip(k + 1),
            )) =~= out@ + segments_bytes(mem@, segs@.skip(k + 1)));
        }
        k = k + 1;
    }
    proof {
        assert(segs@.skip(k as int) =~= Seq::<BufferSegment>::empty());
        assert(out@ + Seq::<u8>::empty() =~= out@);
    }
    out
}

/// Stores `data` into the segments in order and returns how many bytes were
/// stored: all of `data`, or as many as the segments hold.
pub fn write_segments(mem: &mut PhysMemory, segs: &Vec<BufferSegment>, data: &[u8]) -> (stored: usize)
    requires
        segments_within(segs@, old(mem)@.len() as int),
    ensures
        final(mem)@ == store_segments(old(mem)@, segs@, data@),
        final(mem)@.len() == old(mem)@.len(),
        stored == if data@.len() <= segments_len(segs@) {
            data@.len() as int
        } else {
            segments_len(segs@)
        },
        final(mem).wf() == old(mem).wf(),
        final(mem).frame_count() == old(mem).frame_count(),
        final(mem).free_frames() == old(mem).free_frames(),
        forall|q: int| final(mem).is_allocated(q) == old(mem).is_allocated(q),
{
    let mut done: usize = 0;
    let mut k: usize = 0;
    let size: usize = mem.len();
    let total: usize = data.len();
    proof {
        assert(segs@.skip(0) =~= segs@);
        assert(data@.skip(0) =~= data@);
    }
    while k < segs.len() && done < total
        invariant
            k <= segs.len(),
            done <= total,
            total == data@.len(),
            size == mem@.len(),
            mem@.len() == old(mem)@.len(),
            segments_within(segs@, mem@.len() as int),
            store_segments(old(mem)@, segs@, data@) == store_segments(
                mem@,
                segs@.skip(k as int),
                data@.skip(done as int),
            ),
            done + (if data@.len() - done <= segments_len(segs@.skip(k as int)) {
                data@.len() - done
            } else {
                segments_len(segs@.skip(k as int))
            }) == (if data@.len() <= segments_len(segs@) {
                data@.len() as int
            } else {
                segments_len(segs@)
            }),
            mem.wf() == old(mem).wf(),
            mem.frame_count() == old(mem).frame_count(),
            mem.free_frames() == old(mem).free_frames(),
            forall|q: int| mem.is_allocated(q) == old(mem).is_allocated(q),
        decreases segs.len() - k,
    {
        let seg = segs[k];
        let left: usize = total - done;
        let n: usize = if left <= seg.len {
            left
        } else {
            seg.len
        };
        let ghost start = mem@;
        let ghost pending = data@.skip(done as int);
        let mut j: usize = 0;
        while j < n
            invariant
                j <= n,
                n <= seg.len,
                done + n <= total,
                total == data@.len(),
                seg.base + seg.len <= size,
                size == mem@.len(),
                mem@.len() == start.len(),
                mem@ == store_at(start, seg.base as int, data@.subrange(done as int, done + j)),
                mem.wf() == old(mem).wf(),
                mem.frame_count() == old(mem).frame_count(),
                mem.free_frames() == old(mem).free_frames(),
                forall|q: int| mem.is_allocated(q) == old(mem).is_allocated(q),
            decreases n - j,
        {
            mem.write(seg.base + j, data[done + j]);
            proof {
                assert(mem@ =~= store_at(
                    start,
                    seg.base as int,
                    data@.subrange(done as int, done + j + 1),
                ));
            }
            j = j + 1;
        }
        proof {
            let here = segs@.skip(k as int);
            assert(here[0] == seg);
            assert(here.drop_first() =~= segs@.skip(k + 1));
            assert(pending.take(n as int) =~= data@.subrange(done as int, done + n));
            assert(pending.skip(n as int) =~= data@.skip(done + n));
            assert(segments_len(here) == seg.len + segments_len(segs@.skip(k + 1)));
            lemma_segments_len_nonnegative(segs@.skip(k + 1));
        }
        done = done + n;
        k = k + 1;
    }
    proof {
        lemma_segments_len_nonnegative(segs@.skip(k as int));
        if k == segs.len() {
            assert(segs@.skip(k as int) =~= Seq::<BufferSegment>::empty());
            assert(segments_len(segs@.skip(k as int)) == 0);
        } else {
            assert(data@.skip(done as int).len() == 0);
        }
    }
    done
}

/// Whether `s` is the string at user address `ptr`: its bytes, none of
/// them zero, lie from `ptr` on and are followed by a zero byte, and the
/// task may read all of them and the zero byte.
pub open spec fn is_user_string(pages: Pages, mem: Seq<u8>, ptr: int, s: Seq<u8>) -> bool {
    &&& forall|va: int| ptr <= va <= ptr + s.len() ==> #[trigger] byte_accessible(pages, va, Access::Read)
    &&& forall|i: int| 0 <= i < s.len() ==> #[trigger] s[i] == mem[phys_addr(pages, ptr + i)] && s[i] != 0
    &&& mem[phys_addr(pages, ptr + s.len())] == 0
}

/// The string at user address `ptr`, if there is one: there is none where
/// the bytes from `ptr` on run into a page that the task may not read
/// before a zero byte ends them.
pub open spec fn user_string(pages: Pages, mem: Seq<u8>, ptr: int) -> Option<Seq<u8>> {
    if exists|s: Seq<u8>| is_user_string(pages, mem, ptr, s) {
        Some(choose|s: Seq<u8>| is_user_string(pages, mem, ptr, s))
    } else {
        None
    }
}

/// There is at most one string at a user address.
pub proof fn lemma_user_string_unique(pages: Pages, mem: Seq<u8>, ptr: int, a: Seq<u8>, b: Seq<u8>)
    requires
        is_user_string(pages, mem, ptr, a),
        is_user_string(pages, mem, ptr, b),
    ensures
        a == b,
{
    if a.len() < b.len() {
        assert(b[a.len() as int] != 0);
    } else if b.len() < a.len() {
        assert(a[b.len() as int] != 0);
    } else {
        assert forall|i: int| 0 <= i < a.len() implies a[i] == b[i] by {
            assert(a[i] == mem[phys_addr(pages, ptr + i)]);
            assert(b[i] == mem[phys_addr(pages, ptr + i)]);
        }
        assert(a =~= b);
    }
}

/// Reads the zero-terminated string at user address `ptr` of the address
/// space `token`, without the zero byte.
pub fn read_user_string(table: &PageTable, mem: &PhysMemory, token: AddressSpaceToken, ptr: UserAddr) -> (out:
    Result<Vec<u8>, Fault>)
    requires
        mem.wf(),
        frames_within(table@, mem.frame_count()),
    ensures
        out is Ok <==> token == table.spec_token() && user_string(table@, mem@, ptr.value()) is Some,
        out matches Ok(s) ==> user_string(table@, mem@, ptr.value()) == Some(s@),
        out matches Err(fault) ==> fault == Fault::AddressFault,
{
    if token != table.token() {
        return Err(Fault::AddressFault);
    }
    let mut text: Vec<u8> = Vec::new();
    let mut cur: usize = ptr.0;
    loop
        invariant
            mem.wf(),
            frames_within(table@, mem.frame_count()),
            token == table.spec_token(),
            cur == ptr.0 + text@.len(),
            forall|va: int| ptr.0 <= va < cur ==> #[trigger] byte_accessible(table@, va, Access::Read),
            forall|i: int|
                0 <= i < text@.len() ==> #[trigger] text@[i] == mem@[phys_addr(table@, ptr.0 + i)]
                    && text@[i] != 0,
        decreases usize::MAX - cur,
    {
        let entry = match table.lookup(UserAddr(cur).page()) {
            Some(e) => e,
            None => {
                proof {
                    lemma_no_user_string(table@, mem@, ptr.value(), text@);
                }
                return Err(Fault::AddressFault);
            },
        };
        if !entry.perm.permits(Access::Read) {
            proof {
                lemma_no_user_string(table@, mem@, ptr.value(), text@);
            }
            return Err(Fault::AddressFault);
        }
        proof {
            mem.lemma_size();
            assert(entry.frame < mem.frame_count());
            assert(entry.frame * PAGE_SIZE + PAGE_SIZE <= mem@.len()) by (nonlinear_arith)
                requires
                    entry.frame < mem.frame_count(),
                    mem@.len() == mem.frame_count() * PAGE_SIZE,
            ;
            assert(byte_accessible(table@, cur as int, Access::Read));
        }
        let b: u8 = mem.read(entry.frame * PAGE_SIZE + UserAddr(cur).offset());
        if b == 0 {
            proof {
                assert(is_user_string(table@, mem@, ptr.value(), text@));
                let chosen = choose|s: Seq<u8>| is_user_string(table@, mem@, ptr.value(), s);
                lemma_user_string_unique(table@, mem@, ptr.value(), chosen, text@);
            }
            return Ok(text);
        }
        text.push(b);
        if cur == usize::MAX {
            proof {
                lemma_no_user_string(table@, mem@, ptr.value(), text@);
            }
            return Err(Fault::AddressFault);
        }
        cur = cur + 1;
    }
}

/// Where the bytes `seen` lie from `ptr` on, none of them zero, and the
/// task may not read the byte behind them, there is no string at `ptr`.
pub proof fn lemma_no_user_string(pages: Pages, mem: Seq<u8>, ptr: int, seen: Seq<u8>)
    requires
        forall|i: int| 0 <= i < seen.len() ==> #[trigger] seen[i] == mem[phys_addr(pages, ptr + i)] && seen[i] != 0,
        !byte_accessible(pages, ptr + seen.len(), Access::Read),
    ensures
        user_string(pages, mem, ptr) is None,
{
    assert forall|s: Seq<u8>| !is_user_string(pages, mem, ptr, s) by {
        if is_user_string(pages, mem, ptr, s) {
            if s.len() >= seen.len() {
                assert(byte_accessible(pages, ptr + seen.len(), Access::Read));
            } else {
                assert(seen[s.len() as int] != 0);
            }
        }
    }
}

} // verus!
