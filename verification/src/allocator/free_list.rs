//! The kernel heap's free list: free chunks kept in address order,
//! allocation by first fit with the chunk split when enough is left over,
//! and release by insertion in address order with the neighbours merged.

use vstd::prelude::*;

use super::{HeapError, HeapRegion};

verus! {

/// Bytes of bookkeeping a free chunk needs: the least that is handed out
/// and the least remainder worth keeping as a chunk of its own.
pub const CHUNK_HEADER_SIZE: usize = 16;

/// The least alignment handed out.
pub const CHUNK_ALIGN: usize = 8;

/// A free chunk: `size` bytes from `start`.
#[derive(Clone, Copy, Debug, PartialEq, Eq, Structural)]
pub struct FreeChunk {
    pub start: usize,
    pub size: usize,
}

/// The bytes an allocation of `size` takes: at least a header, rounded up
/// to the header alignment so that whatever follows it stays aligned.
pub open spec fn request_size(size: usize) -> int {
    if size < CHUNK_HEADER_SIZE { CHUNK_HEADER_SIZE as int } else { (size + (CHUNK_ALIGN - 1)) / CHUNK_ALIGN as int * CHUNK_ALIGN }
}

/// Whether `align` is a power of two, as every layout's alignment is.
pub open spec fn power_of_two(align: usize) -> bool {
    align > 0 && align & ((align - 1) as usize) == 0
}

/// Where chunk `c` ends.
pub open spec fn chunk_end(c: FreeChunk) -> int {
    c.start + c.size
}

/// A well-formed free list: every chunk starts header-aligned, holds at
/// least a header and ends inside the address space, and the chunks come in
/// address order, apart from one another (adjacent ones are merged).
pub open spec fn chunks_well_formed(chunks: Seq<FreeChunk>) -> bool {
    &&& forall|i: int|
        0 <= i < chunks.len() ==> #[trigger] chunks[i].start % CHUNK_ALIGN == 0 && chunks[i].size >= CHUNK_HEADER_SIZE
            && chunk_end(chunks[i]) <= usize::MAX
    &&& forall|i: int, j: int| 0 <= i < j < chunks.len() ==> chunk_end(#[trigger] chunks[i]) < #[trigger] chunks[j].start
}

/// Whether the `size` bytes at `address` overlap no free chunk.
pub open spec fn outside_free(chunks: Seq<FreeChunk>, address: int, size: int) -> bool {
    forall|i: int| 0 <= i < chunks.len() ==> chunk_end(#[trigger] chunks[i]) <= address || address + size <= chunks[i].start
}

/// The alignment an allocation aligned to `align` gets.
pub open spec fn request_align(align: usize) -> int {
    if align < CHUNK_ALIGN { CHUNK_ALIGN as int } else { align as int }
}

/// Where an allocation of `size` bytes aligned to `align` goes in `chunk`:
/// its start (the chunk's start rounded up to the alignment) and end, when
/// it fits and no address overflows.
pub open spec fn placement(chunk: FreeChunk, size: usize, align: usize) -> Option<(int, int)> {
    let a = request_align(align);
    let s = request_size(size);
    if chunk.start + (a - 1) > usize::MAX {
        None
    } else {
        let aligned = (chunk.start + (a - 1)) / a * a;
        if aligned + s > usize::MAX || chunk.start + chunk.size > usize::MAX {
            None
        } else if aligned + s <= chunk.start + chunk.size {
            Some((aligned, aligned + s))
        } else {
            None
        }
    }
}

/// The first of the first `k` chunks that can hold the allocation.
pub open spec fn first_fit(chunks: Seq<FreeChunk>, size: usize, align: usize, k: int) -> Option<int>
    decreases k,
{
    if k <= 0 {
        None
    } else {
        match first_fit(chunks, size, align, k - 1) {
            Some(i) => Some(i),
            None => if placement(chunks[k - 1], size, align) is Some {
                Some(k - 1)
            } else {
                None
            },
        }
    }
}

/// The address an allocation gets and the chunks left: the first chunk
/// that fits gives up its bytes up to the allocation's end, and keeps the
/// rest only when at least a header's worth is left.
pub open spec fn allocation(chunks: Seq<FreeChunk>, size: usize, align: usize) -> (Option<int>, Seq<FreeChunk>) {
    match first_fit(chunks, size, align, chunks.len() as int) {
        None => (None, chunks),
        Some(i) => {
            let (aligned, end) = placement(chunks[i], size, align)->0;
            let remainder = chunks[i].start + chunks[i].size - end;
            if remainder >= CHUNK_HEADER_SIZE {
                (Some(aligned), chunks.update(i, FreeChunk { start: end as usize, size: remainder as usize }))
            } else {
                (Some(aligned), chunks.remove(i))
            }
        },
    }
}

/// The position a chunk starting at `address` is inserted at: before the
/// first chunk that does not start below it.
pub open spec fn insertion_point(chunks: Seq<FreeChunk>, address: usize) -> int
    decreases chunks.len(),
{
    if chunks.len() == 0 || chunks[0].start >= address {
        0
    } else {
        1 + insertion_point(chunks.drop_first(), address)
    }
}

/// Whether chunk `a` ends exactly where `b` starts, and their sizes add up
/// without overflow.
pub open spec fn adjacent(a: FreeChunk, b: FreeChunk) -> bool {
    a.start + a.size == b.start && a.size + b.size <= usize::MAX
}

/// `chunks` with the chunk at `k` merged into the one at `k - 1` when they
/// are adjacent.
pub open spec fn merge_back(chunks: Seq<FreeChunk>, k: int) -> Seq<FreeChunk> {
    if 0 < k < chunks.len() && adjacent(chunks[k - 1], chunks[k]) {
        chunks.update(k - 1, FreeChunk { start: chunks[k - 1].start, size: (chunks[k - 1].size + chunks[k].size) as usize }).remove(k)
    } else {
        chunks
    }
}

/// The chunks after releasing `size` bytes at `address`: the chunk is
/// inserted in address order, merged with the chunk after it, then with
/// the one before it.
pub open spec fn released(chunks: Seq<FreeChunk>, address: usize, size: usize) -> Seq<FreeChunk> {
    let k = insertion_point(chunks, address);
    let inserted = chunks.insert(k, FreeChunk { start: address, size: request_size(size) as usize });
    merge_back(merge_back(inserted, k + 1), k)
}

/// Whether every chunk lies inside `[low, high)`.
pub open spec fn chunks_within(chunks: Seq<FreeChunk>, low: int, high: int) -> bool {
    forall|i: int| 0 <= i < chunks.len() ==> low <= (#[trigger] chunks[i]).start && chunk_end(chunks[i]) <= high
}

/// The free chunks of the kernel heap, kept in a table with a slot for
/// every header-sized piece of the heap region, so that it never runs out.
pub struct FreeList<'a> {
    chunks: &'a mut [FreeChunk],
    count: usize,
    region_start: usize,
    region_size: usize,
}

impl<'a> View for FreeList<'a> {
    type V = Seq<FreeChunk>;

    closed spec fn view(&self) -> Seq<FreeChunk> {
        self.chunks@.take(self.count as int)
    }
}

/// Removes the chunk at `index` among the first `count` of `list`.
fn remove_chunk(list: &mut [FreeChunk], count: usize, index: usize)
    requires
        index < count <= old(list)@.len(),
    ensures
        final(list)@.len() == old(list)@.len(),
        final(list)@.take(count - 1) == old(list)@.take(count as int).remove(index as int),
{
    let ghost before = old(list)@.take(count as int);
    let ghost len = old(list)@.len();
    let mut current = index;
    while current + 1 < count
        invariant
            index <= current < count <= len,
            list@.len() == len,
            before.len() == count,
            before == old(list)@.take(count as int),
            forall|j: int| 0 <= j < index ==> #[trigger] list@[j] == before[j],
            forall|j: int| index <= j < current ==> #[trigger] list@[j] == before[j + 1],
            forall|j: int| current <= j < count ==> #[trigger] list@[j] == before[j],
        decreases count - current,
    {
        let next = list[current + 1];
        list[current] = next;
        current += 1;
    }
    assert(list@.take(count - 1) =~= before.remove(index as int));
}

/// Inserts `chunk` at `index` among the first `count` of `list`.
fn insert_chunk(list: &mut [FreeChunk], count: usize, index: usize, chunk: FreeChunk)
    requires
        index <= count < old(list)@.len(),
    ensures
        final(list)@.len() == old(list)@.len(),
        final(list)@.take(count + 1) == old(list)@.take(count as int).insert(index as int, chunk),
{
    let ghost before = old(list)@;
    let mut move_index = count;
    while move_index > index
        invariant
            index <= move_index <= count < before.len(),
            list@.len() == before.len(),
            before == old(list)@,
            forall|j: int| 0 <= j < move_index ==> #[trigger] list@[j] == before[j],
            forall|j: int| move_index < j <= count ==> #[trigger] list@[j] == before[j - 1],
        decreases move_index - index,
    {
        let previous = list[move_index - 1];
        list[move_index] = previous;
        move_index -= 1;
    }
    list[index] = chunk;
    assert(list@.take(count + 1) =~= before.take(count as int).insert(index as int, chunk));
}

/// Chunks that lie apart inside `[low, high)`, each at least a header in
/// size, number at most one per header-sized piece of the range.
proof fn lemma_chunks_fit(v: Seq<FreeChunk>, low: int, high: int)
    requires
        chunks_well_formed(v),
        chunks_within(v, low, high),
    ensures
        v.len() * CHUNK_HEADER_SIZE <= high - low || v.len() == 0,
    decreases v.len(),
{
    if v.len() > 0 {
        let rest = v.drop_first();
        assert forall|i: int| 0 <= i < rest.len() implies #[trigger] rest[i].start % CHUNK_ALIGN == 0 && rest[i].size
            >= CHUNK_HEADER_SIZE && chunk_end(rest[i]) <= usize::MAX by {
            assert(rest[i] == v[i + 1]);
        }
        assert forall|i: int, j: int| 0 <= i < j < rest.len() implies chunk_end(#[trigger] rest[i]) < #[trigger] rest[j].start by {
            assert(rest[i] == v[i + 1] && rest[j] == v[j + 1]);
        }
        assert forall|i: int| 0 <= i < rest.len() implies chunk_end(v[0]) <= (#[trigger] rest[i]).start && chunk_end(rest[i]) <= high by {
            assert(rest[i] == v[i + 1]);
            assert(chunk_end(v[0]) < v[i + 1].start);
        }
        lemma_chunks_fit(rest, chunk_end(v[0]), high);
        assert(v[0].size >= CHUNK_HEADER_SIZE);
        assert(low <= v[0].start && chunk_end(v[0]) <= high);
    }
}

/// The bytes an allocation of `size` takes, as [`request_size`] says; none
/// when that many bytes do not fit in an address.
fn rounded_size(size: usize) -> (result: Option<usize>)
    ensures
        match result {
            Some(s) => s == request_size(size),
            None => request_size(size) > usize::MAX,
        },
{
    if size < CHUNK_HEADER_SIZE {
        return Some(CHUNK_HEADER_SIZE);
    }
    match size.checked_add(CHUNK_ALIGN - 1) {
        Some(v) => {
            proof { vstd::arithmetic::div_mod::lemma_fundamental_div_mod(v as int, CHUNK_ALIGN as int); }
            Some(v - v % CHUNK_ALIGN)
        },
        None => {
            proof {
                let x = size + (CHUNK_ALIGN - 1);
                let top = usize::MAX + 1;
                assert(top % 8 == 0 && top / 8 * 8 == top) by {
                    assert(usize::MAX == 0xffff_ffff || usize::MAX == 0xffff_ffff_ffff_ffff);
                }
                vstd::arithmetic::div_mod::lemma_div_is_ordered(top, x, 8);
                assert(x / 8 * 8 >= top / 8 * 8) by (nonlinear_arith)
                    requires
                        x / 8 >= top / 8,
                ;
            }
            None
        },
    }
}

/// Where an allocation goes in `chunk`, as [`placement`] says.
fn place(chunk: FreeChunk, size: usize, align: usize) -> (result: Option<(usize, usize)>)
    ensures
        match placement(chunk, size, align) {
            Some((aligned, end)) => result == Some((aligned as usize, end as usize)),
            None => result.is_none(),
        },
{
    let size = match rounded_size(size) {
        Some(s) => s,
        None => return None,
    };
    let align = if align < CHUNK_ALIGN { CHUNK_ALIGN } else { align };
    let unmasked = match chunk.start.checked_add(align - 1) {
        Some(v) => v,
        None => return None,
    };
    let aligned = unmasked - unmasked % align;
    assert(aligned == unmasked / align * align) by {
        vstd::arithmetic::div_mod::lemma_fundamental_div_mod(unmasked as int, align as int);
        assert(unmasked / align * align == align * (unmasked / align)) by (nonlinear_arith);
    }
    let end = match aligned.checked_add(size) {
        Some(end) => end,
        None => return None,
    };
    let chunk_end = match chunk.start.checked_add(chunk.size) {
        Some(chunk_end) => chunk_end,
        None => return None,
    };
    if end <= chunk_end {
        Some((aligned, end))
    } else {
        None
    }
}

/// Where an allocation is placed lies inside its chunk, aligned, and takes
/// exactly the allocation's bytes.
proof fn lemma_placement_facts(chunk: FreeChunk, size: usize, align: usize)
    requires
        placement(chunk, size, align) is Some,
    ensures
        ({
            let (aligned, end) = placement(chunk, size, align)->0;
            &&& chunk.start <= aligned
            &&& aligned % request_align(align) == 0
            &&& end == aligned + request_size(size)
            &&& end <= chunk_end(chunk)
        }),
{
    let a = request_align(align);
    let n = chunk.start + (a - 1);
    vstd::arithmetic::div_mod::lemma_fundamental_div_mod(n, a);
    assert(n / a * a == a * (n / a)) by (nonlinear_arith);
    vstd::arithmetic::div_mod::lemma_mod_multiples_basic(n / a, a);
}

/// An allocation's size is a whole number of header alignments, at least a header.
proof fn lemma_request_size_aligned(size: usize)
    ensures
        request_size(size) % (CHUNK_ALIGN as int) == 0,
        request_size(size) >= CHUNK_HEADER_SIZE,
{
    if size >= CHUNK_HEADER_SIZE {
        let x = size + (CHUNK_ALIGN - 1);
        vstd::arithmetic::div_mod::lemma_fundamental_div_mod(x, 8);
        vstd::arithmetic::div_mod::lemma_mod_multiples_basic(x / 8, 8);
    }
}

/// An address aligned to a power-of-two alignment (raised to at least the
/// header alignment) is header-aligned.
proof fn lemma_aligned_to_header(align: usize, aligned: int)
    requires
        power_of_two(align),
        aligned % request_align(align) == 0,
    ensures
        aligned % (CHUNK_ALIGN as int) == 0,
        aligned % (align as int) == 0,
{
    if align < CHUNK_ALIGN {
        assert(align == 1 || align == 2 || align == 4) by (bit_vector)
            requires
                align & ((align - 1) as usize) == 0,
                0 < align < 8,
        ;
        let k = aligned / 8;
        vstd::arithmetic::div_mod::lemma_fundamental_div_mod(aligned, 8);
        if align == 2 {
            vstd::arithmetic::div_mod::lemma_mod_multiples_basic(k * 4, 2);
        } else if align == 4 {
            vstd::arithmetic::div_mod::lemma_mod_multiples_basic(k * 2, 4);
        }
    }
    if align >= CHUNK_ALIGN {
        assert(align % 8 == 0) by (bit_vector)
            requires
                align & ((align - 1) as usize) == 0,
                align >= 8,
        ;
        let q = aligned / (align as int);
        let m = align as int / 8;
        vstd::arithmetic::div_mod::lemma_fundamental_div_mod(aligned, align as int);
        vstd::arithmetic::div_mod::lemma_fundamental_div_mod(align as int, 8);
        assert(aligned == (m * q) * 8) by (nonlinear_arith)
            requires
                aligned == align * q,
                align == 8 * m,
        ;
        vstd::arithmetic::div_mod::lemma_mod_multiples_basic(m * q, 8);
    }
}

/// An allocation keeps the free list well formed, and hands out aligned
/// bytes that no chunk left in the list overlaps.
proof fn lemma_allocation_well_formed(v: Seq<FreeChunk>, size: usize, align: usize)
    requires
        chunks_well_formed(v),
        power_of_two(align),
    ensures
        chunks_well_formed(allocation(v, size, align).1),
        allocation(v, size, align).0 matches Some(a) ==> {
            &&& a % request_align(align) == 0
            &&& a % (align as int) == 0
            &&& a + request_size(size) <= usize::MAX
            &&& outside_free(allocation(v, size, align).1, a, request_size(size))
        },
{
    if let Some(i) = first_fit(v, size, align, v.len() as int) {
        lemma_first_fit_fits(v, size, align, v.len() as int);
        lemma_placement_facts(v[i], size, align);
        lemma_request_size_aligned(size);
        let (aligned, end) = placement(v[i], size, align)->0;
        lemma_aligned_to_header(align, aligned);
        let remainder = chunk_end(v[i]) - end;
        let w = allocation(v, size, align).1;
        let rs = request_size(size);
        if remainder >= CHUNK_HEADER_SIZE {
            let c = FreeChunk { start: end as usize, size: remainder as usize };
            assert(w == v.update(i, c));
            assert(end % 8 == 0);
            assert forall|p: int, q: int| 0 <= p < q < w.len() implies chunk_end(#[trigger] w[p]) < #[trigger] w[q].start by {
                if p == i {
                    assert(chunk_end(v[p]) < v[q].start);
                } else if q == i {
                    assert(chunk_end(v[p]) < v[i].start);
                } else {
                    assert(chunk_end(v[p]) < v[q].start);
                }
            }
            assert forall|j: int| 0 <= j < w.len() implies #[trigger] w[j].start % CHUNK_ALIGN == 0 && w[j].size
                >= CHUNK_HEADER_SIZE && chunk_end(w[j]) <= usize::MAX by {
                if j != i {
                    assert(w[j] == v[j]);
                }
            }
            assert forall|j: int| 0 <= j < w.len() implies chunk_end(#[trigger] w[j]) <= aligned || aligned + rs
                <= w[j].start by {
                if j < i {
                    assert(chunk_end(v[j]) < v[i].start);
                } else if j > i {
                    assert(chunk_end(v[i]) < v[j].start);
                }
            }
        } else {
            assert(w == v.remove(i));
            assert forall|p: int, q: int| 0 <= p < q < w.len() implies chunk_end(#[trigger] w[p]) < #[trigger] w[q].start by {
                let pp = if p < i { p } else { p + 1 };
                let qq = if q < i { q } else { q + 1 };
                assert(w[p] == v[pp]);
                assert(w[q] == v[qq]);
                assert(chunk_end(v[pp]) < v[qq].start);
            }
            assert forall|j: int| 0 <= j < w.len() implies #[trigger] w[j].start % CHUNK_ALIGN == 0 && w[j].size
                >= CHUNK_HEADER_SIZE && chunk_end(w[j]) <= usize::MAX by {
                let jj = if j < i { j } else { j + 1 };
                assert(w[j] == v[jj]);
            }
            assert forall|j: int| 0 <= j < w.len() implies chunk_end(#[trigger] w[j]) <= aligned || aligned + rs
                <= w[j].start by {
                if j < i {
                    assert(w[j] == v[j]);
                    assert(chunk_end(v[j]) < v[i].start);
                } else {
                    assert(w[j] == v[j + 1]);
                    assert(chunk_end(v[i]) < v[j + 1].start);
                }
            }
        }
    }
}

/// Releasing bytes that no free chunk overlaps merges them with the
/// neighbours they border, or inserts them as a chunk of their own; either
/// way the list stays well formed.
#[verifier::spinoff_prover]
#[verifier::rlimit(80)]
proof fn lemma_release_shape(v: Seq<FreeChunk>, address: usize, size: usize, k: int)
    requires
        chunks_well_formed(v),
        address % CHUNK_ALIGN == 0,
        address + request_size(size) <= usize::MAX,
        outside_free(v, address as int, request_size(size)),
        0 <= k <= v.len(),
        forall|j: int| 0 <= j < k ==> #[trigger] v[j].start < address,
        k == v.len() || v[k].start >= address,
    ensures
        insertion_point(v, address) == k,
        chunks_well_formed(released(v, address, size)),
        ({
            let rs = request_size(size);
            let joins_prev = 0 < k && chunk_end(v[k - 1]) == address;
            let joins_next = k < v.len() && address + rs == v[k].start;
            &&& released(v, address, size) == if joins_prev && joins_next {
                v.update(k - 1, FreeChunk { start: v[k - 1].start, size: (v[k - 1].size + rs + v[k].size) as usize }).remove(k)
            } else if joins_prev {
                v.update(k - 1, FreeChunk { start: v[k - 1].start, size: (v[k - 1].size + rs) as usize })
            } else if joins_next {
                v.update(k, FreeChunk { start: address, size: (rs + v[k].size) as usize })
            } else {
                v.insert(k, FreeChunk { start: address, size: rs as usize })
            }
        }),
{
    lemma_insertion_point(v, address, k);
    lemma_request_size_aligned(size);
    let rs = request_size(size);
    let b = FreeChunk { start: address, size: rs as usize };
    let joins_prev = 0 < k && chunk_end(v[k - 1]) == address;
    let joins_next = k < v.len() && address + rs == v[k].start;
    // What lies below the released bytes ends at or before them, what lies
    // above starts at or after their end.
    assert forall|j: int| 0 <= j < k implies chunk_end(#[trigger] v[j]) <= address by {}
    assert forall|j: int| k <= j < v.len() implies address + rs <= #[trigger] v[j].start by {
        if j > k {
            assert(chunk_end(v[k]) < v[j].start);
        }
    }
    assert forall|j: int| 0 <= j < k - 1 implies chunk_end(#[trigger] v[j]) < v[k - 1].start by {}
    assert forall|j: int| k < j < v.len() implies chunk_end(v[k]) < #[trigger] v[j].start by {}
    let inserted = v.insert(k, b);
    let m1 = merge_back(inserted, k + 1);
    if joins_next {
        let n = FreeChunk { start: address, size: (rs + v[k].size) as usize };
        assert(inserted[k + 1] == v[k]);
        assert(m1 =~= v.update(k, n));
        if joins_prev {
            let p = FreeChunk { start: v[k - 1].start, size: (v[k - 1].size + rs + v[k].size) as usize };
            assert(m1[k - 1] == v[k - 1]);
            let w = v.update(k - 1, p).remove(k);
            assert(released(v, address, size) =~= w);
            assert forall|x: int, y: int| 0 <= x < y < w.len() implies chunk_end(#[trigger] w[x]) < #[trigger] w[y].start by {
                let xx = if x < k { x } else { x + 1 };
                let yy = if y < k { y } else { y + 1 };
                if x == k - 1 {
                    assert(chunk_end(v[k]) < v[yy].start);
                } else if y == k - 1 {
                    assert(chunk_end(v[x]) < v[k - 1].start);
                } else {
                    assert(w[x] == v[xx]);
                    assert(w[y] == v[yy]);
                    assert(chunk_end(v[xx]) < v[yy].start);
                }
            }
            assert forall|j: int| 0 <= j < w.len() implies #[trigger] w[j].start % CHUNK_ALIGN == 0 && w[j].size
                >= CHUNK_HEADER_SIZE && chunk_end(w[j]) <= usize::MAX by {
                if j != k - 1 {
                    let jj = if j < k { j } else { j + 1 };
                    assert(w[j] == v[jj]);
                }
            }
        } else {
            assert(k == 0 || m1[k - 1] == v[k - 1]);
            assert(released(v, address, size) =~= m1);
            let w = m1;
            assert forall|x: int, y: int| 0 <= x < y < w.len() implies chunk_end(#[trigger] w[x]) < #[trigger] w[y].start by {
                if x == k {
                    assert(chunk_end(v[k]) < v[y].start);
                } else if y == k {
                    assert(chunk_end(v[x]) <= address);
                    if x == k - 1 {
                    } else {
                        assert(chunk_end(v[x]) < v[k - 1].start);
                    }
                } else {
                    assert(chunk_end(v[x]) < v[y].start);
                }
            }
            assert forall|j: int| 0 <= j < w.len() implies #[trigger] w[j].start % CHUNK_ALIGN == 0 && w[j].size
                >= CHUNK_HEADER_SIZE && chunk_end(w[j]) <= usize::MAX by {
                if j != k {
                    assert(w[j] == v[j]);
                }
            }
        }
    } else {
        assert(m1 == inserted);
        if joins_prev {
            let p = FreeChunk { start: v[k - 1].start, size: (v[k - 1].size + rs) as usize };
            assert(inserted[k - 1] == v[k - 1]);
            assert(inserted[k] == b);
            let w = v.update(k - 1, p);
            assert(released(v, address, size) =~= w);
            assert forall|x: int, y: int| 0 <= x < y < w.len() implies chunk_end(#[trigger] w[x]) < #[trigger] w[y].start by {
                if x == k - 1 {
                    assert(address + rs <= v[y].start);
                    assert(address + rs != v[k].start);
                } else if y == k - 1 {
                    assert(chunk_end(v[x]) < v[k - 1].start);
                } else {
                    assert(chunk_end(v[x]) < v[y].start);
                }
            }
            assert forall|j: int| 0 <= j < w.len() implies #[trigger] w[j].start % CHUNK_ALIGN == 0 && w[j].size
                >= CHUNK_HEADER_SIZE && chunk_end(w[j]) <= usize::MAX by {
                if j != k - 1 {
                    assert(w[j] == v[j]);
                }
            }
        } else {
            assert(k == 0 || inserted[k - 1] == v[k - 1]);
            assert(released(v, address, size) =~= inserted);
            let w = inserted;
            assert forall|x: int, y: int| 0 <= x < y < w.len() implies chunk_end(#[trigger] w[x]) < #[trigger] w[y].start by {
                if x == k {
                    assert(w[y] == v[y - 1]);
                    assert(address + rs <= v[y - 1].start);
                    assert(address + rs != v[k].start);
                } else if y == k {
                    assert(w[x] == v[x]);
                    if x < k - 1 {
                        assert(chunk_end(v[x]) < v[k - 1].start);
                    }
                } else {
                    let xx = if x < k { x } else { x - 1 };
                    let yy = if y < k { y } else { y - 1 };
                    assert(w[x] == v[xx]);
                    assert(w[y] == v[yy]);
                    assert(chunk_end(v[xx]) < v[yy].start);
                }
            }
            assert forall|j: int| 0 <= j < w.len() implies #[trigger] w[j].start % CHUNK_ALIGN == 0 && w[j].size
                >= CHUNK_HEADER_SIZE && chunk_end(w[j]) <= usize::MAX by {
                if j != k {
                    let jj = if j < k { j } else { j - 1 };
                    assert(w[j] == v[jj]);
                }
            }
        }
    }
}

/// An allocation leaves every chunk inside the range the chunks were in.
proof fn lemma_allocation_within(v: Seq<FreeChunk>, size: usize, align: usize, low: int, high: int)
    requires
        chunks_within(v, low, high),
    ensures
        chunks_within(allocation(v, size, align).1, low, high),
{
    if let Some(i) = first_fit(v, size, align, v.len() as int) {
        lemma_first_fit_fits(v, size, align, v.len() as int);
        lemma_placement_facts(v[i], size, align);
        let w = allocation(v, size, align).1;
        assert forall|j: int| 0 <= j < w.len() implies low <= (#[trigger] w[j]).start && chunk_end(w[j]) <= high by {
            if w.len() == v.len() {
                if j != i {
                    assert(w[j] == v[j]);
                }
            } else {
                let jj = if j < i { j } else { j + 1 };
                assert(w[j] == v[jj]);
            }
        }
    }
}

/// A release of bytes inside a range keeps every chunk inside it.
proof fn lemma_release_within(v: Seq<FreeChunk>, address: usize, size: usize, k: int, low: int, high: int)
    requires
        chunks_well_formed(v),
        chunks_within(v, low, high),
        low <= address,
        address + request_size(size) <= high,
        address % CHUNK_ALIGN == 0,
        address + request_size(size) <= usize::MAX,
        outside_free(v, address as int, request_size(size)),
        0 <= k <= v.len(),
        forall|j: int| 0 <= j < k ==> #[trigger] v[j].start < address,
        k == v.len() || v[k].start >= address,
    ensures
        chunks_within(released(v, address, size), low, high),
{
    lemma_release_shape(v, address, size, k);
    let w = released(v, address, size);
    let rs = request_size(size);
    let joins_prev = 0 < k && chunk_end(v[k - 1]) == address;
    let joins_next = k < v.len() && address + rs == v[k].start;
    assert forall|j: int| 0 <= j < w.len() implies low <= (#[trigger] w[j]).start && chunk_end(w[j]) <= high by {
        if joins_prev && joins_next {
            if j < k - 1 {
                assert(w[j] == v[j]);
            } else if j >= k {
                assert(w[j] == v[j + 1]);
            } else {
                assert(chunk_end(w[j]) == chunk_end(v[k]));
            }
        } else if joins_prev {
            if j != k - 1 {
                assert(w[j] == v[j]);
            }
        } else if joins_next {
            if j != k {
                assert(w[j] == v[j]);
            }
        } else {
            if j < k {
                assert(w[j] == v[j]);
            } else if j > k {
                assert(w[j] == v[j - 1]);
            }
        }
    }
}

impl<'a> FreeList<'a> {
    /// Whether the list is well formed: its chunks lie apart inside the heap
    /// region, and its table has a slot for every header-sized piece of the
    /// region.
    pub closed spec fn wf(&self) -> bool {
        &&& self.count <= self.chunks@.len()
        &&& chunks_well_formed(self@)
        &&& chunks_within(self@, self.region_start as int, self.region_start + self.region_size)
        &&& self.region_size <= self.chunks@.len() * CHUNK_HEADER_SIZE
    }

    /// Where the heap region starts.
    pub closed spec fn spec_region_start(&self) -> int {
        self.region_start as int
    }

    /// Where the heap region ends.
    pub closed spec fn spec_region_end(&self) -> int {
        self.region_start + self.region_size
    }

    /// A free list over all of `region`, which must hold at least a header
    /// and start on a header alignment, kept in `table`, which must have a
    /// slot for every header-sized piece of the region.  A region that runs
    /// past the end of the address space has no byte that can be handed out
    /// (no allocation in it can be placed), so its list starts empty.
    pub fn new(region: HeapRegion, table: &'a mut [FreeChunk]) -> (result: Result<FreeList<'a>, HeapError>)
        requires
            region.spec_size() <= old(table)@.len() * CHUNK_HEADER_SIZE,
        ensures
            region.spec_size() < CHUNK_HEADER_SIZE ==> result == Err::<FreeList<'a>, HeapError>(HeapError::TooSmall),
            region.spec_size() >= CHUNK_HEADER_SIZE && region.spec_start() % CHUNK_ALIGN != 0 ==> result == Err::<
                FreeList<'a>,
                HeapError,
            >(HeapError::Misaligned),
            region.spec_size() >= CHUNK_HEADER_SIZE && region.spec_start() % CHUNK_ALIGN == 0 ==> result is Ok
                && result.unwrap()@ == (if region.spec_start() + region.spec_size() <= usize::MAX {
                    seq![FreeChunk { start: region.spec_start(), size: region.spec_size() }]
                } else {
                    Seq::<FreeChunk>::empty()
                }),
            result matches Ok(list) ==> list.wf() && list.spec_region_start() == region.spec_start()
                && list.spec_region_end() == region.spec_start() + region.spec_size(),
    {
        let start = region.start();
        let size = region.size();
        if size < CHUNK_HEADER_SIZE {
            return Err(HeapError::TooSmall);
        }
        if start % CHUNK_ALIGN != 0 {
            return Err(HeapError::Misaligned);
        }
        let count: usize = if start.checked_add(size).is_some() {
            table[0] = FreeChunk { start, size };
            1
        } else {
            0
        };
        assert(table@.take(0) =~= Seq::<FreeChunk>::empty());
        assert(count == 1 ==> table@.take(1) =~= seq![FreeChunk { start, size }]);
        let list = FreeList { chunks: table, count, region_start: start, region_size: size };
        Ok(list)
    }

    /// The number of free chunks.
    pub fn len(&self) -> (len: usize)
        requires
            self.wf(),
        ensures
            len == self@.len(),
            chunks_well_formed(self@),
    {
        self.count
    }

    /// The `index`-th free chunk, in address order.
    pub fn chunk(&self, index: usize) -> (chunk: FreeChunk)
        requires
            self.wf(),
            index < self@.len(),
        ensures
            chunk == self@[index as int],
    {
        self.chunks[index]
    }

    /// Allocates `size` bytes aligned to `align` (at least a header's worth,
    /// rounded up to a whole number of header alignments, and at least
    /// header-aligned) from the first chunk they fit in; None when no chunk
    /// can hold them.  The bytes handed out are aligned and no chunk left in
    /// the list overlaps them.
    pub fn allocate(&mut self, size: usize, align: usize) -> (address: Option<usize>)
        requires
            old(self).wf(),
            power_of_two(align),
        ensures
            address == (match allocation(old(self)@, size, align).0 {
                Some(a) => Some(a as usize),
                None => None::<usize>,
            }),
            final(self)@ == allocation(old(self)@, size, align).1,
            final(self).wf(),
            final(self).spec_region_start() == old(self).spec_region_start(),
            final(self).spec_region_end() == old(self).spec_region_end(),
            chunks_well_formed(final(self)@),
            address matches Some(a) ==> (a as int) % request_align(align) == 0 && a % align == 0
                && outside_free(final(self)@, a as int, request_size(size)),
    {
        let ghost v = self@;
        proof {
            lemma_allocation_well_formed(v, size, align);
            lemma_allocation_within(v, size, align, self.region_start as int, self.region_start + self.region_size);
        }
        let count = self.count;
        let mut i: usize = 0;
        while i < count
            invariant
                self.wf(),
                self == old(self),
                count == self.count,
                v == self@,
                v == old(self)@,
                v.len() == count,
                i <= count,
                first_fit(v, size, align, i as int) is None,
                chunks_well_formed(v),
                power_of_two(align),
                chunks_well_formed(allocation(v, size, align).1),
                chunks_within(allocation(v, size, align).1, self.region_start as int, self.region_start + self.region_size),
            decreases count - i,
        {
            let chunk = self.chunks[i];
            assert(chunk == v[i as int]);
            match place(chunk, size, align) {
                Some((aligned, end)) => {
                    assert(first_fit(v, size, align, i + 1) == Some(i as int));
                    proof {
                        lemma_first_fit_settles(v, size, align, i as int, count as int);
                        lemma_placement_facts(chunk, size, align);
                    }
                    let remainder = chunk.start + chunk.size - end;
                    if remainder >= CHUNK_HEADER_SIZE {
                        self.chunks[i] = FreeChunk { start: end, size: remainder };
                        assert(self@ =~= v.update(i as int, FreeChunk { start: end, size: remainder }));
                    } else {
                        remove_chunk(self.chunks, count, i);
                        self.count = count - 1;
                        assert(self@ =~= v.remove(i as int));
                    }
                    assert(allocation(v, size, align).0 == Some(aligned as int));
                    proof { lemma_allocation_well_formed(v, size, align); }
                    assert(self@ =~= allocation(v, size, align).1);
                    return Some(aligned);
                },
                None => {},
            }
            i += 1;
        }
        None
    }

    /// Whether `size` bytes at `address` can be released: they are
    /// header-aligned, lie inside the heap region, and overlap no free chunk.
    pub fn may_release(&self, address: usize, size: usize) -> (ok: bool)
        requires
            self.wf(),
        ensures
            ok == (address % CHUNK_ALIGN == 0 && self.spec_region_start() <= address
                && address + request_size(size) <= self.spec_region_end()
                && address + request_size(size) <= usize::MAX
                && outside_free(self@, address as int, request_size(size))),
    {
        if address % CHUNK_ALIGN != 0 || address < self.region_start {
            return false;
        }
        let rs = match rounded_size(size) {
            Some(rs) => rs,
            None => return false,
        };
        let end = match address.checked_add(rs) {
            Some(end) => end,
            None => return false,
        };
        if end - self.region_start > self.region_size {
            return false;
        }
        let count = self.count;
        let mut i: usize = 0;
        while i < count
            invariant
                self.wf(),
                count == self.count,
                i <= count,
                end == address + request_size(size),
                forall|j: int| 0 <= j < i ==> chunk_end(#[trigger] self@[j]) <= address || end <= self@[j].start,
            decreases count - i,
        {
            let chunk = self.chunks[i];
            assert(chunk == self@[i as int]);
            if !(chunk.start + chunk.size <= address || end <= chunk.start) {
                return false;
            }
            i += 1;
        }
        true
    }

    /// Returns `size` bytes at `address` (handed out by [`FreeList::allocate`]
    /// with that size, so header-aligned, inside the heap region and
    /// overlapping no free chunk) to the list: they merge with the free
    /// chunks they border, or go in as a chunk of their own in address
    /// order.  The table always has room for it.
    pub fn release(&mut self, address: usize, size: usize)
        requires
            old(self).wf(),
            address % CHUNK_ALIGN == 0,
            old(self).spec_region_start() <= address,
            address + request_size(size) <= old(self).spec_region_end(),
            address + request_size(size) <= usize::MAX,
            outside_free(old(self)@, address as int, request_size(size)),
        ensures
            final(self)@ == released(old(self)@, address, size),
            final(self).wf(),
            final(self).spec_region_start() == old(self).spec_region_start(),
            final(self).spec_region_end() == old(self).spec_region_end(),
            chunks_well_formed(final(self)@),
    {
        let ghost v = self@;
        let count = self.count;
        let rs = rounded_size(size).unwrap();
        let end = address + rs;
        let mut k: usize = 0;
        while k < count && self.chunks[k].start < address
            invariant
                self.wf(),
                count == self.count,
                v == self@,
                v.len() == count,
                k <= count,
                forall|j: int| 0 <= j < k ==> #[trigger] v[j].start < address,
            decreases count - k,
        {
            assert(self.chunks[k as int] == v[k as int]);
            k += 1;
        }
        proof {
            if k < count {
                assert(self.chunks@[k as int] == v[k as int]);
            }
            lemma_release_shape(v, address, size, k as int);
            lemma_release_within(
                v,
                address,
                size,
                k as int,
                self.region_start as int,
                self.region_start + self.region_size,
            );
        }
        let joins_prev = k > 0 && {
            let previous = self.chunks[k - 1];
            assert(previous == v[k - 1]);
            previous.start + previous.size == address
        };
        let joins_next = k < count && end == self.chunks[k].start;
        assert(joins_next == (k < count && end == v[k as int].start));
        if joins_prev && joins_next {
            let previous = self.chunks[k - 1];
            let next = self.chunks[k];
            assert(next == v[k as int]);
            self.chunks[k - 1] = FreeChunk { start: previous.start, size: previous.size + rs + next.size };
            let ghost updated = self.chunks@;
            remove_chunk(self.chunks, count, k);
            self.count = count - 1;
            assert(updated.take(count as int) =~= v.update(k - 1, FreeChunk { start: previous.start, size: (previous.size + rs + next.size) as usize }));
            assert(self@ =~= released(v, address, size));
        } else if joins_prev {
            let previous = self.chunks[k - 1];
            self.chunks[k - 1] = FreeChunk { start: previous.start, size: previous.size + rs };
            assert(self@ =~= released(v, address, size));
        } else if joins_next {
            let next = self.chunks[k];
            assert(next == v[k as int]);
            self.chunks[k] = FreeChunk { start: address, size: rs + next.size };
            assert(self@ =~= released(v, address, size));
        } else {
            proof {
                lemma_chunks_fit(released(v, address, size), self.region_start as int, self.region_start + self.region_size);
            }
            insert_chunk(self.chunks, count, k, FreeChunk { start: address, size: rs });
            self.count = count + 1;
            assert(self@ =~= released(v, address, size));
        }
    }
}

/// Once a chunk fits, later chunks do not change the first fit.
proof fn lemma_first_fit_settles(chunks: Seq<FreeChunk>, size: usize, align: usize, i: int, k: int)
    requires
        0 <= i < k,
        first_fit(chunks, size, align, i + 1) == Some(i),
    ensures
        first_fit(chunks, size, align, k) == Some(i),
    decreases k - i,
{
    if k > i + 1 {
        lemma_first_fit_settles(chunks, size, align, i, k - 1);
    }
}

/// The insertion point is the first chunk that does not start below the address.
proof fn lemma_insertion_point(chunks: Seq<FreeChunk>, address: usize, k: int)
    requires
        0 <= k <= chunks.len(),
        forall|j: int| 0 <= j < k ==> #[trigger] chunks[j].start < address,
        k == chunks.len() || chunks[k].start >= address,
    ensures
        insertion_point(chunks, address) == k,
    decreases k,
{
    if k > 0 {
        assert(chunks[0].start < address);
        let rest = chunks.drop_first();
        assert forall|j: int| 0 <= j < k - 1 implies #[trigger] rest[j].start < address by {
            assert(rest[j] == chunks[j + 1]);
        }
        lemma_insertion_point(rest, address, k - 1);
    }
}

/// The first fit, when there is one, is a chunk the allocation fits in.
proof fn lemma_first_fit_fits(chunks: Seq<FreeChunk>, size: usize, align: usize, k: int)
    requires
        first_fit(chunks, size, align, k) is Some,
    ensures
        0 <= first_fit(chunks, size, align, k)->0 < k,
        placement(chunks[first_fit(chunks, size, align, k)->0], size, align) is Some,
    decreases k,
{
    if k > 0 && first_fit(chunks, size, align, k - 1) is Some {
        lemma_first_fit_fits(chunks, size, align, k - 1);
    }
}

/// Every allocation is aligned to its (at least header) alignment and lies,
/// with its full (at least header) size, inside one free chunk.
pub proof fn allocations_are_aligned_and_inside_a_free_chunk(chunks: Seq<FreeChunk>, size: usize, align: usize)
    requires
        align > 0,
    ensures
        allocation(chunks, size, align).0 matches Some(address) ==> exists|i: int|
            0 <= i < chunks.len() && #[trigger] chunks[i].start <= address && address + request_size(size) <= chunks[i].start
                + chunks[i].size && address % request_align(align) == 0,
{
    if let Some(i) = first_fit(chunks, size, align, chunks.len() as int) {
        lemma_first_fit_fits(chunks, size, align, chunks.len() as int);
        let a = request_align(align);
        let n = chunks[i].start + (a - 1);
        let aligned = n / a * a;
        vstd::arithmetic::div_mod::lemma_fundamental_div_mod(n, a);
        assert(n / a * a == a * (n / a)) by (nonlinear_arith);
        vstd::arithmetic::div_mod::lemma_mod_multiples_basic(n / a, a);
        assert(aligned >= chunks[i].start);
        assert(chunks[i].start <= aligned);
    }
}

/// The bytes the chunks hold.
pub open spec fn free_bytes(chunks: Seq<FreeChunk>) -> int
    decreases chunks.len(),
{
    if chunks.len() == 0 {
        0
    } else {
        free_bytes(chunks.drop_last()) + chunks.last().size
    }
}

proof fn lemma_free_bytes_concat(a: Seq<FreeChunk>, b: Seq<FreeChunk>)
    ensures
        free_bytes(a + b) == free_bytes(a) + free_bytes(b),
    decreases b.len(),
{
    if b.len() > 0 {
        lemma_free_bytes_concat(a, b.drop_last());
        assert((a + b).drop_last() =~= a + b.drop_last());
    } else {
        assert(a + b =~= a);
    }
}

/// Taking the chunk at `k` out of `chunks` takes its bytes out.
proof fn lemma_free_bytes_split(chunks: Seq<FreeChunk>, k: int)
    requires
        0 <= k < chunks.len(),
    ensures
        free_bytes(chunks) == free_bytes(chunks.take(k)) + chunks[k].size + free_bytes(chunks.skip(k + 1)),
        free_bytes(chunks.remove(k)) == free_bytes(chunks.take(k)) + free_bytes(chunks.skip(k + 1)),
{
    assert(chunks =~= chunks.take(k) + seq![chunks[k]] + chunks.skip(k + 1));
    assert(chunks.remove(k) =~= chunks.take(k) + chunks.skip(k + 1));
    lemma_free_bytes_concat(chunks.take(k) + seq![chunks[k]], chunks.skip(k + 1));
    lemma_free_bytes_concat(chunks.take(k), seq![chunks[k]]);
    lemma_free_bytes_concat(chunks.take(k), chunks.skip(k + 1));
    assert(seq![chunks[k]].drop_last() =~= Seq::<FreeChunk>::empty());
    assert(free_bytes(Seq::<FreeChunk>::empty()) == 0);
    assert(free_bytes(seq![chunks[k]]) == chunks[k].size);
}

/// The insertion point is a position of the list.
proof fn lemma_insertion_point_bounds(chunks: Seq<FreeChunk>, address: usize)
    ensures
        0 <= insertion_point(chunks, address) <= chunks.len(),
    decreases chunks.len(),
{
    if chunks.len() > 0 && chunks[0].start < address {
        lemma_insertion_point_bounds(chunks.drop_first(), address);
    }
}

/// Merging two adjacent chunks keeps their bytes.
proof fn lemma_merge_keeps_bytes(chunks: Seq<FreeChunk>, k: int)
    ensures
        free_bytes(merge_back(chunks, k)) == free_bytes(chunks),
{
    if 0 < k < chunks.len() && adjacent(chunks[k - 1], chunks[k]) {
        let merged = FreeChunk { start: chunks[k - 1].start, size: (chunks[k - 1].size + chunks[k].size) as usize };
        let updated = chunks.update(k - 1, merged);
        lemma_free_bytes_split(chunks, k - 1);
        lemma_free_bytes_split(updated, k - 1);
        assert(updated.take(k - 1) =~= chunks.take(k - 1));
        assert(updated.skip(k) =~= chunks.skip(k));
        lemma_free_bytes_split(updated, k);
        lemma_free_bytes_split(chunks, k);
        assert(updated.skip(k + 1) =~= chunks.skip(k + 1));
        assert(updated.take(k) =~= chunks.take(k - 1).push(merged));
        assert(chunks.take(k) =~= chunks.take(k - 1).push(chunks[k - 1]));
        assert(chunks.take(k).drop_last() =~= chunks.take(k - 1));
        assert(updated.take(k).drop_last() =~= chunks.take(k - 1));
    }
}

/// Releasing memory adds exactly its (at least header) size to the free
/// bytes: merging neighbours neither loses nor invents any.
pub proof fn release_adds_exactly_the_released_bytes(chunks: Seq<FreeChunk>, address: usize, size: usize)
    requires
        address + request_size(size) <= usize::MAX,
    ensures
        free_bytes(released(chunks, address, size)) == free_bytes(chunks) + request_size(size),
{
    let k = insertion_point(chunks, address);
    lemma_insertion_point_bounds(chunks, address);
    let chunk = FreeChunk { start: address, size: request_size(size) as usize };
    let inserted = chunks.insert(k, chunk);
    lemma_free_bytes_split(inserted, k);
    assert(inserted.take(k) =~= chunks.take(k));
    assert(inserted.skip(k + 1) =~= chunks.skip(k));
    assert(chunks =~= chunks.take(k) + chunks.skip(k));
    lemma_free_bytes_concat(chunks.take(k), chunks.skip(k));
    lemma_merge_keeps_bytes(inserted, k + 1);
    lemma_merge_keeps_bytes(merge_back(inserted, k + 1), k);
}

/// Whether byte `b` lies in one of the chunks.
pub open spec fn byte_free(chunks: Seq<FreeChunk>, b: int) -> bool {
    exists|i: int| 0 <= i < chunks.len() && (#[trigger] chunks[i]).start <= b < chunk_end(chunks[i])
}

/// Every chunk before the insertion point starts below the address, and
/// the one at it (if any) does not.
proof fn lemma_insertion_point_facts(chunks: Seq<FreeChunk>, address: usize)
    ensures
        0 <= insertion_point(chunks, address) <= chunks.len(),
        forall|j: int| 0 <= j < insertion_point(chunks, address) ==> (#[trigger] chunks[j]).start < address,
        insertion_point(chunks, address) < chunks.len() ==> chunks[insertion_point(chunks, address)].start >= address,
    decreases chunks.len(),
{
    if chunks.len() > 0 && chunks[0].start < address {
        let rest = chunks.drop_first();
        lemma_insertion_point_facts(rest, address);
        assert forall|j: int| 0 <= j < insertion_point(chunks, address) implies (#[trigger] chunks[j]).start < address by {
            if j > 0 {
                assert(chunks[j] == rest[j - 1]);
            }
        }
        if insertion_point(chunks, address) < chunks.len() {
            assert(chunks[insertion_point(chunks, address)] == rest[insertion_point(rest, address)]);
        }
    }
}

/// Bytes of a list where the chunk at `k` is replaced by `c`, which is that
/// chunk extended by the bytes `[lo, hi)` right after or right before it.
proof fn lemma_bytes_grow(v: Seq<FreeChunk>, k: int, c: FreeChunk, lo: int, hi: int, b: int)
    requires
        0 <= k < v.len(),
        lo <= hi,
        (c.start == v[k].start && chunk_end(v[k]) == lo && hi == chunk_end(c)) || (c.start == lo && hi == v[k].start
            && chunk_end(c) == chunk_end(v[k])),
    ensures
        byte_free(v.update(k, c), b) == (byte_free(v, b) || lo <= b < hi),
{
    let w = v.update(k, c);
    if byte_free(w, b) {
        let j = choose|j: int| 0 <= j < w.len() && (#[trigger] w[j]).start <= b < chunk_end(w[j]);
        if j != k {
            assert(w[j] == v[j]);
        } else if v[k].start <= b < chunk_end(v[k]) {
            assert(v[k].start <= b < chunk_end(v[k]));
        }
    }
    if byte_free(v, b) {
        let j = choose|j: int| 0 <= j < v.len() && (#[trigger] v[j]).start <= b < chunk_end(v[j]);
        if j != k {
            assert(w[j] == v[j]);
        } else {
            assert(w[k].start <= b < chunk_end(w[k]));
        }
    }
    if lo <= b < hi {
        assert(w[k].start <= b < chunk_end(w[k]));
    }
}

/// Removing the chunk at `k + 1`, whose bytes the chunk at `k` also covers,
/// frees no byte less.
proof fn lemma_bytes_drop_covered(w: Seq<FreeChunk>, k: int, b: int)
    requires
        0 <= k,
        k + 1 < w.len(),
        w[k].start <= w[k + 1].start,
        chunk_end(w[k + 1]) <= chunk_end(w[k]),
    ensures
        byte_free(w.remove(k + 1), b) == byte_free(w, b),
{
    let u = w.remove(k + 1);
    if byte_free(w, b) {
        let j = choose|j: int| 0 <= j < w.len() && (#[trigger] w[j]).start <= b < chunk_end(w[j]);
        if j <= k {
            assert(u[j] == w[j]);
        } else if j == k + 1 {
            assert(u[k] == w[k]);
            assert(u[k].start <= b < chunk_end(u[k]));
        } else {
            assert(u[j - 1] == w[j]);
        }
    }
    if byte_free(u, b) {
        let j = choose|j: int| 0 <= j < u.len() && (#[trigger] u[j]).start <= b < chunk_end(u[j]);
        if j <= k {
            assert(u[j] == w[j]);
        } else {
            assert(u[j] == w[j + 1]);
        }
    }
}

/// Inserting a chunk frees exactly its bytes more.
proof fn lemma_bytes_insert(v: Seq<FreeChunk>, k: int, c: FreeChunk, b: int)
    requires
        0 <= k <= v.len(),
    ensures
        byte_free(v.insert(k, c), b) == (byte_free(v, b) || c.start <= b < chunk_end(c)),
{
    let w = v.insert(k, c);
    if byte_free(w, b) {
        let j = choose|j: int| 0 <= j < w.len() && (#[trigger] w[j]).start <= b < chunk_end(w[j]);
        if j < k {
            assert(w[j] == v[j]);
        } else if j > k {
            assert(w[j] == v[j - 1]);
        }
    }
    if byte_free(v, b) {
        let j = choose|j: int| 0 <= j < v.len() && (#[trigger] v[j]).start <= b < chunk_end(v[j]);
        if j < k {
            assert(w[j] == v[j]);
        } else {
            assert(w[j + 1] == v[j]);
        }
    }
    if c.start <= b < chunk_end(c) {
        assert(w[k] == c);
    }
}

/// Releasing a block that overlaps no free chunk frees every byte of it
/// (at least a header's worth) and keeps every byte that was free free,
/// and no other byte becomes free.
pub proof fn release_frees_the_block_and_keeps_free_bytes(chunks: Seq<FreeChunk>, address: usize, size: usize, b: int)
    requires
        chunks_well_formed(chunks),
        address % CHUNK_ALIGN == 0,
        address + request_size(size) <= usize::MAX,
        outside_free(chunks, address as int, request_size(size)),
    ensures
        byte_free(released(chunks, address, size), b) == (byte_free(chunks, b) || address <= b < address
            + request_size(size)),
{
    let v = chunks;
    let k = insertion_point(v, address);
    lemma_insertion_point_facts(v, address);
    lemma_release_shape(v, address, size, k);
    let rs = request_size(size);
    let lo = address as int;
    let hi = address + rs;
    let joins_prev = 0 < k && chunk_end(v[k - 1]) == address;
    let joins_next = k < v.len() && address + rs == v[k].start;
    if joins_prev && joins_next {
        let merged = FreeChunk { start: v[k - 1].start, size: (v[k - 1].size + rs + v[k].size) as usize };
        let grown = v.update(k - 1, merged);
        lemma_bytes_grow(v, k - 1, merged, lo, chunk_end(v[k]), b);
        lemma_bytes_drop_covered(grown, k - 1, b);
        if lo <= b < chunk_end(v[k]) && !(lo <= b < hi) {
            assert(v[k].start <= b < chunk_end(v[k]));
        }
    } else if joins_prev {
        let grown = FreeChunk { start: v[k - 1].start, size: (v[k - 1].size + rs) as usize };
        lemma_bytes_grow(v, k - 1, grown, lo, hi, b);
    } else if joins_next {
        let grown = FreeChunk { start: address, size: (rs + v[k].size) as usize };
        lemma_bytes_grow(v, k, grown, lo, hi, b);
    } else {
        lemma_bytes_insert(v, k, FreeChunk { start: address, size: rs as usize }, b);
    }
}

} // verus!
