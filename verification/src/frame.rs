//! Physical 4 KiB frame allocation.
//!
//! Only ranges classified as `Usable` by the owned memory map enter this
//! fixed-storage free list, so the heap, kernel, firmware, ACPI and device
//! ranges are reserved automatically.

use vstd::prelude::*;

use crate::memory::{MemoryKind, MemoryMapSnapshot, MemoryRange, MAX_MEMORY_RANGES};
use crate::PAGE_SIZE;

verus! {

/// Capacity of the free-range table.
pub const MAX_FREE_RANGES: usize = MAX_MEMORY_RANGES;

/// The physical address of a frame.  `new` hands out only aligned
/// addresses; the allocator refuses any other it is given back.
#[derive(Clone, Copy, Debug, PartialEq, Eq, Structural)]
pub struct FrameAddress(pub u64);

impl View for FrameAddress {
    type V = u64;

    open spec fn view(&self) -> u64 {
        self.0
    }
}

impl FrameAddress {
    /// A frame address, when `address` is 4 KiB aligned.
    pub fn new(address: u64) -> (frame: Option<FrameAddress>)
        ensures
            frame.is_some() == (address % PAGE_SIZE == 0),
            frame.is_some() ==> frame.unwrap()@ == address,
    {
        if address.is_multiple_of(PAGE_SIZE) {
            Some(FrameAddress(address))
        } else {
            None
        }
    }

    pub fn address(self) -> (address: u64)
        ensures
            address == self@,
    {
        self.0
    }
}

/// A run of `frames` free frames starting at `start`.
#[derive(Clone, Copy, Debug, PartialEq, Eq, Structural)]
pub struct FreeRange {
    pub start: u64,
    pub frames: u64,
}

/// `x` saturated at `u64::MAX`.
pub open spec fn saturate(x: int) -> u64 {
    if x > u64::MAX { u64::MAX } else { x as u64 }
}

impl FreeRange {
    /// The exclusive end address, saturated at `u64::MAX`.
    pub open spec fn spec_end(self) -> u64 {
        saturate(self.start + self.frames * PAGE_SIZE)
    }

    fn end(self) -> (end: u64)
        ensures
            end == self.spec_end(),
    {
        let bytes = match self.frames.checked_mul(PAGE_SIZE) {
            Some(bytes) => bytes,
            None => u64::MAX,
        };
        self.start.saturating_add(bytes)
    }
}

/// Counters of a frame allocator.
#[derive(Clone, Copy, Debug, PartialEq, Eq, Structural)]
pub struct FrameStats {
    pub total_frames: u64,
    pub free_frames: u64,
    pub free_ranges: usize,
}

/// Why a frame operation was refused.
#[derive(Clone, Copy, Debug, PartialEq, Eq, Structural)]
pub enum FrameError {
    AlreadyInitialized,
    MemoryMapUnavailable,
    OutOfMemory,
    InvalidAddress,
    FreeRangeStorageFull,
}

/// The number of frames in `v`.
pub open spec fn sum_frames(v: Seq<FreeRange>) -> int
    decreases v.len(),
{
    if v.len() == 0 {
        0
    } else {
        sum_frames(v.drop_last()) + v.last().frames
    }
}

/// The free run a memory range contributes: its whole frames, when it is usable.
pub open spec fn usable_run(r: MemoryRange) -> FreeRange {
    FreeRange { start: r.start, frames: r.length / PAGE_SIZE }
}

pub open spec fn contributes(r: MemoryRange) -> bool {
    r.kind == MemoryKind::Usable && r.length / PAGE_SIZE > 0
}

/// The free list built from a memory map: the usable ranges with at least
/// one whole frame, in order, as many as the table holds.
pub open spec fn initial_free_list(s: Seq<MemoryRange>) -> Seq<FreeRange>
    decreases s.len(),
{
    if s.len() == 0 {
        seq![]
    } else {
        let p = initial_free_list(s.drop_last());
        if contributes(s.last()) && p.len() < MAX_FREE_RANGES {
            p.push(usable_run(s.last()))
        } else {
            p
        }
    }
}

/// The free list after handing out the first frame of its first run.
pub open spec fn after_allocation(v: Seq<FreeRange>) -> Seq<FreeRange> {
    if v[0].frames == 1 {
        v.remove(0)
    } else {
        v.update(0, FreeRange { start: saturate(v[0].start + PAGE_SIZE), frames: (v[0].frames - 1) as u64 })
    }
}

/// The position at which a frame at `address` belongs: the first run that
/// does not start below it.
pub open spec fn insertion_index(v: Seq<FreeRange>, address: u64) -> int
    decreases v.len(),
{
    if v.len() == 0 {
        0
    } else if v[0].start >= address {
        0
    } else {
        1 + insertion_index(v.skip(1), address)
    }
}

/// The outcome of returning the frame at `address` to the free list `v`:
/// unaligned addresses and frames that overlap their neighbouring runs are
/// refused, as is a frame that needs a run of its own when the table is full.
pub open spec fn release_result(v: Seq<FreeRange>, address: u64) -> Result<(), FrameError> {
    let i = insertion_index(v, address);
    if address % PAGE_SIZE != 0 {
        Err(FrameError::InvalidAddress)
    } else if i > 0 && v[i - 1].spec_end() > address {
        Err(FrameError::InvalidAddress)
    } else if i < v.len() && saturate(address + PAGE_SIZE) > v[i].start {
        Err(FrameError::InvalidAddress)
    } else if i > 0 && v[i - 1].spec_end() == address {
        Ok(())
    } else if i < v.len() && saturate(address + PAGE_SIZE) == v[i].start {
        Ok(())
    } else if v.len() == MAX_FREE_RANGES {
        Err(FrameError::FreeRangeStorageFull)
    } else {
        Ok(())
    }
}

/// The free list after an accepted release of the frame at `address`: the
/// frame extends the run that ends at it (merging with the next run when the
/// two then touch), else it extends the run that starts right after it, else
/// it becomes a run of its own at its sorted position.
pub open spec fn released_ranges(v: Seq<FreeRange>, address: u64) -> Seq<FreeRange> {
    let i = insertion_index(v, address);
    if i > 0 && v[i - 1].spec_end() == address {
        let grown = FreeRange { start: v[i - 1].start, frames: (v[i - 1].frames + 1) as u64 };
        if i < v.len() && grown.spec_end() == v[i].start {
            v.update(i - 1, FreeRange { start: grown.start, frames: (grown.frames + v[i].frames) as u64 }).remove(i)
        } else {
            v.update(i - 1, grown)
        }
    } else if i < v.len() && saturate(address + PAGE_SIZE) == v[i].start {
        v.update(i, FreeRange { start: address, frames: (v[i].frames + 1) as u64 })
    } else {
        v.insert(i, FreeRange { start: address, frames: 1 })
    }
}

proof fn lemma_sum_frames_append(a: Seq<FreeRange>, b: Seq<FreeRange>)
    ensures
        sum_frames(a + b) == sum_frames(a) + sum_frames(b),
    decreases b.len(),
{
    if b.len() == 0 {
        assert(a + b =~= a);
    } else {
        assert((a + b).drop_last() =~= a + b.drop_last());
        lemma_sum_frames_append(a, b.drop_last());
    }
}

proof fn lemma_sum_frames_nonnegative(v: Seq<FreeRange>)
    ensures
        sum_frames(v) >= 0,
    decreases v.len(),
{
    if v.len() > 0 {
        lemma_sum_frames_nonnegative(v.drop_last());
    }
}

proof fn lemma_sum_frames_single(r: FreeRange)
    ensures
        sum_frames(seq![r]) == r.frames,
{
    assert(seq![r].drop_last() =~= Seq::<FreeRange>::empty());
    assert(sum_frames(Seq::<FreeRange>::empty()) == 0);
    assert(seq![r].last() == r);
}

/// Splits the sum at position `i`.
proof fn lemma_sum_frames_split(v: Seq<FreeRange>, i: int)
    requires
        0 <= i < v.len(),
    ensures
        sum_frames(v) == sum_frames(v.take(i)) + v[i].frames + sum_frames(v.skip(i + 1)),
{
    assert(v =~= v.take(i) + seq![v[i]] + v.skip(i + 1));
    lemma_sum_frames_append(v.take(i) + seq![v[i]], v.skip(i + 1));
    lemma_sum_frames_append(v.take(i), seq![v[i]]);
    lemma_sum_frames_single(v[i]);
}

proof fn lemma_sum_frames_update(v: Seq<FreeRange>, i: int, r: FreeRange)
    requires
        0 <= i < v.len(),
    ensures
        sum_frames(v.update(i, r)) == sum_frames(v) - v[i].frames + r.frames,
{
    let w = v.update(i, r);
    lemma_sum_frames_split(v, i);
    lemma_sum_frames_split(w, i);
    assert(w.take(i) =~= v.take(i));
    assert(w.skip(i + 1) =~= v.skip(i + 1));
}

proof fn lemma_sum_frames_remove(v: Seq<FreeRange>, i: int)
    requires
        0 <= i < v.len(),
    ensures
        sum_frames(v.remove(i)) == sum_frames(v) - v[i].frames,
{
    lemma_sum_frames_split(v, i);
    assert(v.remove(i) =~= v.take(i) + v.skip(i + 1));
    lemma_sum_frames_append(v.take(i), v.skip(i + 1));
}

proof fn lemma_sum_frames_insert(v: Seq<FreeRange>, i: int, r: FreeRange)
    requires
        0 <= i <= v.len(),
    ensures
        sum_frames(v.insert(i, r)) == sum_frames(v) + r.frames,
{
    let w = v.insert(i, r);
    lemma_sum_frames_split(w, i);
    assert(w.take(i) =~= v.take(i));
    assert(w.skip(i + 1) =~= v.skip(i));
    assert(v =~= v.take(i) + v.skip(i));
    lemma_sum_frames_append(v.take(i), v.skip(i));
}

/// Every run of `v` is at most the whole sum, and two distinct runs together too.
proof fn lemma_sum_frames_bounds(v: Seq<FreeRange>, i: int, j: int)
    requires
        0 <= i < v.len(),
        0 <= j < v.len(),
        i != j,
    ensures
        v[i].frames + v[j].frames <= sum_frames(v),
{
    let (a, b) = if i < j { (i, j) } else { (j, i) };
    lemma_sum_frames_split(v, b);
    lemma_sum_frames_split(v.take(b), a);
    lemma_sum_frames_nonnegative(v.take(b).take(a));
    lemma_sum_frames_nonnegative(v.take(b).skip(a + 1));
    lemma_sum_frames_nonnegative(v.skip(b + 1));
}

proof fn lemma_sum_frames_one(v: Seq<FreeRange>, i: int)
    requires
        0 <= i < v.len(),
    ensures
        v[i].frames <= sum_frames(v),
{
    lemma_sum_frames_split(v, i);
    lemma_sum_frames_nonnegative(v.take(i));
    lemma_sum_frames_nonnegative(v.skip(i + 1));
}

} // verus!

verus! {

/// A fixed-storage free list of physical frames.
pub struct FrameAllocator {
    ranges: [FreeRange; MAX_FREE_RANGES],
    range_count: usize,
    total_frames: u64,
    free_frames: u64,
    handed_out: Ghost<int>,
}

impl View for FrameAllocator {
    type V = Seq<FreeRange>;

    /// The free runs, in table order.
    closed spec fn view(&self) -> Seq<FreeRange> {
        self.ranges@.take(self.range_count as int)
    }
}

impl FrameAllocator {
    #[verifier::type_invariant]
    spec fn inv(self) -> bool {
        &&& self.range_count <= MAX_FREE_RANGES
        &&& forall|i: int| 0 <= i < self.range_count ==> #[trigger] self.ranges@[i].frames >= 1
        &&& sum_frames(self@) <= u64::MAX
        &&& self.free_frames == sum_frames(self@)
        &&& self.free_frames + self.handed_out@ == self.total_frames
    }

    /// Frames handed out by `allocate` and not yet taken back by `release`
    /// (negative when more frames were taken back than handed out).
    pub closed spec fn spec_handed_out(&self) -> int {
        self.handed_out@
    }

    /// How many frames the allocator was built with.
    pub closed spec fn spec_total_frames(&self) -> u64 {
        self.total_frames
    }

    /// Builds the free list from the usable ranges of a memory map.
    pub fn new(ranges: &[MemoryRange]) -> (allocator: FrameAllocator)
        ensures
            allocator@ == initial_free_list(ranges@),
            allocator.spec_total_frames() == sum_frames(allocator@),
            allocator.spec_handed_out() == 0,
            usable_ranges_ordered(ranges@) ==> well_ordered(allocator@),
    {
        let empty = FreeRange { start: 0, frames: 0 };
        let mut list = [empty; MAX_FREE_RANGES];
        let mut count: usize = 0;
        let mut total: u64 = 0;
        let ghost s = ranges@;
        let mut i: usize = 0;
        assert(s.take(0) =~= Seq::<MemoryRange>::empty());
        assert(list@.take(0) =~= Seq::<FreeRange>::empty());
        while i < ranges.len()
            invariant
                s == ranges@,
                i <= s.len(),
                count <= MAX_FREE_RANGES,
                list@.take(count as int) == initial_free_list(s.take(i as int)),
                forall|j: int| 0 <= j < count ==> #[trigger] list@[j].frames >= 1,
                total == sum_frames(list@.take(count as int)),
                sum_frames(list@.take(count as int)) <= count * 0x10_0000_0000_0000,
            decreases s.len() - i,
        {
            let range = ranges[i];
            let ghost prefix = s.take(i as int);
            let ghost next = s.take(i + 1);
            assert(next.drop_last() =~= prefix);
            assert(next.last() == range);
            if range.kind() == MemoryKind::Usable && count < MAX_FREE_RANGES {
                let frames = range.length() / PAGE_SIZE;
                if frames > 0 {
                    let run = FreeRange { start: range.start(), frames };
                    proof {
                        lemma_sum_frames_append(list@.take(count as int), seq![run]);
                        lemma_sum_frames_single(run);
                        assert(list@.update(count as int, run).take(count + 1) =~= list@.take(count as int).push(run));
                        assert(list@.take(count as int).push(run) =~= list@.take(count as int) + seq![run]);
                    }
                    list[count] = run;
                    count += 1;
                    total = total + frames;
                }
            }
            i += 1;
        }
        assert(s.take(i as int) =~= s);
        proof {
            if usable_ranges_ordered(s) {
                lemma_initial_free_list_ordered(s);
            }
        }
        FrameAllocator { ranges: list, range_count: count, total_frames: total, free_frames: total, handed_out: Ghost(0) }
    }

}

/// Removes the run at `index` of the first `count` runs of `list`, keeping the order of the others.
fn remove_run(list: &mut [FreeRange; MAX_FREE_RANGES], count: usize, index: usize)
    requires
        index < count <= MAX_FREE_RANGES,
    ensures
        final(list)@.take(count - 1) == old(list)@.take(count as int).remove(index as int),
{
    let ghost before = old(list)@.take(count as int);
    let mut current = index;
    while current + 1 < count
        invariant
            index <= current < count <= MAX_FREE_RANGES,
            before.len() == count,
            before == old(list)@.take(count as int),
            forall|j: int| 0 <= j < index ==> #[trigger] list@[j] == before[j],
            forall|j: int| index <= j < current ==> #[trigger] list@[j] == before[j + 1],
            forall|j: int| current <= j < count ==> #[trigger] list@[j] == before[j],
        decreases count - current,
    {
        list[current] = list[current + 1];
        current += 1;
    }
    assert(list@.take(count - 1) =~= before.remove(index as int));
}

/// Inserts `run` at `index` among the first `count` runs of `list`.
fn insert_run(list: &mut [FreeRange; MAX_FREE_RANGES], count: usize, index: usize, run: FreeRange)
    requires
        index <= count < MAX_FREE_RANGES,
    ensures
        final(list)@.take(count + 1) == old(list)@.take(count as int).insert(index as int, run),
{
    let ghost before = old(list)@;
    let mut move_index = count;
    while move_index > index
        invariant
            index <= move_index <= count < MAX_FREE_RANGES,
            before == old(list)@,
            forall|j: int| 0 <= j < move_index ==> #[trigger] list@[j] == before[j],
            forall|j: int| move_index < j <= count ==> #[trigger] list@[j] == before[j - 1],
        decreases move_index - index,
    {
        list[move_index] = list[move_index - 1];
        move_index -= 1;
    }
    list[index] = run;
    assert(list@.take(count + 1) =~= before.take(count as int).insert(index as int, run));
}

impl FrameAllocator {
    /// The number of free frames.
    pub open spec fn spec_free_frames(&self) -> int {
        sum_frames(self@)
    }

    /// Hands out the first frame of the first free run.
    pub fn allocate(&mut self) -> (result: Result<FrameAddress, FrameError>)
        ensures
            old(self)@.len() == 0 ==> result == Err::<FrameAddress, FrameError>(FrameError::OutOfMemory)
                && final(self)@ == old(self)@,
            old(self)@.len() > 0 ==> result is Ok && result.unwrap()@ == old(self)@[0].start
                && final(self)@ == after_allocation(old(self)@),
            final(self).spec_total_frames() == old(self).spec_total_frames(),
            final(self).spec_handed_out() == old(self).spec_handed_out() + if result is Ok { 1int } else { 0int },
            well_ordered(old(self)@) ==> well_ordered(final(self)@),
            well_ordered(old(self)@) && result is Ok ==> {
                let a = result.unwrap()@;
                &&& a % PAGE_SIZE == 0
                &&& frame_is_free(old(self)@, a)
                &&& !frame_is_free(final(self)@, a)
            },
    {
        proof { use_type_invariant(&*self); }
        if self.range_count == 0 {
            return Err(FrameError::OutOfMemory);
        }
        let ghost v = self@;
        let mut list = self.ranges;
        let mut count = self.range_count;
        let first = list[0];
        assert(v[0] == first);
        let address = first.start;
        let shrunk = FreeRange { start: first.start.saturating_add(PAGE_SIZE), frames: first.frames - 1 };
        list[0] = shrunk;
        assert(list@.take(count as int) =~= v.update(0, shrunk));
        proof {
            lemma_sum_frames_update(v, 0, shrunk);
            lemma_sum_frames_one(v, 0);
        }
        if first.frames == 1 {
            proof { lemma_sum_frames_remove(v.update(0, shrunk), 0); }
            remove_run(&mut list, count, 0);
            count -= 1;
            assert(v.update(0, shrunk).remove(0) =~= v.remove(0));
        }
        assert(list@.take(count as int) == after_allocation(v));
        assert forall|i: int| 0 <= i < count implies #[trigger] list@[i].frames >= 1 by {
            assert(list@[i] == list@.take(count as int)[i]);
            if first.frames != 1 && i != 0 {
                assert(v[i] == self.ranges@[i]);
            }
            if first.frames == 1 {
                assert(v[i + 1] == self.ranges@[i + 1]);
            }
        }
        *self = FrameAllocator {
            ranges: list,
            range_count: count,
            total_frames: self.total_frames,
            free_frames: self.free_frames - 1,
            handed_out: Ghost(self.handed_out@ + 1),
        };
        proof {
            if well_ordered(v) {
                allocation_keeps_the_list_well_ordered(v);
                allocation_takes_exactly_one_free_frame(v, address);
                assert(v[0].start % PAGE_SIZE == 0);
            }
        }
        Ok(FrameAddress(address))
    }

    /// Returns a frame to the free list, keeping the list sorted by address
    /// and merging the frame into the runs it touches.  On failure the free
    /// list is left unchanged.
    pub fn release(&mut self, frame: FrameAddress) -> (result: Result<(), FrameError>)
        requires
            old(self).spec_free_frames() < u64::MAX,
        ensures
            result == release_result(old(self)@, frame@),
            result is Ok ==> final(self)@ == released_ranges(old(self)@, frame@),
            result is Err ==> final(self)@ == old(self)@,
            final(self).spec_total_frames() == old(self).spec_total_frames(),
            final(self).spec_handed_out() == old(self).spec_handed_out() - if result is Ok { 1int } else { 0int },
            well_ordered(old(self)@) && frame@ + PAGE_SIZE <= u64::MAX ==> well_ordered(final(self)@),
            well_ordered(old(self)@) && result is Ok ==> frame_is_free(final(self)@, frame@),
            well_ordered(old(self)@) && frame_is_free(old(self)@, frame@) ==> result == Err::<(), FrameError>(FrameError::InvalidAddress),
    {
        proof {
            use_type_invariant(&*self);
            if well_ordered(self@) {
                if frame_is_free(self@, frame@) {
                    double_release_is_refused(self@, frame@);
                }
                if release_result(self@, frame@) is Ok {
                    release_frees_exactly_the_frame(self@, frame@, frame@);
                    if frame@ + PAGE_SIZE <= u64::MAX {
                        release_keeps_the_list_well_ordered(self@, frame@);
                    }
                }
            }
        }
        let address = frame.address();
        if !address.is_multiple_of(PAGE_SIZE) {
            return Err(FrameError::InvalidAddress);
        }
        let ghost v = self@;
        let count = self.range_count;
        let mut index: usize = 0;
        assert(v.skip(0) =~= v);
        while index < count && self.ranges[index].start < address
            invariant
                index <= count,
                count == self.range_count,
                count <= MAX_FREE_RANGES,
                v == self@,
                v.len() == count,
                insertion_index(v, address) == index + insertion_index(v.skip(index as int), address),
            decreases count - index,
        {
            assert(v.skip(index as int)[0] == v[index as int]);
            assert(v.skip(index as int).skip(1) =~= v.skip(index + 1));
            index += 1;
        }
        proof {
            if index < count {
                assert(v.skip(index as int)[0] == v[index as int]);
            }
        }
        assert(insertion_index(v, address) == index);
        let mut list = self.ranges;
        let mut new_count = count;
        if index > 0 && list[index - 1].end() > address {
            assert(v[index - 1] == list@[index - 1]);
            return Err(FrameError::InvalidAddress);
        }
        if index < count && address.saturating_add(PAGE_SIZE) > list[index].start {
            assert(v[index as int] == list@[index as int]);
            return Err(FrameError::InvalidAddress);
        }
        if index > 0 && list[index - 1].end() == address {
            let prev = list[index - 1];
            assert(v[index - 1] == prev);
            proof { lemma_sum_frames_one(v, index - 1); }
            let grown = FreeRange { start: prev.start, frames: prev.frames + 1 };
            if index < count && grown.end() == list[index].start {
                let next = list[index];
                assert(v[index as int] == next);
                proof { lemma_sum_frames_bounds(v, index - 1, index as int); }
                let merged = FreeRange { start: grown.start, frames: grown.frames + next.frames };
                list[index - 1] = merged;
                assert(list@.take(count as int) =~= v.update(index - 1, merged));
                proof {
                    lemma_sum_frames_update(v, index - 1, merged);
                    lemma_sum_frames_remove(v.update(index - 1, merged), index as int);
                }
                remove_run(&mut list, count, index);
                new_count = count - 1;
            } else {
                list[index - 1] = grown;
                assert(list@.take(count as int) =~= v.update(index - 1, grown));
                proof { lemma_sum_frames_update(v, index - 1, grown); }
            }
        } else if index < count && address.saturating_add(PAGE_SIZE) == list[index].start {
            let next = list[index];
            assert(v[index as int] == next);
            proof { lemma_sum_frames_one(v, index as int); }
            let extended = FreeRange { start: address, frames: next.frames + 1 };
            list[index] = extended;
            assert(list@.take(count as int) =~= v.update(index as int, extended));
            proof { lemma_sum_frames_update(v, index as int, extended); }
        } else {
            if count == MAX_FREE_RANGES {
                return Err(FrameError::FreeRangeStorageFull);
            }
            let single = FreeRange { start: address, frames: 1 };
            insert_run(&mut list, count, index, single);
            new_count = count + 1;
            proof { lemma_sum_frames_insert(v, index as int, single); }
        }
        assert(list@.take(new_count as int) == released_ranges(v, address));
        assert(sum_frames(list@.take(new_count as int)) == sum_frames(v) + 1);
        assert forall|i: int| 0 <= i < new_count implies #[trigger] list@[i].frames >= 1 by {
            let w = released_ranges(v, address);
            assert(list@[i] == list@.take(new_count as int)[i]);
            assert forall|j: int| 0 <= j < count implies #[trigger] v[j].frames >= 1 by {
                assert(v[j] == self.ranges@[j]);
            }
        }
        *self = FrameAllocator {
            ranges: list,
            range_count: new_count,
            total_frames: self.total_frames,
            free_frames: self.free_frames.saturating_add(1),
            handed_out: Ghost(self.handed_out@ - 1),
        };
        Ok(())
    }

    /// The counters of the allocator.
    pub fn stats(&self) -> (stats: FrameStats)
        ensures
            stats.total_frames == self.spec_total_frames(),
            stats.free_frames == self.spec_free_frames(),
            stats.free_ranges == self@.len(),
            stats.free_frames + self.spec_handed_out() == stats.total_frames,
    {
        proof { use_type_invariant(self); }
        FrameStats { total_frames: self.total_frames, free_frames: self.free_frames, free_ranges: self.range_count }
    }
}

} // verus!

verus! {

/// Builds the free list from the kernel-owned memory map, once.
pub fn initialize(allocator: &mut Option<FrameAllocator>, memory_map: &Option<MemoryMapSnapshot>) -> (result: Result<(), FrameError>)
    ensures
        old(allocator).is_some() ==> result == Err::<(), FrameError>(FrameError::AlreadyInitialized)
            && *final(allocator) == *old(allocator),
        old(allocator).is_none() && memory_map.is_none() ==> result == Err::<(), FrameError>(FrameError::MemoryMapUnavailable)
            && final(allocator).is_none(),
        old(allocator).is_none() && memory_map.is_some() ==> result is Ok && final(allocator).is_some()
            && final(allocator).unwrap()@ == initial_free_list(memory_map.unwrap()@)
            && final(allocator).unwrap().spec_total_frames() == sum_frames(final(allocator).unwrap()@)
            && final(allocator).unwrap().spec_handed_out() == 0
            && (usable_ranges_ordered(memory_map.unwrap()@) ==> well_ordered(final(allocator).unwrap()@)),
{
    if allocator.is_some() {
        return Err(FrameError::AlreadyInitialized);
    }
    match memory_map {
        None => Err(FrameError::MemoryMapUnavailable),
        Some(snapshot) => {
            *allocator = Some(FrameAllocator::new(snapshot.ranges()));
            Ok(())
        },
    }
}

/// Allocates one 4 KiB physical frame.
pub fn allocate(allocator: &mut Option<FrameAllocator>) -> (result: Result<FrameAddress, FrameError>)
    ensures
        old(allocator).is_none() ==> result == Err::<FrameAddress, FrameError>(FrameError::MemoryMapUnavailable)
            && final(allocator).is_none(),
        old(allocator).is_some() ==> {
            let before = old(allocator).unwrap();
            let after = final(allocator).unwrap();
            &&& final(allocator).is_some()
            &&& after.spec_total_frames() == before.spec_total_frames()
            &&& after.spec_handed_out() == before.spec_handed_out() + if result is Ok { 1int } else { 0int }
            &&& before@.len() == 0 ==> result == Err::<FrameAddress, FrameError>(FrameError::OutOfMemory) && after@ == before@
            &&& before@.len() > 0 ==> result is Ok && result.unwrap()@ == before@[0].start
                && after@ == after_allocation(before@)
            &&& well_ordered(before@) ==> well_ordered(after@)
            &&& well_ordered(before@) && result is Ok ==> result.unwrap()@ % PAGE_SIZE == 0
                && frame_is_free(before@, result.unwrap()@) && !frame_is_free(after@, result.unwrap()@)
        },
{
    match allocator {
        None => Err(FrameError::MemoryMapUnavailable),
        Some(frames) => frames.allocate(),
    }
}

/// Returns a frame to the allocator.
pub fn release(allocator: &mut Option<FrameAllocator>, frame: FrameAddress) -> (result: Result<(), FrameError>)
    requires
        old(allocator).is_some() ==> old(allocator).unwrap().spec_free_frames() < u64::MAX,
    ensures
        old(allocator).is_none() ==> result == Err::<(), FrameError>(FrameError::MemoryMapUnavailable)
            && final(allocator).is_none(),
        old(allocator).is_some() ==> {
            let before = old(allocator).unwrap();
            let after = final(allocator).unwrap();
            &&& final(allocator).is_some()
            &&& after.spec_total_frames() == before.spec_total_frames()
            &&& result == release_result(before@, frame@)
            &&& after.spec_handed_out() == before.spec_handed_out() - if result is Ok { 1int } else { 0int }
            &&& result is Ok ==> after@ == released_ranges(before@, frame@)
            &&& result is Err ==> after@ == before@
            &&& well_ordered(before@) && frame@ + PAGE_SIZE <= u64::MAX ==> well_ordered(after@)
            &&& well_ordered(before@) && result is Ok ==> frame_is_free(after@, frame@)
            &&& well_ordered(before@) && frame_is_free(before@, frame@) ==> result == Err::<(), FrameError>(FrameError::InvalidAddress)
        },
{
    match allocator {
        None => Err(FrameError::MemoryMapUnavailable),
        Some(frames) => frames.release(frame),
    }
}

/// The allocator's counters, once it is initialized.
pub fn stats(allocator: &Option<FrameAllocator>) -> (stats: Option<FrameStats>)
    ensures
        allocator.is_none() ==> stats.is_none(),
        allocator.is_some() ==> stats.is_some() && stats.unwrap().total_frames == allocator.unwrap().spec_total_frames()
            && stats.unwrap().free_frames == allocator.unwrap().spec_free_frames()
            && stats.unwrap().free_ranges == allocator.unwrap()@.len()
            && stats.unwrap().free_frames + allocator.unwrap().spec_handed_out() == stats.unwrap().total_frames,
{
    match allocator {
        None => None,
        Some(frames) => Some(frames.stats()),
    }
}

} // verus!

verus! {

/// The exclusive end of a run, as an integer.
pub open spec fn run_end(r: FreeRange) -> int {
    r.start + r.frames * PAGE_SIZE
}

/// Whether the run `r` holds the frame at `address`.
pub open spec fn covers(r: FreeRange, address: u64) -> bool {
    r.start <= address && address < run_end(r) && address % PAGE_SIZE == 0
}

/// Whether the frame at `address` is free in `v`.
pub open spec fn frame_is_free(v: Seq<FreeRange>, address: u64) -> bool {
    exists|i: int| 0 <= i < v.len() && covers(#[trigger] v[i], address)
}

/// A free list whose runs are frame-aligned, non-empty, end inside the
/// address space, and are sorted by address without overlapping.
pub open spec fn well_ordered(v: Seq<FreeRange>) -> bool {
    &&& forall|i: int|
        0 <= i < v.len() ==> {
            &&& (#[trigger] v[i]).start % PAGE_SIZE == 0
            &&& v[i].frames >= 1
            &&& run_end(v[i]) <= u64::MAX
        }
    &&& forall|i: int, j: int| 0 <= i < j < v.len() ==> run_end(#[trigger] v[i]) <= (#[trigger] v[j]).start
}

proof fn lemma_insertion_index(v: Seq<FreeRange>, address: u64)
    ensures
        0 <= insertion_index(v, address) <= v.len(),
        forall|j: int| 0 <= j < insertion_index(v, address) ==> (#[trigger] v[j]).start < address,
        insertion_index(v, address) < v.len() ==> v[insertion_index(v, address)].start >= address,
    decreases v.len(),
{
    if v.len() > 0 && v[0].start < address {
        lemma_insertion_index(v.skip(1), address);
        assert forall|j: int| 0 <= j < insertion_index(v, address) implies (#[trigger] v[j]).start < address by {
            if j > 0 {
                assert(v[j] == v.skip(1)[j - 1]);
            }
        }
    }
}

proof fn lemma_free_concat(x: Seq<FreeRange>, y: Seq<FreeRange>, address: u64)
    ensures
        frame_is_free(x + y, address) == (frame_is_free(x, address) || frame_is_free(y, address)),
{
    let z = x + y;
    if frame_is_free(z, address) {
        let k = choose|k: int| 0 <= k < z.len() && covers(#[trigger] z[k], address);
        if k < x.len() {
            assert(x[k] == z[k]);
        } else {
            assert(y[k - x.len()] == z[k]);
        }
    }
    if frame_is_free(x, address) {
        let k = choose|k: int| 0 <= k < x.len() && covers(#[trigger] x[k], address);
        assert(z[k] == x[k]);
    }
    if frame_is_free(y, address) {
        let k = choose|k: int| 0 <= k < y.len() && covers(#[trigger] y[k], address);
        assert(z[k + x.len()] == y[k]);
    }
}

proof fn lemma_free_single(r: FreeRange, address: u64)
    ensures
        frame_is_free(seq![r], address) == covers(r, address),
{
    if covers(r, address) {
        assert(seq![r][0] == r);
    }
}

proof fn lemma_free_three(x: Seq<FreeRange>, r: FreeRange, y: Seq<FreeRange>, address: u64)
    ensures
        frame_is_free(x + seq![r] + y, address) == (frame_is_free(x, address) || covers(r, address)
            || frame_is_free(y, address)),
{
    lemma_free_concat(x + seq![r], y, address);
    lemma_free_concat(x, seq![r], address);
    lemma_free_single(r, address);
}

/// Releasing a frame that is already free is refused.
pub proof fn double_release_is_refused(v: Seq<FreeRange>, address: u64)
    requires
        well_ordered(v),
        frame_is_free(v, address),
    ensures
        release_result(v, address) == Err::<(), FrameError>(FrameError::InvalidAddress),
{
    let k = choose|k: int| 0 <= k < v.len() && covers(#[trigger] v[k], address);
    let i = insertion_index(v, address);
    lemma_insertion_index(v, address);
    assert(v[k].start % PAGE_SIZE == 0 && v[k].frames >= 1 && run_end(v[k]) <= u64::MAX);
    if k < i {
        assert(v[k].start < address);
        if k < i - 1 {
            assert(run_end(v[k]) <= v[i - 1].start);
            assert(v[i - 1].start < address);
        }
        assert(k == i - 1);
        assert(v[i - 1].spec_end() == run_end(v[i - 1]));
    } else {
        if k > i {
            assert(run_end(v[i]) <= v[k].start);
            assert(v[i].frames >= 1);
        }
        assert(v[i].start == address);
    }
}

/// An accepted release makes exactly the released frame free.
pub proof fn release_frees_exactly_the_frame(v: Seq<FreeRange>, address: u64, other: u64)
    requires
        well_ordered(v),
        release_result(v, address) is Ok,
    ensures
        frame_is_free(released_ranges(v, address), address),
        other != address ==> frame_is_free(released_ranges(v, address), other) == frame_is_free(v, other),
{
    let i = insertion_index(v, address);
    lemma_insertion_index(v, address);
    let w = released_ranges(v, address);
    if i > 0 && v[i - 1].spec_end() == address {
        let p = v[i - 1];
        assert(p.start % PAGE_SIZE == 0 && p.frames >= 1 && run_end(p) <= u64::MAX);
        assert(p.spec_end() == run_end(p));
        let grown = FreeRange { start: p.start, frames: (p.frames + 1) as u64 };
        assert(run_end(grown) == address + PAGE_SIZE);
        if i < v.len() && grown.spec_end() == v[i].start {
            let n = v[i];
            assert(n.start % PAGE_SIZE == 0 && n.frames >= 1 && run_end(n) <= u64::MAX);
            let merged = FreeRange { start: grown.start, frames: (grown.frames + n.frames) as u64 };
            assert(w =~= v.take(i - 1) + seq![merged] + v.skip(i + 1));
            assert(v =~= v.take(i - 1) + seq![p] + (seq![n] + v.skip(i + 1)));
            assert(seq![n] + v.skip(i + 1) =~= seq![n] + v.skip(i + 1));
            lemma_free_three(v.take(i - 1), merged, v.skip(i + 1), address);
            lemma_free_three(v.take(i - 1), merged, v.skip(i + 1), other);
            lemma_free_three(v.take(i - 1), p, seq![n] + v.skip(i + 1), other);
            lemma_free_concat(seq![n], v.skip(i + 1), other);
            lemma_free_single(n, other);
        } else {
            assert(w =~= v.take(i - 1) + seq![grown] + v.skip(i));
            assert(v =~= v.take(i - 1) + seq![p] + v.skip(i));
            lemma_free_three(v.take(i - 1), grown, v.skip(i), address);
            lemma_free_three(v.take(i - 1), grown, v.skip(i), other);
            lemma_free_three(v.take(i - 1), p, v.skip(i), other);
        }
    } else if i < v.len() && saturate(address + PAGE_SIZE) == v[i].start {
        let n = v[i];
        assert(n.start % PAGE_SIZE == 0 && n.frames >= 1 && run_end(n) <= u64::MAX);
        let extended = FreeRange { start: address, frames: (n.frames + 1) as u64 };
        assert(w =~= v.take(i) + seq![extended] + v.skip(i + 1));
        assert(v =~= v.take(i) + seq![n] + v.skip(i + 1));
        lemma_free_three(v.take(i), extended, v.skip(i + 1), address);
        lemma_free_three(v.take(i), extended, v.skip(i + 1), other);
        lemma_free_three(v.take(i), n, v.skip(i + 1), other);
    } else {
        let single = FreeRange { start: address, frames: 1 };
        assert(w =~= v.take(i) + seq![single] + v.skip(i));
        assert(v =~= v.take(i) + v.skip(i));
        lemma_free_three(v.take(i), single, v.skip(i), address);
        lemma_free_three(v.take(i), single, v.skip(i), other);
        lemma_free_concat(v.take(i), v.skip(i), other);
    }
}

} // verus!

verus! {

/// Allocation hands out a free frame, and only that frame stops being free.
pub proof fn allocation_takes_exactly_one_free_frame(v: Seq<FreeRange>, other: u64)
    requires
        well_ordered(v),
        v.len() > 0,
    ensures
        frame_is_free(v, v[0].start),
        !frame_is_free(after_allocation(v), v[0].start),
        other != v[0].start ==> frame_is_free(after_allocation(v), other) == frame_is_free(v, other),
{
    let f = v[0];
    let a = f.start;
    assert(f.start % PAGE_SIZE == 0 && f.frames >= 1 && run_end(f) <= u64::MAX);
    assert(covers(v[0], a));
    let w = after_allocation(v);
    assert(v =~= v.take(0) + seq![f] + v.skip(1));
    assert(v.take(0) =~= Seq::<FreeRange>::empty());
    assert(!frame_is_free(v.skip(1), a)) by {
        if frame_is_free(v.skip(1), a) {
            let k = choose|k: int| 0 <= k < v.skip(1).len() && covers(#[trigger] v.skip(1)[k], a);
            assert(v.skip(1)[k] == v[k + 1]);
            assert(run_end(v[0]) <= v[k + 1].start);
        }
    }
    lemma_free_three(v.take(0), f, v.skip(1), a);
    lemma_free_three(v.take(0), f, v.skip(1), other);
    if f.frames == 1 {
        assert(w =~= v.skip(1));
    } else {
        let shrunk = FreeRange { start: saturate(f.start + PAGE_SIZE), frames: (f.frames - 1) as u64 };
        assert(shrunk.start == f.start + PAGE_SIZE);
        assert(w =~= v.take(0) + seq![shrunk] + v.skip(1));
        lemma_free_three(v.take(0), shrunk, v.skip(1), a);
        lemma_free_three(v.take(0), shrunk, v.skip(1), other);
    }
}

/// Allocation keeps a well-ordered free list well ordered.
pub proof fn allocation_keeps_the_list_well_ordered(v: Seq<FreeRange>)
    requires
        well_ordered(v),
        v.len() > 0,
    ensures
        well_ordered(after_allocation(v)),
{
    let f = v[0];
    assert(f.start % PAGE_SIZE == 0 && f.frames >= 1 && run_end(f) <= u64::MAX);
    let w = after_allocation(v);
    if f.frames == 1 {
        assert forall|i: int, j: int| 0 <= i < j < w.len() implies run_end(#[trigger] w[i]) <= (#[trigger] w[j]).start by {
            assert(w[i] == v[i + 1] && w[j] == v[j + 1]);
        }
        assert forall|i: int| 0 <= i < w.len() implies {
            &&& (#[trigger] w[i]).start % PAGE_SIZE == 0
            &&& w[i].frames >= 1
            &&& run_end(w[i]) <= u64::MAX
        } by {
            assert(w[i] == v[i + 1]);
        }
    } else {
        let shrunk = FreeRange { start: saturate(f.start + PAGE_SIZE), frames: (f.frames - 1) as u64 };
        assert(shrunk.start == f.start + PAGE_SIZE);
        assert(run_end(shrunk) == run_end(f));
        assert forall|i: int, j: int| 0 <= i < j < w.len() implies run_end(#[trigger] w[i]) <= (#[trigger] w[j]).start by {
            assert(run_end(v[i]) <= v[j].start);
        }
    }
}

/// An accepted release keeps a well-ordered free list well ordered, for every
/// frame but the last one of the address space.
pub proof fn release_keeps_the_list_well_ordered(v: Seq<FreeRange>, address: u64)
    requires
        well_ordered(v),
        release_result(v, address) is Ok,
        address + PAGE_SIZE <= u64::MAX,
    ensures
        well_ordered(released_ranges(v, address)),
{
    let i = insertion_index(v, address);
    lemma_insertion_index(v, address);
    let w = released_ranges(v, address);
    assert forall|k: int| 0 <= k < v.len() implies v[k].spec_end() == run_end(v[k]) by {
        assert(run_end(v[k]) <= u64::MAX);
    }
    if i > 0 && v[i - 1].spec_end() == address {
        let p = v[i - 1];
        let grown = FreeRange { start: p.start, frames: (p.frames + 1) as u64 };
        assert(run_end(grown) == address + PAGE_SIZE);
        if i < v.len() && grown.spec_end() == v[i].start {
            let n = v[i];
            let merged = FreeRange { start: grown.start, frames: (grown.frames + n.frames) as u64 };
            assert(run_end(merged) == run_end(n));
            assert(w =~= v.update(i - 1, merged).remove(i));
            assert forall|a: int, b: int| 0 <= a < b < w.len() implies run_end(#[trigger] w[a]) <= (#[trigger] w[b]).start by {
                let va = if a < i - 1 { v[a] } else if a == i - 1 { merged } else { v[a + 1] };
                let vb = if b < i - 1 { v[b] } else if b == i - 1 { merged } else { v[b + 1] };
                assert(w[a] == va && w[b] == vb);
                if a == i - 1 {
                    assert(run_end(v[i]) <= v[b + 1].start);
                } else if b == i - 1 {
                    assert(run_end(v[a]) <= v[i - 1].start);
                } else if a < i - 1 && b > i - 1 {
                    assert(run_end(v[a]) <= v[b + 1].start);
                } else if a > i - 1 {
                    assert(run_end(v[a + 1]) <= v[b + 1].start);
                }
            }
            assert forall|a: int| 0 <= a < w.len() implies {
                &&& (#[trigger] w[a]).start % PAGE_SIZE == 0
                &&& w[a].frames >= 1
                &&& run_end(w[a]) <= u64::MAX
            } by {
                if a < i - 1 {
                    assert(w[a] == v[a]);
                } else if a > i - 1 {
                    assert(w[a] == v[a + 1]);
                }
            }
        } else {
            assert(w =~= v.update(i - 1, grown));
            if i < v.len() {
                assert(saturate(address + PAGE_SIZE) <= v[i].start);
            }
            assert forall|a: int, b: int| 0 <= a < b < w.len() implies run_end(#[trigger] w[a]) <= (#[trigger] w[b]).start by {
                if b == i - 1 {
                    assert(run_end(v[a]) <= v[i - 1].start);
                } else if a == i - 1 {
                    if b > i {
                        assert(run_end(v[i]) <= v[b].start);
                        assert(v[i].frames >= 1);
                    }
                } else {
                    assert(run_end(v[a]) <= v[b].start);
                }
            }
        }
    } else if i < v.len() && saturate(address + PAGE_SIZE) == v[i].start {
        let n = v[i];
        let extended = FreeRange { start: address, frames: (n.frames + 1) as u64 };
        assert(run_end(extended) == run_end(n));
        assert(w =~= v.update(i, extended));
        assert forall|a: int, b: int| 0 <= a < b < w.len() implies run_end(#[trigger] w[a]) <= (#[trigger] w[b]).start by {
            if b == i {
                if a < i - 1 {
                    assert(run_end(v[a]) <= v[i - 1].start);
                    assert(v[i - 1].frames >= 1);
                }
            } else if a == i {
                assert(run_end(v[i]) <= v[b].start);
            } else {
                assert(run_end(v[a]) <= v[b].start);
            }
        }
    } else {
        let single = FreeRange { start: address, frames: 1 };
        assert(w =~= v.insert(i, single));
        assert forall|a: int, b: int| 0 <= a < b < w.len() implies run_end(#[trigger] w[a]) <= (#[trigger] w[b]).start by {
            let va = if a < i { v[a] } else if a == i { single } else { v[a - 1] };
            let vb = if b < i { v[b] } else if b == i { single } else { v[b - 1] };
            assert(w[a] == va && w[b] == vb);
            if b == i {
                if a < i - 1 {
                    assert(run_end(v[a]) <= v[i - 1].start);
                    assert(v[i - 1].frames >= 1);
                }
            } else if a == i {
                if b > i + 1 {
                    assert(run_end(v[i]) <= v[b - 1].start);
                    assert(v[i].frames >= 1);
                }
            } else if a < i && b > i {
                assert(run_end(v[a]) <= v[b - 1].start);
            } else if a > i {
                assert(run_end(v[a - 1]) <= v[b - 1].start);
            } else {
                assert(run_end(v[a]) <= v[b].start);
            }
        }
        assert forall|a: int| 0 <= a < w.len() implies {
            &&& (#[trigger] w[a]).start % PAGE_SIZE == 0
            &&& w[a].frames >= 1
            &&& run_end(w[a]) <= u64::MAX
        } by {
            if a < i {
                assert(w[a] == v[a]);
            } else if a > i {
                assert(w[a] == v[a - 1]);
            }
        }
    }
}

/// Releasing the frame that allocation just handed out is accepted and
/// restores exactly the free frames there were before.
pub proof fn release_undoes_allocation(v: Seq<FreeRange>, other: u64)
    requires
        well_ordered(v),
        v.len() > 0,
        v.len() <= MAX_FREE_RANGES,
    ensures
        release_result(after_allocation(v), v[0].start) is Ok,
        frame_is_free(released_ranges(after_allocation(v), v[0].start), other) == frame_is_free(v, other),
{
    let a = v[0].start;
    let f = v[0];
    let w = after_allocation(v);
    assert(f.start % PAGE_SIZE == 0 && f.frames >= 1 && run_end(f) <= u64::MAX);
    allocation_keeps_the_list_well_ordered(v);
    allocation_takes_exactly_one_free_frame(v, other);
    assert forall|k: int| 0 <= k < w.len() implies (#[trigger] w[k]).start >= a + PAGE_SIZE by {
        if f.frames == 1 {
            assert(w[k] == v[k + 1]);
            assert(run_end(v[0]) <= v[k + 1].start);
        } else if k > 0 {
            assert(w[k] == v[k]);
            assert(run_end(v[0]) <= v[k].start);
        }
    }
    lemma_insertion_index(w, a);
    if w.len() > 0 {
        assert(w[0].start >= a);
    }
    assert(insertion_index(w, a) == 0);
    if w.len() == MAX_FREE_RANGES {
        assert(f.frames != 1);
        assert(w[0].start == a + PAGE_SIZE);
    }
    assert(release_result(w, a) is Ok);
    release_frees_exactly_the_frame(w, a, other);
}

/// Whether the usable ranges of a memory map that hold a whole frame start
/// frame-aligned, end inside the address space, and come in ascending
/// address order without overlapping.
pub open spec fn usable_ranges_ordered(s: Seq<MemoryRange>) -> bool {
    &&& forall|i: int|
        0 <= i < s.len() && contributes(#[trigger] s[i]) ==> s[i].start % PAGE_SIZE == 0 && s[i].start + s[i].length
            <= u64::MAX
    &&& forall|i: int, j: int|
        0 <= i < j < s.len() && contributes(#[trigger] s[i]) && contributes(#[trigger] s[j]) ==> s[i].start
            + s[i].length <= s[j].start
}

/// Whether `r` is the run of one of the usable ranges of `s`.
pub open spec fn run_of_map(s: Seq<MemoryRange>, r: FreeRange) -> bool {
    exists|j: int| 0 <= j < s.len() && contributes(#[trigger] s[j]) && r == usable_run(s[j])
}

/// The free list built from a map whose usable ranges are ordered is well
/// ordered, and each of its runs is the run of a usable range.
proof fn lemma_initial_free_list_ordered(s: Seq<MemoryRange>)
    requires
        usable_ranges_ordered(s),
    ensures
        well_ordered(initial_free_list(s)),
        forall|x: int| 0 <= x < initial_free_list(s).len() ==> run_of_map(s, #[trigger] initial_free_list(s)[x]),
    decreases s.len(),
{
    if s.len() > 0 {
        let t = s.drop_last();
        assert forall|i: int| 0 <= i < t.len() implies #[trigger] t[i] == s[i] by {}
        assert(usable_ranges_ordered(t)) by {
            assert forall|i: int, j: int|
                0 <= i < j < t.len() && contributes(#[trigger] t[i]) && contributes(#[trigger] t[j]) implies t[i].start
                + t[i].length <= t[j].start by {
                assert(t[i] == s[i] && t[j] == s[j]);
            }
        }
        lemma_initial_free_list_ordered(t);
        let p = initial_free_list(t);
        let last = s.last();
        assert(last == s[s.len() - 1]);
        if contributes(last) && p.len() < MAX_FREE_RANGES {
            let r = usable_run(last);
            let w = p.push(r);
            assert(w == initial_free_list(s));
            let q = last.length / PAGE_SIZE;
            assert(q * PAGE_SIZE <= last.length) by {
                vstd::arithmetic::div_mod::lemma_fundamental_div_mod(last.length as int, PAGE_SIZE as int);
            }
            assert(run_end(r) <= last.start + last.length);
            assert forall|x: int| 0 <= x < w.len() implies {
                &&& (#[trigger] w[x]).start % PAGE_SIZE == 0
                &&& w[x].frames >= 1
                &&& run_end(w[x]) <= u64::MAX
            } by {
                if x < p.len() {
                    assert(w[x] == p[x]);
                }
            }
            assert forall|x: int, y: int| 0 <= x < y < w.len() implies run_end(#[trigger] w[x]) <= (#[trigger] w[y]).start by {
                if y < p.len() {
                    assert(w[x] == p[x] && w[y] == p[y]);
                } else {
                    assert(w[x] == p[x]);
                    assert(run_of_map(t, p[x]));
                    let j = choose|j: int| 0 <= j < t.len() && contributes(#[trigger] t[j]) && p[x] == usable_run(t[j]);
                    assert(t[j] == s[j]);
                    let rj = s[j];
                    let qj = rj.length / PAGE_SIZE;
                    assert(qj * PAGE_SIZE <= rj.length) by {
                        vstd::arithmetic::div_mod::lemma_fundamental_div_mod(rj.length as int, PAGE_SIZE as int);
                    }
                    assert(contributes(s[j]) && contributes(s[s.len() - 1]));
                    assert(s[j].start + s[j].length <= s[s.len() - 1].start);
                }
            }
            assert forall|x: int| 0 <= x < w.len() implies run_of_map(s, #[trigger] w[x]) by {
                if x < p.len() {
                    assert(run_of_map(t, p[x]));
                    let j = choose|j: int| 0 <= j < t.len() && contributes(#[trigger] t[j]) && p[x] == usable_run(t[j]);
                    assert(t[j] == s[j]);
                    assert(w[x] == p[x]);
                } else {
                    assert(w[x] == usable_run(s[s.len() - 1]));
                }
            }
        } else {
            assert(p == initial_free_list(s));
            assert forall|x: int| 0 <= x < p.len() implies run_of_map(s, #[trigger] p[x]) by {
                assert(run_of_map(t, p[x]));
                let j = choose|j: int| 0 <= j < t.len() && contributes(#[trigger] t[j]) && p[x] == usable_run(t[j]);
                assert(t[j] == s[j]);
            }
        }
    }
}

/// Whether the frame at `address` shares a byte with the run `r`.
pub open spec fn frame_overlaps(r: FreeRange, address: u64) -> bool {
    r.start < address + PAGE_SIZE && address < run_end(r)
}

/// On a well-ordered free list, a release is refused as an invalid address
/// exactly when the address is not frame-aligned or the frame shares a byte
/// with a free run, and refused for want of storage only when the frame
/// touches no free run and every slot is in use.
pub proof fn release_refuses_exactly_misaligned_or_free_frames(v: Seq<FreeRange>, address: u64)
    requires
        well_ordered(v),
    ensures
        (release_result(v, address) == Err::<(), FrameError>(FrameError::InvalidAddress)) <==> (address % PAGE_SIZE != 0
            || exists|i: int| 0 <= i < v.len() && frame_overlaps(#[trigger] v[i], address)),
        release_result(v, address) == Err::<(), FrameError>(FrameError::FreeRangeStorageFull) ==> {
            &&& v.len() == MAX_FREE_RANGES
            &&& forall|i: int| 0 <= i < v.len() ==> run_end(#[trigger] v[i]) != address && v[i].start != address + PAGE_SIZE
        },
{
    let k = insertion_index(v, address);
    lemma_insertion_index(v, address);
    assert forall|j: int| 0 <= j < v.len() implies (#[trigger] v[j]).spec_end() == run_end(v[j]) by {
        assert(run_end(v[j]) <= u64::MAX);
    }
    if address % PAGE_SIZE == 0 {
        if exists|i: int| 0 <= i < v.len() && frame_overlaps(#[trigger] v[i], address) {
            let j = choose|i: int| 0 <= i < v.len() && frame_overlaps(#[trigger] v[i], address);
            if j < k {
                if j < k - 1 {
                    assert(run_end(v[j]) <= v[k - 1].start);
                }
                assert(v[k - 1].spec_end() > address);
            } else {
                if j > k {
                    assert(run_end(v[k]) <= v[j].start);
                    assert(v[k].frames >= 1);
                }
                assert(v[k].start < address + PAGE_SIZE);
                assert(saturate(address + PAGE_SIZE) > v[k].start);
            }
        } else {
            if k > 0 {
                assert(!frame_overlaps(v[k - 1], address));
            }
            if k < v.len() {
                assert(!frame_overlaps(v[k], address));
            }
        }
        if release_result(v, address) == Err::<(), FrameError>(FrameError::FreeRangeStorageFull) {
            assert forall|i: int| 0 <= i < v.len() implies run_end(#[trigger] v[i]) != address && v[i].start != address
                + PAGE_SIZE by {
                if i < k - 1 {
                    assert(run_end(v[i]) <= v[k - 1].start);
                } else if i > k {
                    assert(run_end(v[k]) <= v[i].start);
                    assert(v[k].frames >= 1);
                }
            }
        }
    }
}

/// Handing out a frame takes exactly one frame off the free count.
proof fn lemma_sum_after_allocation(v: Seq<FreeRange>)
    requires
        well_ordered(v),
        v.len() > 0,
    ensures
        sum_frames(after_allocation(v)) == sum_frames(v) - 1,
{
    let f = v[0];
    assert(f.frames >= 1);
    if f.frames == 1 {
        lemma_sum_frames_remove(v, 0);
    } else {
        lemma_sum_frames_update(v, 0, FreeRange { start: saturate(f.start + PAGE_SIZE), frames: (f.frames - 1) as u64 });
    }
}

/// An accepted release adds exactly one frame to the free count.
proof fn lemma_sum_after_release(v: Seq<FreeRange>, address: u64)
    requires
        well_ordered(v),
        release_result(v, address) is Ok,
    ensures
        sum_frames(released_ranges(v, address)) == sum_frames(v) + 1,
{
    let i = insertion_index(v, address);
    lemma_insertion_index(v, address);
    if i > 0 && v[i - 1].spec_end() == address {
        let p = v[i - 1];
        assert(run_end(p) <= u64::MAX && p.frames >= 1);
        let grown = FreeRange { start: p.start, frames: (p.frames + 1) as u64 };
        if i < v.len() && grown.spec_end() == v[i].start {
            let n = v[i];
            assert(run_end(n) <= u64::MAX);
            let merged = FreeRange { start: grown.start, frames: (grown.frames + n.frames) as u64 };
            lemma_sum_frames_update(v, i - 1, merged);
            lemma_sum_frames_remove(v.update(i - 1, merged), i);
        } else {
            lemma_sum_frames_update(v, i - 1, grown);
        }
    } else if i < v.len() && saturate(address + PAGE_SIZE) == v[i].start {
        let n = v[i];
        assert(run_end(n) <= u64::MAX && n.frames >= 1);
        lemma_sum_frames_update(v, i, FreeRange { start: address, frames: (n.frames + 1) as u64 });
    } else {
        lemma_sum_frames_insert(v, i, FreeRange { start: address, frames: 1 });
    }
}

/// Handing out a frame and taking it back is a round trip on a well-ordered
/// free list: the release is accepted, every frame is free again exactly
/// when it was before, the free count is back where it was, and releasing
/// the frame a second time is refused as an invalid address.
pub proof fn allocation_and_release_round_trip(v: Seq<FreeRange>)
    requires
        well_ordered(v),
        v.len() > 0,
        v.len() <= MAX_FREE_RANGES,
    ensures
        release_result(after_allocation(v), v[0].start) is Ok,
        forall|x: u64| #[trigger] frame_is_free(released_ranges(after_allocation(v), v[0].start), x) == frame_is_free(v, x),
        sum_frames(after_allocation(v)) == sum_frames(v) - 1,
        sum_frames(released_ranges(after_allocation(v), v[0].start)) == sum_frames(v),
        release_result(released_ranges(after_allocation(v), v[0].start), v[0].start) == Err::<(), FrameError>(FrameError::InvalidAddress),
{
    let a = v[0].start;
    let w = after_allocation(v);
    assert forall|x: u64| #[trigger] frame_is_free(released_ranges(w, a), x) == frame_is_free(v, x) by {
        release_undoes_allocation(v, x);
    }
    release_undoes_allocation(v, a);
    allocation_keeps_the_list_well_ordered(v);
    lemma_sum_after_allocation(v);
    lemma_sum_after_release(w, a);
    assert(run_end(v[0]) <= u64::MAX && v[0].frames >= 1);
    release_keeps_the_list_well_ordered(w, a);
    release_frees_exactly_the_frame(w, a, a);
    double_release_is_refused(released_ranges(w, a), a);
}

} // verus!
