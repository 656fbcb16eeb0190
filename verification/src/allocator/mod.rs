//! Selection of the memory that backs the kernel heap.

use vstd::prelude::*;

use crate::memory::{MemoryDescriptor, UEFI_CONVENTIONAL};

pub mod free_list;

verus! {

/// Bytes per firmware page.
pub const FIRMWARE_PAGE_SIZE: usize = 4096;

/// An exclusively owned conventional-memory range selected for the kernel heap.
#[derive(Debug)]
pub struct HeapRegion {
    start: usize,
    size: usize,
}

impl HeapRegion {
    pub closed spec fn spec_start(&self) -> usize {
        self.start
    }

    pub closed spec fn spec_size(&self) -> usize {
        self.size
    }

    pub fn start(&self) -> (start: usize)
        ensures
            start == self.spec_start(),
    {
        self.start
    }

    pub fn size(&self) -> (size: usize)
        ensures
            size == self.spec_size(),
    {
        self.size
    }
}

/// The slots the free-chunk table of a region of `size` bytes needs once
/// the table itself is taken from the region: one per header-sized piece of
/// what is left.
pub open spec fn table_entries(size: usize) -> int {
    (size + 31) / 32
}

impl HeapRegion {
    /// Splits the free-chunk table off the start of the region: the table's
    /// address, its number of 16-byte slots, and the rest of the region as
    /// the heap, which the table has a slot for every 16 bytes of.  None
    /// when the region is too small to hold both, or the table's end is not
    /// an address.
    pub fn split_off_table(self) -> (result: Option<(usize, usize, HeapRegion)>)
        ensures
            match result {
                Some((table, entries, heap)) => {
                    &&& table == self.spec_start()
                    &&& entries == table_entries(self.spec_size())
                    &&& heap.spec_start() == self.spec_start() + entries * 16
                    &&& heap.spec_size() == self.spec_size() - entries * 16
                    &&& heap.spec_size() <= entries * 16
                },
                None => table_entries(self.spec_size()) * 16 > self.spec_size()
                    || self.spec_start() + table_entries(self.spec_size()) * 16 > usize::MAX,
            },
    {
        let entries = self.size / 32 + if self.size % 32 == 0 { 0 } else { 1 };
        assert(entries == table_entries(self.size)) by {
            vstd::arithmetic::div_mod::lemma_fundamental_div_mod(self.size as int, 32);
            vstd::arithmetic::div_mod::lemma_fundamental_div_mod(self.size + 31, 32);
        }
        assert(entries * 16 <= self.size + 16) by {
            vstd::arithmetic::div_mod::lemma_fundamental_div_mod(self.size as int, 32);
        }
        let bytes = entries * 16;
        if bytes > self.size {
            return None;
        }
        let heap_start = match self.start.checked_add(bytes) {
            Some(heap_start) => heap_start,
            None => return None,
        };
        assert(self.size - bytes <= bytes) by {
            vstd::arithmetic::div_mod::lemma_fundamental_div_mod(self.size as int, 32);
        }
        Some((self.start, entries, HeapRegion { start: heap_start, size: self.size - bytes }))
    }
}

#[derive(Clone, Copy, Debug, PartialEq, Eq, Structural)]
pub enum HeapError {
    AlreadyInitialized,
    NoConventionalMemory,
    TooSmall,
    Misaligned,
}

/// Whether descriptor `d` can back the heap: conventional memory whose
/// start and byte size fit in an address.
pub open spec fn usable_for_heap(d: MemoryDescriptor) -> bool {
    &&& d.ty == UEFI_CONVENTIONAL
    &&& d.page_count * FIRMWARE_PAGE_SIZE <= usize::MAX
    &&& d.phys_start <= usize::MAX
}

pub open spec fn heap_bytes(d: MemoryDescriptor) -> int {
    d.page_count * FIRMWARE_PAGE_SIZE
}

/// The largest usable descriptor among the first `k`, as (start, size);
/// the earliest one wins a tie, and (0, 0) means none.
pub open spec fn largest_among(ds: Seq<MemoryDescriptor>, k: int) -> (int, int)
    decreases k,
{
    if k <= 0 {
        (0, 0)
    } else {
        let best = largest_among(ds, k - 1);
        let d = ds[k - 1];
        if usable_for_heap(d) && heap_bytes(d) > best.1 {
            (d.phys_start as int, heap_bytes(d))
        } else {
            best
        }
    }
}

proof fn lemma_largest_bounded(ds: Seq<MemoryDescriptor>, k: int)
    ensures
        0 <= largest_among(ds, k).0 <= usize::MAX,
        0 <= largest_among(ds, k).1 <= usize::MAX,
    decreases k,
{
    if k > 0 {
        lemma_largest_bounded(ds, k - 1);
    }
}

/// Picks the largest conventional-memory range of the firmware map for the
/// heap, unless a heap was already set up (`current_heap_size` is non-zero).
pub fn select_heap_region(current_heap_size: usize, descriptors: &[MemoryDescriptor]) -> (result: Result<HeapRegion, HeapError>)
    ensures
        current_heap_size != 0 ==> result == Err::<HeapRegion, HeapError>(HeapError::AlreadyInitialized),
        current_heap_size == 0 ==> ({
            let best = largest_among(descriptors@, descriptors@.len() as int);
            match result {
                Ok(region) => best.1 > 0 && region.spec_start() == best.0 && region.spec_size() == best.1,
                Err(error) => best.1 == 0 && error == HeapError::NoConventionalMemory,
            }
        }),
{
    if current_heap_size != 0 {
        return Err(HeapError::AlreadyInitialized);
    }
    let mut heap_start: usize = 0;
    let mut heap_size: usize = 0;
    let mut i: usize = 0;
    while i < descriptors.len()
        invariant
            i <= descriptors@.len(),
            (heap_start as int, heap_size as int) == largest_among(descriptors@, i as int),
        decreases descriptors@.len() - i,
    {
        let descriptor = descriptors[i];
        if descriptor.ty == UEFI_CONVENTIONAL && descriptor.page_count <= usize::MAX as u64
            && descriptor.phys_start <= usize::MAX as u64 {
            let page_count = descriptor.page_count as usize;
            if let Some(size) = page_count.checked_mul(FIRMWARE_PAGE_SIZE) {
                let start = descriptor.phys_start as usize;
                if size > heap_size {
                    heap_start = start;
                    heap_size = size;
                }
            }
        }
        i += 1;
    }
    if heap_size == 0 {
        return Err(HeapError::NoConventionalMemory);
    }
    Ok(HeapRegion { start: heap_start, size: heap_size })
}

} // verus!
