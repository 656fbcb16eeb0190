//! x86_64 virtual-address layout, checked page ranges, and the bookkeeping
//! of the bootstrap page tables.

use vstd::prelude::*;

use crate::frame::{FrameAddress, FrameError};
use crate::memory::{MemoryKind, MemoryMapError};
use crate::PAGE_SIZE;

verus! {

pub const KERNEL_BASE: u64 = 0xffff_8000_0000_0000;
pub const HEAP_BASE: u64 = 0xffff_9000_0000_0000;
pub const FRAMEBUFFER_BASE: u64 = 0xffff_a000_0000_0000;
pub const MMIO_BASE: u64 = 0xffff_b000_0000_0000;
pub const STACK_BASE: u64 = 0xffff_c000_0000_0000;

/// Size of every region of the layout: one TiB.
pub const REGION_SIZE: u64 = 0x100_0000_0000;

pub const LOW_CANONICAL_MAX: u64 = 0x0000_7fff_ffff_ffff;
pub const HIGH_CANONICAL_MIN: u64 = 0xffff_8000_0000_0000;

/// Capacity of the arena of intermediate page tables.
pub const MAX_PAGE_TABLE_FRAMES: usize = 512;

/// The level-4 slot that maps the level-4 table onto itself.
pub const RECURSIVE_INDEX: u16 = 510;

#[derive(Clone, Copy, Debug, PartialEq, Eq, Structural)]
pub enum VirtualRangeError {
    Empty,
    Misaligned,
    NonCanonical,
    Overflow,
}

impl VirtualRangeError {
    /// The message under which the error is displayed.
    pub fn message(self) -> (message: &'static str)
        ensures
            self == VirtualRangeError::Empty ==> message@ == "virtual range is empty"@,
            self == VirtualRangeError::Misaligned ==> message@ == "virtual range is not page-aligned"@,
            self == VirtualRangeError::NonCanonical ==> message@ == "virtual range contains a non-canonical address"@,
            self == VirtualRangeError::Overflow ==> message@ == "virtual range overflows the address space"@,
    {
        match self {
            VirtualRangeError::Empty => "virtual range is empty",
            VirtualRangeError::Misaligned => "virtual range is not page-aligned",
            VirtualRangeError::NonCanonical => "virtual range contains a non-canonical address",
            VirtualRangeError::Overflow => "virtual range overflows the address space",
        }
    }
}

/// Whether `address` is a canonical x86_64 virtual address (48-bit, sign-extended).
pub open spec fn spec_is_canonical(address: u64) -> bool {
    address <= LOW_CANONICAL_MAX || address >= HIGH_CANONICAL_MIN
}

pub fn is_canonical(address: u64) -> (canonical: bool)
    ensures
        canonical == spec_is_canonical(address),
{
    address <= LOW_CANONICAL_MAX || address >= HIGH_CANONICAL_MIN
}

/// The outcome of checking a virtual range: it must be non-empty, page
/// aligned, not wrap, and hold canonical addresses only: both ends are
/// canonical and the range does not cross the hole between the low and the
/// high half.
pub open spec fn range_check(start: u64, length: u64) -> Result<(), VirtualRangeError> {
    if length == 0 {
        Err(VirtualRangeError::Empty)
    } else if start % PAGE_SIZE != 0 || length % PAGE_SIZE != 0 {
        Err(VirtualRangeError::Misaligned)
    } else if start + (length - 1) > u64::MAX {
        Err(VirtualRangeError::Overflow)
    } else if !spec_is_canonical(start) || !spec_is_canonical((start + (length - 1)) as u64)
        || (start <= LOW_CANONICAL_MAX && start + (length - 1) > LOW_CANONICAL_MAX) {
        Err(VirtualRangeError::NonCanonical)
    } else {
        Ok(())
    }
}

/// A checked, page-aligned, canonical range of virtual addresses.
#[derive(Clone, Copy, Debug, PartialEq, Eq, Structural)]
pub struct VirtualRange {
    start: u64,
    length: u64,
}

impl VirtualRange {
    #[verifier::type_invariant]
    spec fn inv(self) -> bool {
        range_check(self.start, self.length) is Ok
    }

    pub closed spec fn spec_start(self) -> u64 {
        self.start
    }

    pub closed spec fn spec_length(self) -> u64 {
        self.length
    }

    /// Checks a range; see [`range_check`].
    pub fn new(start: u64, length: u64) -> (result: Result<VirtualRange, VirtualRangeError>)
        ensures
            match result {
                Ok(range) => range_check(start, length) is Ok && range.spec_start() == start && range.spec_length() == length,
                Err(error) => range_check(start, length) == Err::<(), VirtualRangeError>(error),
            },
            result is Ok <==> (length > 0 && start % PAGE_SIZE == 0 && length % PAGE_SIZE == 0
                && start + (length - 1) <= u64::MAX
                && forall|address: u64| start <= address <= start + (length - 1) ==> #[trigger] spec_is_canonical(address)),
    {
        if length == 0 {
            return Err(VirtualRangeError::Empty);
        }
        if !start.is_multiple_of(PAGE_SIZE) || !length.is_multiple_of(PAGE_SIZE) {
            return Err(VirtualRangeError::Misaligned);
        }
        let end = match start.checked_add(length - 1) {
            Some(end) => end,
            None => return Err(VirtualRangeError::Overflow),
        };
        if !is_canonical(start) || !is_canonical(end) || (start <= LOW_CANONICAL_MAX && end > LOW_CANONICAL_MAX) {
            proof {
                if spec_is_canonical(start) && spec_is_canonical(end) {
                    let hole: u64 = (LOW_CANONICAL_MAX + 1) as u64;
                    assert(start <= hole <= start + (length - 1));
                    assert(!spec_is_canonical(hole));
                }
            }
            return Err(VirtualRangeError::NonCanonical);
        }
        Ok(VirtualRange { start, length })
    }

    pub fn start(self) -> (start: u64)
        ensures
            start == self.spec_start(),
            start % PAGE_SIZE == 0,
            spec_is_canonical(start),
    {
        proof { use_type_invariant(&self); }
        self.start
    }

    pub fn length(self) -> (length: u64)
        ensures
            length == self.spec_length(),
            length > 0,
            length % PAGE_SIZE == 0,
    {
        proof { use_type_invariant(&self); }
        self.length
    }

    /// The first address after the range.
    pub fn end_exclusive(self) -> (end: u64)
        requires
            self.spec_start() + self.spec_length() <= u64::MAX,
        ensures
            end == self.spec_start() + self.spec_length(),
    {
        self.start + self.length
    }
}

/// The named regions of the kernel's virtual address space.
#[derive(Clone, Copy, Debug, PartialEq, Eq, Structural)]
pub struct VirtualMemoryLayout {
    pub kernel: VirtualRange,
    pub heap: VirtualRange,
    pub framebuffer: VirtualRange,
    pub mmio: VirtualRange,
    pub stacks: VirtualRange,
}

/// A layout region: one TiB starting at `start`.
pub fn region(start: u64) -> (range: VirtualRange)
    requires
        range_check(start, REGION_SIZE) is Ok,
    ensures
        range.spec_start() == start,
        range.spec_length() == REGION_SIZE,
{
    VirtualRange::new(start, REGION_SIZE).unwrap()
}

impl VirtualMemoryLayout {
    /// The fixed layout: kernel, heap, framebuffer, MMIO and stacks, one TiB
    /// each, at their bases in the upper half.
    pub fn new() -> (layout: VirtualMemoryLayout)
        ensures
            layout.kernel.spec_start() == KERNEL_BASE && layout.kernel.spec_length() == REGION_SIZE,
            layout.heap.spec_start() == HEAP_BASE && layout.heap.spec_length() == REGION_SIZE,
            layout.framebuffer.spec_start() == FRAMEBUFFER_BASE && layout.framebuffer.spec_length() == REGION_SIZE,
            layout.mmio.spec_start() == MMIO_BASE && layout.mmio.spec_length() == REGION_SIZE,
            layout.stacks.spec_start() == STACK_BASE && layout.stacks.spec_length() == REGION_SIZE,
    {
        VirtualMemoryLayout {
            kernel: region(KERNEL_BASE),
            heap: region(HEAP_BASE),
            framebuffer: region(FRAMEBUFFER_BASE),
            mmio: region(MMIO_BASE),
            stacks: region(STACK_BASE),
        }
    }
}

#[derive(Clone, Copy, Debug, PartialEq, Eq, Structural)]
pub enum PagingError {
    AlreadyInitialized,
    NotInitialized,
    Frame(FrameError),
    MemoryMap(MemoryMapError),
    AddressTooLarge,
    InvalidPageTableSize,
    MappingFailed,
    UnmappingFailed,
    NotDeviceMemory,
    Range(VirtualRangeError),
}

/// Checks that `virtual_address` names one mappable 4 KiB page.
pub fn checked_page(virtual_address: u64) -> (result: Result<VirtualRange, PagingError>)
    ensures
        match result {
            Ok(range) => range_check(virtual_address, PAGE_SIZE) is Ok && range.spec_start() == virtual_address
                && range.spec_length() == PAGE_SIZE,
            Err(error) => match range_check(virtual_address, PAGE_SIZE) {
                Err(e) => error == PagingError::Range(e),
                Ok(_) => false,
            },
        },
{
    match VirtualRange::new(virtual_address, PAGE_SIZE) {
        Ok(range) => Ok(range),
        Err(error) => Err(PagingError::Range(error)),
    }
}

/// Checks a request to map one page: the virtual page must be valid and the
/// physical address frame-aligned.
pub fn checked_mapping(virtual_address: u64, physical_address: u64) -> (result: Result<VirtualRange, PagingError>)
    ensures
        match result {
            Ok(range) => range_check(virtual_address, PAGE_SIZE) is Ok && physical_address % PAGE_SIZE == 0
                && range.spec_start() == virtual_address,
            Err(error) => match range_check(virtual_address, PAGE_SIZE) {
                Err(e) => error == PagingError::Range(e),
                Ok(_) => physical_address % PAGE_SIZE != 0 && error == PagingError::Range(VirtualRangeError::Misaligned),
            },
        },
{
    let range = checked_page(virtual_address)?;
    if !physical_address.is_multiple_of(PAGE_SIZE) {
        return Err(PagingError::Range(VirtualRangeError::Misaligned));
    }
    Ok(range)
}

/// Checks a request to map one device page: the physical address must be
/// frame-aligned and classified as device memory by the memory map
/// (`kind` is the map's classification of it).
pub fn checked_device_page(physical_address: u64, kind: Option<MemoryKind>) -> (result: Result<(), PagingError>)
    ensures
        physical_address % PAGE_SIZE != 0 ==> result == Err::<(), PagingError>(PagingError::Range(VirtualRangeError::Misaligned)),
        physical_address % PAGE_SIZE == 0 && kind != Some(MemoryKind::Device) ==> result == Err::<(), PagingError>(PagingError::NotDeviceMemory),
        physical_address % PAGE_SIZE == 0 && kind == Some(MemoryKind::Device) ==> result is Ok,
{
    if !physical_address.is_multiple_of(PAGE_SIZE) {
        return Err(PagingError::Range(VirtualRangeError::Misaligned));
    }
    match kind {
        Some(MemoryKind::Device) => Ok(()),
        _ => Err(PagingError::NotDeviceMemory),
    }
}

/// The page-aligned span `[first, last)` that covers `[start, start + length)`:
/// the start rounded down and the end rounded up, an already aligned end
/// staying as it is.
pub fn page_span(start: u64, length: u64) -> (result: Result<(u64, u64), PagingError>)
    ensures
        match result {
            Ok((first, last)) => {
                &&& start + length <= u64::MAX
                &&& first == start - (start as int) % (PAGE_SIZE as int)
                &&& (start + length) % (PAGE_SIZE as int) == 0 ==> last == start + length
                &&& (start + length) % (PAGE_SIZE as int) != 0 ==> last == start + length - (start + length) % (PAGE_SIZE as int) + PAGE_SIZE
            },
            Err(error) => error == PagingError::AddressTooLarge && (start + length > u64::MAX
                || ((start + length) % (PAGE_SIZE as int) != 0 && start + length + PAGE_SIZE - 1 > u64::MAX)),
        },
{
    let end = match start.checked_add(length) {
        Some(end) => end,
        None => return Err(PagingError::AddressTooLarge),
    };
    let first = start / PAGE_SIZE * PAGE_SIZE;
    let last = if end.is_multiple_of(PAGE_SIZE) {
        end
    } else {
        match end.checked_add(PAGE_SIZE - 1) {
            Some(bumped) => bumped / PAGE_SIZE * PAGE_SIZE,
            None => return Err(PagingError::AddressTooLarge),
        }
    };
    Ok((first, last))
}

/// The identity window that maps `size` bytes at `start`: from the page
/// that holds `start` up to its end (the length saturates at zero).
pub fn identity_window(start: usize, size: usize) -> (result: Result<(u64, u64), PagingError>)
    ensures
        match result {
            Ok((first, length)) => {
                &&& start + size <= u64::MAX
                &&& first == start - (start as int) % (PAGE_SIZE as int)
                &&& length == start + size - first
            },
            Err(error) => error == PagingError::AddressTooLarge && start + size > u64::MAX,
        },
{
    let first = (start as u64) / PAGE_SIZE * PAGE_SIZE;
    let end = match (start as u64).checked_add(size as u64) {
        Some(end) => end,
        None => return Err(PagingError::AddressTooLarge),
    };
    Ok((first, end - first))
}

/// Pages kept mapped on either side of the boot stack's page.
pub const STACK_WINDOW_PAGES: u64 = 31;

/// The window mapped around the boot stack: `STACK_WINDOW_PAGES` pages
/// below the page holding `stack_address` (fewer near address zero) and
/// twice that many pages in all, leaving the pages past either end unmapped
/// as guards.
pub fn stack_window(stack_address: u64) -> (window: (u64, u64))
    ensures
        window.0 == (if stack_address - stack_address % PAGE_SIZE >= STACK_WINDOW_PAGES * PAGE_SIZE {
            stack_address - stack_address % PAGE_SIZE - STACK_WINDOW_PAGES * PAGE_SIZE
        } else {
            0
        }),
        window.1 == 2 * STACK_WINDOW_PAGES * PAGE_SIZE,
{
    let page = stack_address / PAGE_SIZE * PAGE_SIZE;
    (page.saturating_sub(STACK_WINDOW_PAGES * PAGE_SIZE), 2 * STACK_WINDOW_PAGES * PAGE_SIZE)
}

/// The virtual address at which the recursive slot exposes the level-4 table.
pub fn recursive_table_address() -> (address: u64)
    ensures
        address == 0xffff_ff7f_bfdf_e000u64,
{
    let index = RECURSIVE_INDEX as u64;
    let address = ((index << 39u64) | (index << 30u64) | (index << 21u64) | (index << 12u64)) | 0xffff_0000_0000_0000u64;
    assert(address == 0xffff_ff7f_bfdf_e000u64) by (bit_vector)
        requires
            index == 510u64,
            address == ((index << 39u64) | (index << 30u64) | (index << 21u64) | (index << 12u64)) | 0xffff_0000_0000_0000u64;
    address
}

/// What an owned physical frame is used for.
#[derive(Clone, Copy, Debug, PartialEq, Eq, Structural)]
pub enum FrameOwner {
    Heap,
    PageTable,
    KernelStack,
    Kernel,
}

/// A physical frame together with the reason it is allocated.
#[derive(Clone, Copy, Debug, PartialEq, Eq, Structural)]
pub struct OwnedFrame {
    frame: FrameAddress,
    owner: FrameOwner,
}

impl OwnedFrame {
    pub fn new(frame: FrameAddress, owner: FrameOwner) -> (owned: OwnedFrame)
        ensures
            owned.spec_address() == frame@,
            owned.spec_owner() == owner,
    {
        OwnedFrame { frame, owner }
    }

    pub closed spec fn spec_address(self) -> u64 {
        self.frame@
    }

    pub closed spec fn spec_owner(self) -> FrameOwner {
        self.owner
    }

    pub fn address(self) -> (address: u64)
        ensures
            address == self.spec_address(),
    {
        self.frame.address()
    }

    pub fn owner(self) -> (owner: FrameOwner)
        ensures
            owner == self.spec_owner(),
    {
        self.owner
    }
}

/// The owned frames of the intermediate page tables, in allocation order.
pub struct PageTableArena {
    frames: [Option<OwnedFrame>; MAX_PAGE_TABLE_FRAMES],
    addresses: [u64; MAX_PAGE_TABLE_FRAMES],
    count: usize,
}

impl View for PageTableArena {
    type V = Seq<u64>;

    /// The addresses of the retained tables.
    closed spec fn view(&self) -> Seq<u64> {
        self.addresses@.take(self.count as int)
    }
}

impl PageTableArena {
    #[verifier::type_invariant]
    spec fn inv(self) -> bool {
        self.count <= MAX_PAGE_TABLE_FRAMES
    }

    /// The retained frames, in retention order.
    pub closed spec fn frames(&self) -> Seq<Option<OwnedFrame>> {
        self.frames@.take(self.count as int)
    }

    /// An arena that retains no table.
    pub fn new() -> (arena: PageTableArena)
        ensures
            arena@ == Seq::<u64>::empty(),
            arena.frames() == Seq::<Option<OwnedFrame>>::empty(),
    {
        let arena = PageTableArena {
            frames: [None; MAX_PAGE_TABLE_FRAMES],
            addresses: [0u64; MAX_PAGE_TABLE_FRAMES],
            count: 0,
        };
        assert(arena@ =~= Seq::<u64>::empty());
        assert(arena.frames() =~= Seq::<Option<OwnedFrame>>::empty());
        arena
    }

    /// Retains `frame` as the next page table, unless the arena is full.
    pub fn retain(&mut self, frame: OwnedFrame) -> (retained: bool)
        ensures
            retained == (old(self)@.len() < MAX_PAGE_TABLE_FRAMES),
            retained ==> final(self)@ == old(self)@.push(frame.spec_address())
                && final(self).frames() == old(self).frames().push(Some(frame)),
            !retained ==> final(self)@ == old(self)@ && final(self).frames() == old(self).frames(),
    {
        proof { use_type_invariant(&*self); }
        if self.count == MAX_PAGE_TABLE_FRAMES {
            return false;
        }
        let mut frames = self.frames;
        let mut addresses = self.addresses;
        let count = self.count;
        frames[count] = Some(frame);
        addresses[count] = frame.address();
        *self = PageTableArena { frames, addresses, count: count + 1 };
        assert(self@ =~= old(self)@.push(frame.spec_address()));
        assert(self.frames() =~= old(self).frames().push(Some(frame)));
        true
    }

    /// How many tables are retained.
    pub fn count(&self) -> (count: usize)
        ensures
            count == self@.len(),
    {
        proof { use_type_invariant(self); }
        self.count
    }
}

/// The owned level-4 table and the intermediate tables below it.
pub struct PageTableRoot {
    frame: OwnedFrame,
    arena: PageTableArena,
}

impl PageTableRoot {
    pub fn new(frame: OwnedFrame, arena: PageTableArena) -> (root: PageTableRoot)
        ensures
            root.spec_frame() == frame,
            root.spec_children() == arena@,
    {
        PageTableRoot { frame, arena }
    }

    pub closed spec fn spec_frame(&self) -> OwnedFrame {
        self.frame
    }

    pub closed spec fn spec_children(&self) -> Seq<u64> {
        self.arena@
    }

    pub fn physical_address(&self) -> (address: u64)
        ensures
            address == self.spec_frame().spec_address(),
    {
        self.frame.address()
    }

    pub fn owner(&self) -> (owner: FrameOwner)
        ensures
            owner == self.spec_frame().spec_owner(),
    {
        self.frame.owner()
    }

    pub fn child_table_count(&self) -> (count: usize)
        ensures
            count == self.spec_children().len(),
    {
        self.arena.count()
    }

    /// The arena of intermediate tables, for the mapper to grow.
    pub fn arena_mut(&mut self) -> (arena: &mut PageTableArena)
        ensures
            arena@ == old(self).spec_children(),
            final(self).spec_frame() == old(self).spec_frame(),
            final(self).spec_children() == final(arena)@,
    {
        &mut self.arena
    }
}

} // verus!
