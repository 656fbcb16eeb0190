use agnostos::frame::{self, FrameAddress, FrameAllocator, FrameError};
use agnostos::memory::{MemoryDescriptor, MemoryMapSnapshot, MemoryRange, UEFI_CONVENTIONAL};
use agnostos::PAGE_SIZE;
use uefi::mem::memory_map::MemoryType;

fn usable(start: u64, frames: u64) -> MemoryRange {
    MemoryRange::new(start, frames * PAGE_SIZE, MemoryType::CONVENTIONAL.0)
}


#[test]
fn allocates_and_releases_frames() {
    let mut allocator = FrameAllocator::new(&[usable(0x1000, 3)]);
    assert_eq!(allocator.allocate().unwrap().address(), 0x1000);
    assert_eq!(allocator.allocate().unwrap().address(), 0x2000);
    assert_eq!(allocator.stats().free_frames, 1);
    allocator.release(FrameAddress(0x1000)).unwrap();
    assert_eq!(allocator.stats().free_frames, 2);
    assert_eq!(allocator.allocate().unwrap().address(), 0x1000);
}

#[test]
fn rejects_double_free_and_unaligned_addresses() {
    let mut allocator = FrameAllocator::new(&[usable(0x1000, 1)]);
    let frame = allocator.allocate().unwrap();
    allocator.release(frame).unwrap();
    assert_eq!(allocator.release(frame), Err(FrameError::InvalidAddress));
    assert_eq!(allocator.release(FrameAddress(0x1234)), Err(FrameError::InvalidAddress));
}

#[test]
fn skips_non_usable_ranges() {
    let reserved = MemoryRange::new(0, PAGE_SIZE, MemoryType::RESERVED.0);
    let mut allocator = FrameAllocator::new(&[reserved, usable(0x2000, 1)]);
    assert_eq!(allocator.stats().total_frames, 1);
    assert_eq!(allocator.allocate().unwrap().address(), 0x2000);
}

#[test]
fn frame_addresses_must_be_page_aligned() {
    assert_eq!(FrameAddress::new(0x3000), Some(FrameAddress(0x3000)));
    assert_eq!(FrameAddress::new(0x3001), None);
}

#[test]
fn allocation_runs_out_and_release_of_foreign_frames_is_refused() {
    let mut allocator = FrameAllocator::new(&[usable(0x1000, 1)]);
    let frame = allocator.allocate().unwrap();
    assert_eq!(allocator.allocate(), Err(FrameError::OutOfMemory));
    assert_eq!(allocator.stats().free_frames, 0);
    allocator.release(frame).unwrap();
    assert_eq!(allocator.stats().free_frames, 1);
    assert_eq!(allocator.stats().free_ranges, 1);
}

#[test]
fn released_neighbours_merge_back_into_one_range() {
    let mut allocator = FrameAllocator::new(&[usable(0x1000, 3)]);
    let a = allocator.allocate().unwrap();
    let b = allocator.allocate().unwrap();
    let c = allocator.allocate().unwrap();
    allocator.release(a).unwrap();
    allocator.release(c).unwrap();
    assert_eq!(allocator.stats().free_ranges, 2);
    allocator.release(b).unwrap();
    assert_eq!(allocator.stats().free_ranges, 1);
    assert_eq!(allocator.stats().free_frames, 3);
}

#[test]
fn a_partial_page_at_the_end_of_a_range_is_not_used() {
    let mut allocator = FrameAllocator::new(&[MemoryRange::new(0x1000, 0x2800, UEFI_CONVENTIONAL)]);
    assert_eq!(allocator.stats().total_frames, 2);
    assert_eq!(allocator.allocate().unwrap().address(), 0x1000);
    assert_eq!(allocator.allocate().unwrap().address(), 0x2000);
    assert_eq!(allocator.allocate(), Err(FrameError::OutOfMemory));
}

#[test]
fn the_kernel_allocator_is_set_up_once_from_the_memory_map() {
    let mut allocator = None;
    assert_eq!(frame::allocate(&mut allocator), Err(FrameError::MemoryMapUnavailable));
    assert_eq!(frame::stats(&allocator), None);
    assert_eq!(frame::initialize(&mut allocator, &None), Err(FrameError::MemoryMapUnavailable));
    let map = MemoryMapSnapshot::copy_from(&[MemoryDescriptor { phys_start: 0x1000, page_count: 2, ty: UEFI_CONVENTIONAL }])
        .unwrap();
    frame::initialize(&mut allocator, &Some(map)).unwrap();
    assert_eq!(frame::initialize(&mut allocator, &Some(map)), Err(FrameError::AlreadyInitialized));
    let frame = frame::allocate(&mut allocator).unwrap();
    assert_eq!(frame.address(), 0x1000);
    assert_eq!(frame::stats(&allocator).unwrap().free_frames, 1);
    frame::release(&mut allocator, frame).unwrap();
    assert_eq!(frame::stats(&allocator).unwrap().free_frames, 2);
}

#[test]
fn releasing_a_frame_that_is_still_free_is_refused() {
    let mut allocator = FrameAllocator::new(&[usable(0x1000, 4)]);
    assert_eq!(allocator.release(FrameAddress(0x2000)), Err(FrameError::InvalidAddress));
    assert_eq!(allocator.release(FrameAddress(0x4000)), Err(FrameError::InvalidAddress));
    assert_eq!(allocator.release(FrameAddress(0x2001)), Err(FrameError::InvalidAddress));
    assert_eq!(allocator.release(FrameAddress(0x6000)), Ok(()));
    assert_eq!(allocator.stats().free_frames, 5);
}
