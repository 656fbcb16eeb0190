use agnostos::allocator::{select_heap_region, HeapError};
use agnostos::memory::{MemoryDescriptor, UEFI_CONVENTIONAL, UEFI_LOADER_DATA};

fn descriptor(phys_start: u64, page_count: u64, ty: u32) -> MemoryDescriptor {
    MemoryDescriptor { phys_start, page_count, ty }
}

#[test]
fn the_largest_conventional_range_becomes_the_heap() {
    let region = select_heap_region(
        0,
        &[
            descriptor(0x1000, 2, UEFI_CONVENTIONAL),
            descriptor(0x10_0000, 100, UEFI_LOADER_DATA),
            descriptor(0x20_0000, 8, UEFI_CONVENTIONAL),
            descriptor(0x40_0000, 8, UEFI_CONVENTIONAL),
        ],
    )
    .unwrap();
    assert_eq!(region.start(), 0x20_0000);
    assert_eq!(region.size(), 8 * 4096);
}

#[test]
fn heap_selection_refuses_a_second_heap_and_a_map_without_free_memory() {
    assert_eq!(
        select_heap_region(4096, &[descriptor(0, 1, UEFI_CONVENTIONAL)]).map(|r| r.size()),
        Err(HeapError::AlreadyInitialized)
    );
    assert_eq!(
        select_heap_region(0, &[descriptor(0, 1, UEFI_LOADER_DATA)]).map(|r| r.size()),
        Err(HeapError::NoConventionalMemory)
    );
    assert_eq!(select_heap_region(0, &[]).map(|r| r.size()), Err(HeapError::NoConventionalMemory));
}

use agnostos::allocator::free_list::{FreeChunk, FreeList};
use agnostos::allocator::HeapRegion;

fn heap(start: u64, pages: u64) -> HeapRegion {
    select_heap_region(0, &[descriptor(start, pages, UEFI_CONVENTIONAL)]).unwrap()
}

fn table(pages: usize) -> Vec<FreeChunk> {
    vec![FreeChunk { start: 0, size: 0 }; pages * 4096 / 16]
}

fn chunks(list: &FreeList) -> Vec<(usize, usize)> {
    (0..list.len()).map(|i| {
        let c = list.chunk(i);
        (c.start, c.size)
    }).collect()
}

#[test]
fn a_new_free_list_holds_the_whole_region() {
    let mut slots = table(2);
    let list = FreeList::new(heap(0x10_0000, 2), &mut slots).unwrap();
    assert_eq!(chunks(&list), [(0x10_0000, 0x2000)]);
    let mut slots = table(1);
    assert_eq!(FreeList::new(heap(0x10_0004, 1), &mut slots).map(|l| l.len()), Err(HeapError::Misaligned));
}

#[test]
fn allocation_takes_the_first_fit_and_splits_it() {
    let mut slots = table(1);
    let mut list = FreeList::new(heap(0x1000, 1), &mut slots).unwrap();
    assert_eq!(list.allocate(100, 8), Some(0x1000));
    assert_eq!(chunks(&list), [(0x1000 + 104, 0x1000 - 104)]);
    assert_eq!(list.allocate(1, 1), Some(0x1000 + 104));
    assert_eq!(chunks(&list), [(0x1000 + 120, 0x1000 - 120)]);
    assert_eq!(list.allocate(0x100, 0x100), Some(0x1100));
    assert_eq!(chunks(&list), [(0x1200, 0xe00)]);
    assert_eq!(list.allocate(0x1000, 8), None);
}

#[test]
fn a_remainder_smaller_than_a_header_goes_with_the_allocation() {
    let mut slots = table(1);
    let mut list = FreeList::new(heap(0x1000, 1), &mut slots).unwrap();
    assert_eq!(list.allocate(0x1000 - 8, 8), Some(0x1000));
    assert_eq!(list.len(), 0);
    assert_eq!(list.allocate(16, 8), None);
}

#[test]
fn released_chunks_merge_with_their_neighbours() {
    let mut slots = table(1);
    let mut list = FreeList::new(heap(0x1000, 1), &mut slots).unwrap();
    let a = list.allocate(0x100, 8).unwrap();
    let b = list.allocate(0x100, 8).unwrap();
    let c = list.allocate(0x100, 8).unwrap();
    assert_eq!((a, b, c), (0x1000, 0x1100, 0x1200));
    assert!(list.may_release(a, 0x100));
    list.release(a, 0x100);
    assert_eq!(chunks(&list), [(0x1000, 0x100), (0x1300, 0xd00)]);
    assert!(!list.may_release(a, 0x100));
    list.release(c, 0x100);
    assert_eq!(chunks(&list), [(0x1000, 0x100), (0x1200, 0xe00)]);
    list.release(b, 0x100);
    assert_eq!(chunks(&list), [(0x1000, 0x1000)]);
}

#[test]
fn small_releases_count_as_a_header() {
    let mut slots = table(1);
    let mut list = FreeList::new(heap(0x1000, 1), &mut slots).unwrap();
    list.allocate(0x1000 - 8, 8).unwrap();
    list.release(0x1ff0, 1);
    assert_eq!(chunks(&list), [(0x1ff0, 16)]);
    assert_eq!(list.chunk(0), FreeChunk { start: 0x1ff0, size: 16 });
    assert!(!list.may_release(0x2000, 16));
    assert!(!list.may_release(0x1004, 16));
}

#[test]
fn every_released_block_is_recorded() {
    let mut slots = table(1);
    let mut list = FreeList::new(heap(0x10_0000, 1), &mut slots).unwrap();
    let blocks: Vec<usize> = (0..256).map(|_| list.allocate(16, 8).unwrap()).collect();
    assert_eq!(list.len(), 0);
    for block in blocks.iter().step_by(2) {
        assert!(list.may_release(*block, 16));
        list.release(*block, 16);
    }
    assert_eq!(list.len(), 128);
    for block in blocks.iter().skip(1).step_by(2) {
        list.release(*block, 16);
    }
    assert_eq!(chunks(&list), [(0x10_0000, 0x1000)]);
}

#[test]
fn free_chunks_stay_header_aligned() {
    let mut slots = table(1);
    let mut list = FreeList::new(heap(0x10_0000, 1), &mut slots).unwrap();
    assert_eq!(list.allocate(17, 1), Some(0x10_0000));
    assert_eq!(chunks(&list), [(0x10_0018, 0x1000 - 0x18)]);
    assert_eq!(list.allocate(3, 2), Some(0x10_0018));
    assert_eq!(chunks(&list), [(0x10_0028, 0x1000 - 0x28)]);
    list.release(0x10_0000, 17);
    assert_eq!(chunks(&list), [(0x10_0000, 0x18), (0x10_0028, 0x1000 - 0x28)]);
    list.release(0x10_0018, 3);
    assert_eq!(chunks(&list), [(0x10_0000, 0x1000)]);
}

#[test]
fn the_chunk_table_is_split_off_the_start_of_the_region() {
    let (table, entries, rest) = heap(0x10_0000, 1).split_off_table().unwrap();
    assert_eq!((table, entries), (0x10_0000, 128));
    assert_eq!((rest.start(), rest.size()), (0x10_0800, 0x800));
}

#[test]
fn a_region_ending_past_the_address_space_is_still_chosen() {
    let region = select_heap_region(0, &[descriptor(u64::MAX - 4095, 2, UEFI_CONVENTIONAL)]).unwrap();
    assert_eq!(region.start() as u64, u64::MAX - 4095);
    assert_eq!(region.size(), 2 * 4096);
}
