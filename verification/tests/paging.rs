use agnostos::paging::{
    checked_device_page, checked_mapping, checked_page, is_canonical, page_span, recursive_table_address, region,
    PagingError, VirtualMemoryLayout, VirtualRange, VirtualRangeError, HEAP_BASE, REGION_SIZE,
};
use agnostos::memory::MemoryKind;
use agnostos::PAGE_SIZE;

#[test]
fn exact_page_ranges_do_not_round_into_an_extra_page() {
    let end: u64 = 0x20_000;
    let rounded = if end % PAGE_SIZE == 0 {
        end
    } else {
        (end + PAGE_SIZE - 1) / PAGE_SIZE * PAGE_SIZE
    };
    assert_eq!(rounded, end);
    assert_eq!(page_span(0x10_000, 0x10_000), Ok((0x10_000, 0x20_000)));
}

#[test]
fn layout_regions_are_canonical_and_page_aligned() {
    let layout = VirtualMemoryLayout::new();
    for range in [layout.kernel, layout.heap, layout.framebuffer, layout.mmio, layout.stacks] {
        assert_eq!(range.start() % PAGE_SIZE, 0);
        assert_eq!(range.length() % PAGE_SIZE, 0);
        assert!(range.end_exclusive() > range.start());
    }
}

#[test]
fn virtual_ranges_reject_bad_addresses() {
    assert_eq!(VirtualRange::new(1, PAGE_SIZE), Err(VirtualRangeError::Misaligned));
    assert_eq!(
        VirtualRange::new(0x0000_8000_0000_0000, PAGE_SIZE),
        Err(VirtualRangeError::NonCanonical)
    );
}

#[test]
fn virtual_range_errors_cover_empty_overflow_and_messages() {
    assert_eq!(VirtualRange::new(0x1000, 0), Err(VirtualRangeError::Empty));
    assert_eq!(VirtualRange::new(0x1000, 0x123), Err(VirtualRangeError::Misaligned));
    assert_eq!(VirtualRange::new(0xffff_ffff_ffff_f000, 0x2000), Err(VirtualRangeError::Overflow));
    assert_eq!(VirtualRange::new(0x0000_7fff_ffff_f000, 0x2000), Err(VirtualRangeError::NonCanonical));
    let range = VirtualRange::new(0x1000, 0x2000).unwrap();
    assert_eq!(range.end_exclusive(), 0x3000);
    assert!(!VirtualRangeError::Empty.message().is_empty());
}

#[test]
fn canonical_addresses_are_the_low_and_high_halves() {
    assert!(is_canonical(0));
    assert!(is_canonical(0x0000_7fff_ffff_ffff));
    assert!(!is_canonical(0x0000_8000_0000_0000));
    assert!(!is_canonical(0xffff_7fff_ffff_ffff));
    assert!(is_canonical(0xffff_8000_0000_0000));
    assert!(is_canonical(u64::MAX));
}

#[test]
fn regions_span_a_fixed_size() {
    let heap = region(HEAP_BASE);
    assert_eq!(heap.start(), HEAP_BASE);
    assert_eq!(heap.length(), REGION_SIZE);
}

#[test]
fn page_checks_refuse_bad_pages_and_non_device_memory() {
    assert!(checked_page(0x2000).is_ok());
    assert_eq!(checked_page(0x2001), Err(PagingError::Range(VirtualRangeError::Misaligned)));
    assert_eq!(
        checked_mapping(0x2000, 0x3001),
        Err(PagingError::Range(VirtualRangeError::Misaligned))
    );
    assert!(checked_mapping(0x2000, 0x3000).is_ok());
    assert_eq!(checked_device_page(0xfee0_0000, Some(MemoryKind::Device)), Ok(()));
    assert_eq!(checked_device_page(0xfee0_0000, Some(MemoryKind::Usable)), Err(PagingError::NotDeviceMemory));
    assert_eq!(checked_device_page(0xfee0_0000, None), Err(PagingError::NotDeviceMemory));
    assert_eq!(
        checked_device_page(0xfee0_0001, Some(MemoryKind::Device)),
        Err(PagingError::Range(VirtualRangeError::Misaligned))
    );
}

#[test]
fn page_spans_round_out_to_whole_pages() {
    assert_eq!(page_span(0x1234, 0x10), Ok((0x1000, 0x2000)));
    assert_eq!(page_span(0x1000, 0x1000), Ok((0x1000, 0x2000)));
    assert_eq!(page_span(u64::MAX, 2), Err(PagingError::AddressTooLarge));
    assert_eq!(page_span(u64::MAX - 0x10, 0x8), Err(PagingError::AddressTooLarge));
}

#[test]
fn recursive_slot_address_selects_the_top_table() {
    assert_eq!(recursive_table_address(), 0xffff_ff7f_bfdf_e000);
}

use agnostos::paging::{identity_window, stack_window};

#[test]
fn identity_windows_start_on_the_page_of_their_first_byte() {
    assert_eq!(identity_window(0x1234, 0x100), Ok((0x1000, 0x334)));
    assert_eq!(identity_window(0x2000, 0x2000), Ok((0x2000, 0x2000)));
    assert_eq!(identity_window(usize::MAX, 2), Err(PagingError::AddressTooLarge));
}

#[test]
fn the_stack_window_surrounds_the_stack_page() {
    assert_eq!(stack_window(0x10_0abc), (0x10_0000 - 31 * 0x1000, 62 * 0x1000));
    assert_eq!(stack_window(0x5000), (0, 62 * 0x1000));
}

#[test]
fn a_range_across_the_canonical_hole_is_refused() {
    assert_eq!(
        VirtualRange::new(0x0000_7fff_ffff_f000, 0xffff_0000_0000_2000),
        Err(VirtualRangeError::NonCanonical)
    );
    assert!(VirtualRange::new(0x0000_7fff_ffff_f000, 0x1000).is_ok());
    assert!(VirtualRange::new(0xffff_8000_0000_0000, 0x2000).is_ok());
}
