use agnostos::memory::{
    initialize, kind_at, reserve, snapshot, MemoryDescriptor, MemoryKind, MemoryMapError, MemoryMapSnapshot,
    MemoryRange, UEFI_CONVENTIONAL, UEFI_LOADER_DATA, UEFI_MMIO, UEFI_RESERVED,
};
use uefi::mem::memory_map::MemoryType;

fn descriptor(phys_start: u64, page_count: u64, ty: u32) -> MemoryDescriptor {
    MemoryDescriptor { phys_start, page_count, ty }
}

fn single_range_map(start: u64, length: u64, ty: u32) -> MemoryMapSnapshot {
    MemoryMapSnapshot::copy_from(&[descriptor(start, length / 4096, ty)]).unwrap()
}

#[test]
fn classifies_uefi_memory_types() {
    assert_eq!(MemoryKind::from_uefi_type(MemoryType::CONVENTIONAL.0), MemoryKind::Usable);
    assert_eq!(MemoryKind::from_uefi_type(MemoryType::LOADER_DATA.0), MemoryKind::Kernel);
    assert_eq!(MemoryKind::from_uefi_type(MemoryType::BOOT_SERVICES_DATA.0), MemoryKind::Firmware);
    assert_eq!(MemoryKind::from_uefi_type(MemoryType::ACPI_RECLAIM.0), MemoryKind::Acpi);
    assert_eq!(MemoryKind::from_uefi_type(MemoryType::MMIO.0), MemoryKind::Device);
}

#[test]
fn range_end_saturates() {
    let range = MemoryRange {
        start: u64::MAX - 1,
        length: 4,
        uefi_type: MemoryType::RESERVED.0,
        kind: MemoryKind::Reserved,
    };
    assert_eq!(range.end(), u64::MAX);
}

#[test]
fn reservation_splits_a_usable_range_without_losing_neighbors() {
    let mut snapshot = single_range_map(0x1000, 0x9000, MemoryType::CONVENTIONAL.0);

    snapshot.reserve_range(0x3000, 0x2000, MemoryKind::Kernel).unwrap();

    assert_eq!(snapshot.len(), 3);
    assert_eq!(snapshot.ranges()[0].length(), 0x2000);
    assert_eq!(snapshot.ranges()[1].start(), 0x3000);
    assert_eq!(snapshot.ranges()[1].length(), 0x2000);
    assert_eq!(snapshot.ranges()[1].kind(), MemoryKind::Kernel);
    assert_eq!(snapshot.ranges()[2].start(), 0x5000);
    assert_eq!(snapshot.ranges()[2].length(), 0x5000);
}

#[test]
fn failed_reservation_preserves_the_original_map() {
    let mut snapshot = single_range_map(0x1000, 0x2000, MemoryType::CONVENTIONAL.0);
    let before = snapshot;

    assert_eq!(
        snapshot.reserve_range(0x8000, 0x1000, MemoryKind::Kernel),
        Err(MemoryMapError::RangeNotFound)
    );
    assert_eq!(snapshot, before);
}

#[test]
fn every_firmware_type_has_a_kind_and_a_name() {
    let kinds = [
        (0, MemoryKind::Reserved, "reserved"),
        (1, MemoryKind::Kernel, "kernel"),
        (2, MemoryKind::Kernel, "kernel"),
        (3, MemoryKind::Firmware, "firmware"),
        (4, MemoryKind::Firmware, "firmware"),
        (5, MemoryKind::Runtime, "runtime"),
        (6, MemoryKind::Runtime, "runtime"),
        (7, MemoryKind::Usable, "usable"),
        (8, MemoryKind::Unusable, "unusable"),
        (9, MemoryKind::Acpi, "acpi"),
        (10, MemoryKind::Acpi, "acpi"),
        (11, MemoryKind::Device, "device"),
        (12, MemoryKind::Device, "device"),
        (99, MemoryKind::Reserved, "reserved"),
    ];
    for (ty, kind, name) in kinds {
        assert_eq!(MemoryKind::from_uefi_type(ty), kind);
        assert_eq!(kind.name(), name);
    }
}

#[test]
fn ranges_know_their_end_and_contents() {
    let range = MemoryRange::new(0x1000, 0x2000, UEFI_CONVENTIONAL);
    assert_eq!(range.kind(), MemoryKind::Usable);
    assert_eq!(range.uefi_type(), UEFI_CONVENTIONAL);
    assert_eq!(range.end(), 0x3000);
    assert!(range.contains(0x1000));
    assert!(range.contains(0x2fff));
    assert!(!range.contains(0x3000));
    assert!(!range.contains(0xfff));
}

#[test]
fn copying_refuses_empty_and_invalid_maps() {
    assert_eq!(MemoryMapSnapshot::copy_from(&[]), Err(MemoryMapError::Empty));
    assert_eq!(
        MemoryMapSnapshot::copy_from(&[descriptor(0x1000, 0, UEFI_CONVENTIONAL)]),
        Err(MemoryMapError::InvalidRange)
    );
    assert_eq!(
        MemoryMapSnapshot::copy_from(&[descriptor(u64::MAX - 0xfff, 1, UEFI_CONVENTIONAL)]),
        Err(MemoryMapError::InvalidRange)
    );
    assert_eq!(
        MemoryMapSnapshot::copy_from(&[descriptor(0, u64::MAX, UEFI_CONVENTIONAL)]),
        Err(MemoryMapError::InvalidRange)
    );
    let too_many: Vec<MemoryDescriptor> = (0..257).map(|i| descriptor(i * 0x1000, 1, UEFI_CONVENTIONAL)).collect();
    assert_eq!(MemoryMapSnapshot::copy_from(&too_many), Err(MemoryMapError::TooManyRanges));
}

#[test]
fn reserving_the_whole_range_or_an_edge_keeps_the_rest() {
    let mut whole = single_range_map(0x1000, 0x2000, UEFI_CONVENTIONAL);
    whole.reserve_range(0x1000, 0x2000, MemoryKind::Kernel).unwrap();
    assert_eq!(whole.len(), 1);
    assert_eq!(whole.kind_at(0x1000), Some(MemoryKind::Kernel));

    let mut edge = single_range_map(0x1000, 0x3000, UEFI_CONVENTIONAL);
    edge.reserve_range(0x1000, 0x1000, MemoryKind::Device).unwrap();
    assert_eq!(edge.len(), 2);
    assert_eq!(edge.kind_at(0x1fff), Some(MemoryKind::Device));
    assert_eq!(edge.kind_at(0x2000), Some(MemoryKind::Usable));
    assert_eq!(edge.kind_at(0x4000), None);
}

#[test]
fn reservations_refuse_empty_and_wrapping_windows() {
    let mut map = single_range_map(0x1000, 0x2000, UEFI_CONVENTIONAL);
    let before = map;
    assert_eq!(map.reserve_range(0x1000, 0, MemoryKind::Kernel), Err(MemoryMapError::InvalidRange));
    assert_eq!(map.reserve_range(u64::MAX, 2, MemoryKind::Kernel), Err(MemoryMapError::InvalidRange));
    assert_eq!(map, before);
}

#[test]
fn external_ranges_are_appended_as_device_memory() {
    let mut map = single_range_map(0x1000, 0x1000, UEFI_CONVENTIONAL);
    map.add_external_range(0xfd00_0000, 0x1000, MemoryKind::Device).unwrap();
    assert_eq!(map.len(), 2);
    assert_eq!(map.ranges()[1].uefi_type(), UEFI_MMIO);
    assert_eq!(map.kind_at(0xfd00_0800), Some(MemoryKind::Device));
    assert_eq!(map.add_external_range(0x1000, 0, MemoryKind::Device), Err(MemoryMapError::InvalidRange));
}

#[test]
fn summary_totals_bytes_per_kind() {
    let map = MemoryMapSnapshot::copy_from(&[
        descriptor(0x1000, 2, UEFI_CONVENTIONAL),
        descriptor(0x3000, 1, UEFI_LOADER_DATA),
        descriptor(0x4000, 3, UEFI_RESERVED),
        descriptor(0x8000, 1, UEFI_CONVENTIONAL),
    ])
    .unwrap();
    let summary = map.summary();
    assert_eq!(summary.ranges, 4);
    assert_eq!(summary.usable_bytes, 0x3000);
    assert_eq!(summary.kernel_bytes, 0x1000);
    assert_eq!(summary.reserved_bytes, 0x3000);
    assert_eq!(summary.device_bytes, 0);
    assert!(!map.is_empty());
}

#[test]
fn the_kernel_table_is_set_once_and_marks_the_framebuffer() {
    let mut table = None;
    let descriptors = [descriptor(0x1000, 4, UEFI_CONVENTIONAL)];
    assert_eq!(kind_at(&table, 0x1000), None);
    assert_eq!(reserve(&mut table, 0x1000, 0x1000, MemoryKind::Kernel), Err(MemoryMapError::NotInitialized));
    initialize(&mut table, &descriptors, Some((0x2000, 0x1000))).unwrap();
    assert_eq!(kind_at(&table, 0x2000), Some(MemoryKind::Device));
    assert_eq!(kind_at(&table, 0x1000), Some(MemoryKind::Usable));
    assert_eq!(
        initialize(&mut table, &descriptors, None),
        Err(MemoryMapError::AlreadyInitialized)
    );
    reserve(&mut table, 0x1000, 0x1000, MemoryKind::Kernel).unwrap();
    assert_eq!(kind_at(&table, 0x1000), Some(MemoryKind::Kernel));
    assert_eq!(snapshot(&table).unwrap().len(), 3);
}

#[test]
fn a_framebuffer_outside_the_map_becomes_a_range_of_its_own() {
    let mut table = None;
    initialize(&mut table, &[descriptor(0x1000, 1, UEFI_CONVENTIONAL)], Some((0x8000_0000, 0x10_0000))).unwrap();
    let map = snapshot(&table).unwrap();
    assert_eq!(map.len(), 2);
    assert_eq!(map.kind_at(0x8000_0000), Some(MemoryKind::Device));
    assert_eq!(map.ranges()[1].uefi_type(), UEFI_MMIO);
}

#[test]
fn reserved_pieces_do_not_overlap() {
    let mut map = MemoryMapSnapshot::copy_from(&[
        descriptor(0x1000, 4, UEFI_CONVENTIONAL),
        descriptor(0x8000, 4, UEFI_RESERVED),
    ])
    .unwrap();
    map.reserve_range(0x3000, 0x6000, MemoryKind::Kernel).unwrap();
    let ranges = map.ranges();
    for (i, a) in ranges.iter().enumerate() {
        for b in &ranges[i + 1..] {
            assert!(a.start().max(b.start()) >= a.end().min(b.end()));
        }
    }
    assert!(ranges.windows(2).all(|pair| pair[0].end() <= pair[1].start()));
    assert_eq!(ranges[0].uefi_type(), UEFI_CONVENTIONAL);
    assert_eq!(ranges[1].uefi_type(), UEFI_CONVENTIONAL);
    assert_eq!(ranges[2].uefi_type(), UEFI_RESERVED);
    assert_eq!(ranges[3].uefi_type(), UEFI_RESERVED);
    assert_eq!(kind_of(&map, 0x2fff), Some(MemoryKind::Usable));
    assert_eq!(kind_of(&map, 0x3000), Some(MemoryKind::Kernel));
    assert_eq!(kind_of(&map, 0x8fff), Some(MemoryKind::Kernel));
    assert_eq!(kind_of(&map, 0x9000), Some(MemoryKind::Reserved));
}

fn kind_of(map: &MemoryMapSnapshot, address: u64) -> Option<MemoryKind> {
    map.kind_at(address)
}
