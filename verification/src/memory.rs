//! Kernel-owned physical memory map.
//!
//! The firmware's memory descriptors are copied into a fixed table owned by
//! the kernel.  Every range carries the firmware's memory type and the
//! kernel's own classification of who owns it.  Reservations split a range
//! so that the memory around a reserved window keeps its old classification.

use vstd::prelude::*;

use crate::PAGE_SIZE;

verus! {

/// Capacity of the owned memory-map table.
pub const MAX_MEMORY_RANGES: usize = 256;

// Memory type codes of a UEFI memory descriptor (UEFI specification, EFI_MEMORY_TYPE).
pub const UEFI_RESERVED: u32 = 0;
pub const UEFI_LOADER_CODE: u32 = 1;
pub const UEFI_LOADER_DATA: u32 = 2;
pub const UEFI_BOOT_SERVICES_CODE: u32 = 3;
pub const UEFI_BOOT_SERVICES_DATA: u32 = 4;
pub const UEFI_RUNTIME_SERVICES_CODE: u32 = 5;
pub const UEFI_RUNTIME_SERVICES_DATA: u32 = 6;
pub const UEFI_CONVENTIONAL: u32 = 7;
pub const UEFI_UNUSABLE: u32 = 8;
pub const UEFI_ACPI_RECLAIM: u32 = 9;
pub const UEFI_ACPI_NON_VOLATILE: u32 = 10;
pub const UEFI_MMIO: u32 = 11;
pub const UEFI_MMIO_PORT_SPACE: u32 = 12;

/// Who owns a physical range, from the kernel's point of view.
#[derive(Clone, Copy, Debug, PartialEq, Eq, Structural)]
pub enum MemoryKind {
    Usable,
    Kernel,
    Firmware,
    Acpi,
    Device,
    Runtime,
    Unusable,
    Reserved,
}

/// The classification of a firmware memory type.
pub open spec fn kind_for_uefi_type(ty: u32) -> MemoryKind {
    if ty == UEFI_CONVENTIONAL {
        MemoryKind::Usable
    } else if ty == UEFI_LOADER_CODE || ty == UEFI_LOADER_DATA {
        MemoryKind::Kernel
    } else if ty == UEFI_BOOT_SERVICES_CODE || ty == UEFI_BOOT_SERVICES_DATA {
        MemoryKind::Firmware
    } else if ty == UEFI_ACPI_RECLAIM || ty == UEFI_ACPI_NON_VOLATILE {
        MemoryKind::Acpi
    } else if ty == UEFI_MMIO || ty == UEFI_MMIO_PORT_SPACE {
        MemoryKind::Device
    } else if ty == UEFI_RUNTIME_SERVICES_CODE || ty == UEFI_RUNTIME_SERVICES_DATA {
        MemoryKind::Runtime
    } else if ty == UEFI_UNUSABLE {
        MemoryKind::Unusable
    } else {
        MemoryKind::Reserved
    }
}

impl MemoryKind {
    /// Classifies a firmware memory type.
    pub fn from_uefi_type(ty: u32) -> (kind: MemoryKind)
        ensures
            kind == kind_for_uefi_type(ty),
    {
        if ty == UEFI_CONVENTIONAL {
            MemoryKind::Usable
        } else if ty == UEFI_LOADER_CODE || ty == UEFI_LOADER_DATA {
            MemoryKind::Kernel
        } else if ty == UEFI_BOOT_SERVICES_CODE || ty == UEFI_BOOT_SERVICES_DATA {
            MemoryKind::Firmware
        } else if ty == UEFI_ACPI_RECLAIM || ty == UEFI_ACPI_NON_VOLATILE {
            MemoryKind::Acpi
        } else if ty == UEFI_MMIO || ty == UEFI_MMIO_PORT_SPACE {
            MemoryKind::Device
        } else if ty == UEFI_RUNTIME_SERVICES_CODE || ty == UEFI_RUNTIME_SERVICES_DATA {
            MemoryKind::Runtime
        } else if ty == UEFI_UNUSABLE {
            MemoryKind::Unusable
        } else {
            MemoryKind::Reserved
        }
    }

    /// The lower-case name under which the kind is displayed.
    pub fn name(self) -> (name: &'static str)
        ensures
            self == MemoryKind::Usable ==> name@ == "usable"@,
            self == MemoryKind::Kernel ==> name@ == "kernel"@,
            self == MemoryKind::Firmware ==> name@ == "firmware"@,
            self == MemoryKind::Acpi ==> name@ == "acpi"@,
            self == MemoryKind::Device ==> name@ == "device"@,
            self == MemoryKind::Runtime ==> name@ == "runtime"@,
            self == MemoryKind::Unusable ==> name@ == "unusable"@,
            self == MemoryKind::Reserved ==> name@ == "reserved"@,
    {
        match self {
            MemoryKind::Usable => "usable",
            MemoryKind::Kernel => "kernel",
            MemoryKind::Firmware => "firmware",
            MemoryKind::Acpi => "acpi",
            MemoryKind::Device => "device",
            MemoryKind::Runtime => "runtime",
            MemoryKind::Unusable => "unusable",
            MemoryKind::Reserved => "reserved",
        }
    }
}

/// One firmware memory descriptor, as plain values.
#[derive(Clone, Copy, Debug, PartialEq, Eq, Structural)]
pub struct MemoryDescriptor {
    pub phys_start: u64,
    pub page_count: u64,
    pub ty: u32,
}

/// A physical byte range with its firmware type and kernel classification.
#[derive(Clone, Copy, Debug, PartialEq, Eq, Structural)]
pub struct MemoryRange {
    pub start: u64,
    pub length: u64,
    pub uefi_type: u32,
    pub kind: MemoryKind,
}

/// `start + length`, saturated at `u64::MAX`.
pub open spec fn saturating_end(start: u64, length: u64) -> u64 {
    if start + length > u64::MAX {
        u64::MAX
    } else {
        (start + length) as u64
    }
}

impl MemoryRange {
    /// A range whose classification is derived from its firmware type.
    pub fn new(start: u64, length: u64, uefi_type: u32) -> (range: MemoryRange)
        ensures
            range == (MemoryRange { start, length, uefi_type, kind: kind_for_uefi_type(uefi_type) }),
    {
        MemoryRange { start, length, uefi_type, kind: MemoryKind::from_uefi_type(uefi_type) }
    }

    pub open spec fn spec_end(self) -> u64 {
        saturating_end(self.start, self.length)
    }

    /// Whether `address` lies inside the range.
    pub open spec fn spec_contains(self, address: u64) -> bool {
        self.start <= address && address < self.spec_end()
    }

    pub fn start(self) -> (start: u64)
        ensures
            start == self.start,
    {
        self.start
    }

    pub fn length(self) -> (length: u64)
        ensures
            length == self.length,
    {
        self.length
    }

    /// The exclusive end address, saturated at `u64::MAX`.
    pub fn end(self) -> (end: u64)
        ensures
            end == self.spec_end(),
    {
        self.start.saturating_add(self.length)
    }

    pub fn uefi_type(self) -> (ty: u32)
        ensures
            ty == self.uefi_type,
    {
        self.uefi_type
    }

    pub fn kind(self) -> (kind: MemoryKind)
        ensures
            kind == self.kind,
    {
        self.kind
    }

    pub fn contains(self, address: u64) -> (inside: bool)
        ensures
            inside == self.spec_contains(address),
    {
        address >= self.start && address < self.end()
    }
}


/// Why a memory-map operation was refused.
#[derive(Clone, Copy, Debug, PartialEq, Eq, Structural)]
pub enum MemoryMapError {
    AlreadyInitialized,
    Empty,
    InvalidRange,
    RangeNotFound,
    TooManyRanges,
    NotInitialized,
}

pub open spec fn max_u64(a: u64, b: u64) -> u64 {
    if a >= b { a } else { b }
}

pub open spec fn min_u64(a: u64, b: u64) -> u64 {
    if a <= b { a } else { b }
}

/// A range as a sequence of one element, or none when it is empty.
pub open spec fn nonempty(r: MemoryRange) -> Seq<MemoryRange> {
    if r.length == 0 { seq![] } else { seq![r] }
}

/// Whether `r` shares at least one address with `[start, end)`.
pub open spec fn overlaps(r: MemoryRange, start: u64, end: u64) -> bool {
    max_u64(start, r.start) < min_u64(end, r.spec_end())
}

/// What reserving `[start, end)` as `kind` leaves of one range: the range
/// itself when they do not overlap, else its part before the window, the
/// overlap (re-classified as `kind`), and its part after the window, each
/// only when non-empty.
pub open spec fn split_for_reservation(r: MemoryRange, start: u64, end: u64, kind: MemoryKind) -> Seq<MemoryRange> {
    let os = max_u64(start, r.start);
    let oe = min_u64(end, r.spec_end());
    if !overlaps(r, start, end) {
        seq![r]
    } else {
        nonempty(MemoryRange { start: r.start, length: (os - r.start) as u64, uefi_type: r.uefi_type, kind: r.kind })
            + nonempty(MemoryRange { start: os, length: (oe - os) as u64, uefi_type: r.uefi_type, kind })
            + nonempty(MemoryRange { start: oe, length: (r.spec_end() - oe) as u64, uefi_type: r.uefi_type, kind: r.kind })
    }
}

/// The table after reserving `[start, end)` as `kind`: every range replaced, in order,
/// by what the reservation leaves of it.
pub open spec fn reserved_ranges(s: Seq<MemoryRange>, start: u64, end: u64, kind: MemoryKind) -> Seq<MemoryRange>
    decreases s.len(),
{
    if s.len() == 0 {
        seq![]
    } else {
        reserved_ranges(s.drop_last(), start, end, kind) + split_for_reservation(s.last(), start, end, kind)
    }
}

/// Whether some range of `s` overlaps `[start, end)`.
pub open spec fn any_overlap(s: Seq<MemoryRange>, start: u64, end: u64) -> bool {
    exists|i: int| 0 <= i < s.len() && overlaps(#[trigger] s[i], start, end)
}

/// The outcome that reserving `length` bytes at `start` has on a table `s`.
pub open spec fn reservation_result(s: Seq<MemoryRange>, start: u64, length: u64, kind: MemoryKind) -> Result<(), MemoryMapError> {
    if length == 0 || start + length > u64::MAX {
        Err(MemoryMapError::InvalidRange)
    } else if reserved_ranges(s, start, (start + length) as u64, kind).len() > MAX_MEMORY_RANGES {
        Err(MemoryMapError::TooManyRanges)
    } else if !any_overlap(s, start, (start + length) as u64) {
        Err(MemoryMapError::RangeNotFound)
    } else {
        Ok(())
    }
}

/// The kind of the first range of `s` that contains `address`.
pub open spec fn kind_at_in(s: Seq<MemoryRange>, address: u64) -> Option<MemoryKind>
    decreases s.len(),
{
    if s.len() == 0 {
        None
    } else if s[0].spec_contains(address) {
        Some(s[0].kind)
    } else {
        kind_at_in(s.skip(1), address)
    }
}

proof fn lemma_reserved_ranges_append(a: Seq<MemoryRange>, b: Seq<MemoryRange>, start: u64, end: u64, kind: MemoryKind)
    ensures
        reserved_ranges(a + b, start, end, kind) == reserved_ranges(a, start, end, kind) + reserved_ranges(b, start, end, kind),
    decreases b.len(),
{
    if b.len() == 0 {
        assert(a + b =~= a);
        assert(reserved_ranges(b, start, end, kind) =~= seq![]);
        assert(reserved_ranges(a, start, end, kind) + seq![] =~= reserved_ranges(a, start, end, kind));
    } else {
        assert((a + b).drop_last() =~= a + b.drop_last());
        assert((a + b).last() == b.last());
        lemma_reserved_ranges_append(a, b.drop_last(), start, end, kind);
        let ra = reserved_ranges(a, start, end, kind);
        let rb = reserved_ranges(b.drop_last(), start, end, kind);
        let sp = split_for_reservation(b.last(), start, end, kind);
        assert(ra + rb + sp =~= ra + (rb + sp));
    }
}

proof fn lemma_reserved_ranges_prefix_len(s: Seq<MemoryRange>, k: int, start: u64, end: u64, kind: MemoryKind)
    requires
        0 <= k <= s.len(),
    ensures
        reserved_ranges(s.take(k), start, end, kind).len() <= reserved_ranges(s, start, end, kind).len(),
{
    lemma_reserved_ranges_append(s.take(k), s.skip(k), start, end, kind);
    assert(s.take(k) + s.skip(k) =~= s);
}

proof fn lemma_any_overlap_extend(s: Seq<MemoryRange>, i: int, start: u64, end: u64)
    requires
        0 <= i < s.len(),
    ensures
        any_overlap(s.take(i + 1), start, end) == (any_overlap(s.take(i), start, end) || overlaps(s[i], start, end)),
{
    let prefix = s.take(i);
    let next = s.take(i + 1);
    if overlaps(s[i], start, end) {
        assert(overlaps(next[i], start, end));
    }
    if any_overlap(prefix, start, end) {
        let j = choose|j: int| 0 <= j < prefix.len() && overlaps(#[trigger] prefix[j], start, end);
        assert(next[j] == prefix[j]);
    }
    if any_overlap(next, start, end) && !overlaps(s[i], start, end) {
        let j = choose|j: int| 0 <= j < next.len() && overlaps(#[trigger] next[j], start, end);
        assert(j != i);
        assert(prefix[j] == next[j]);
    }
}

proof fn lemma_total_bytes_nonnegative(s: Seq<MemoryRange>, k: MemoryKind)
    ensures
        total_bytes(s, k) >= 0,
    decreases s.len(),
{
    if s.len() > 0 {
        lemma_total_bytes_nonnegative(s.drop_last(), k);
    }
}

proof fn lemma_take_update_push(a: Seq<MemoryRange>, c: int, v: MemoryRange)
    requires
        0 <= c < a.len(),
    ensures
        a.update(c, v).take(c + 1) == a.take(c) + seq![v],
{
    assert(a.update(c, v).take(c + 1) =~= a.take(c) + seq![v]);
}

/// The range a firmware descriptor describes.
pub open spec fn descriptor_range(d: MemoryDescriptor) -> MemoryRange {
    MemoryRange {
        start: d.phys_start,
        length: (d.page_count * PAGE_SIZE) as u64,
        uefi_type: d.ty,
        kind: kind_for_uefi_type(d.ty),
    }
}

/// A descriptor is accepted when its byte length is non-zero and neither its
/// length nor its end overflows.
pub open spec fn descriptor_is_valid(d: MemoryDescriptor) -> bool {
    &&& d.page_count * PAGE_SIZE <= u64::MAX
    &&& d.page_count > 0
    &&& d.phys_start + d.page_count * PAGE_SIZE <= u64::MAX
}

/// The outcome of copying a firmware map: descriptors are taken in order, the
/// first invalid one among those that fit is refused, a map with more
/// descriptors than fit is refused, and so is an empty one.
pub open spec fn copy_result(ds: Seq<MemoryDescriptor>) -> Result<(), MemoryMapError> {
    if exists|i: int| 0 <= i < ds.len() && i < MAX_MEMORY_RANGES && !descriptor_is_valid(#[trigger] ds[i]) {
        Err(MemoryMapError::InvalidRange)
    } else if ds.len() > MAX_MEMORY_RANGES {
        Err(MemoryMapError::TooManyRanges)
    } else if ds.len() == 0 {
        Err(MemoryMapError::Empty)
    } else {
        Ok(())
    }
}

/// The ranges of a firmware map, in order.
pub open spec fn descriptor_ranges(ds: Seq<MemoryDescriptor>) -> Seq<MemoryRange> {
    ds.map_values(|d: MemoryDescriptor| descriptor_range(d))
}

/// The outcome of adding a range that no firmware descriptor covers.
pub open spec fn external_result(s: Seq<MemoryRange>, start: u64, length: u64) -> Result<(), MemoryMapError> {
    if length == 0 || start + length > u64::MAX || s.len() >= MAX_MEMORY_RANGES {
        Err(MemoryMapError::InvalidRange)
    } else {
        Ok(())
    }
}

/// The sum of the lengths of the ranges of `s` with kind `kind`.
pub open spec fn total_bytes(s: Seq<MemoryRange>, kind: MemoryKind) -> int
    decreases s.len(),
{
    if s.len() == 0 {
        0
    } else {
        total_bytes(s.drop_last(), kind) + if s.last().kind == kind { s.last().length as int } else { 0 }
    }
}

pub open spec fn saturate(x: int) -> u64 {
    if x > u64::MAX { u64::MAX } else { x as u64 }
}

/// Byte totals of a memory map per classification.
#[derive(Clone, Copy, Debug, PartialEq, Eq, Structural)]
pub struct MemorySummary {
    pub ranges: usize,
    pub usable_bytes: u64,
    pub kernel_bytes: u64,
    pub firmware_bytes: u64,
    pub acpi_bytes: u64,
    pub device_bytes: u64,
    pub runtime_bytes: u64,
    pub reserved_bytes: u64,
    pub unusable_bytes: u64,
}

/// The summary of a table: its range count and, per kind, its total bytes
/// saturated at `u64::MAX`.
pub open spec fn summary_of(s: Seq<MemoryRange>) -> MemorySummary {
    MemorySummary {
        ranges: s.len() as usize,
        usable_bytes: saturate(total_bytes(s, MemoryKind::Usable)),
        kernel_bytes: saturate(total_bytes(s, MemoryKind::Kernel)),
        firmware_bytes: saturate(total_bytes(s, MemoryKind::Firmware)),
        acpi_bytes: saturate(total_bytes(s, MemoryKind::Acpi)),
        device_bytes: saturate(total_bytes(s, MemoryKind::Device)),
        runtime_bytes: saturate(total_bytes(s, MemoryKind::Runtime)),
        reserved_bytes: saturate(total_bytes(s, MemoryKind::Reserved)),
        unusable_bytes: saturate(total_bytes(s, MemoryKind::Unusable)),
    }
}

/// A copy of the firmware memory map, owned by the kernel.
#[derive(Clone, Copy, Debug, PartialEq, Eq)]
pub struct MemoryMapSnapshot {
    ranges: [MemoryRange; MAX_MEMORY_RANGES],
    count: usize,
}

impl View for MemoryMapSnapshot {
    type V = Seq<MemoryRange>;

    /// The ranges in table order.
    closed spec fn view(&self) -> Seq<MemoryRange> {
        self.ranges@.take(self.count as int)
    }
}

impl MemoryMapSnapshot {
    #[verifier::type_invariant]
    spec fn inv(self) -> bool {
        self.count <= MAX_MEMORY_RANGES
    }

    fn empty_range() -> (range: MemoryRange)
        ensures
            range == (MemoryRange { start: 0, length: 0, uefi_type: UEFI_RESERVED, kind: MemoryKind::Reserved }),
    {
        MemoryRange { start: 0, length: 0, uefi_type: UEFI_RESERVED, kind: MemoryKind::Reserved }
    }

    pub fn len(&self) -> (len: usize)
        ensures
            len == self@.len(),
            len <= MAX_MEMORY_RANGES,
    {
        proof { use_type_invariant(self); }
        self.count
    }

    pub fn is_empty(&self) -> (empty: bool)
        ensures
            empty == (self@.len() == 0),
    {
        proof { use_type_invariant(self); }
        self.count == 0
    }

    /// The ranges in table order.
    pub fn ranges(&self) -> (ranges: &[MemoryRange])
        ensures
            ranges@ == self@,
    {
        proof { use_type_invariant(self); }
        vstd::slice::slice_subrange(self.ranges.as_slice(), 0, self.count)
    }

    /// The kind of the first range that contains `address`.
    pub fn kind_at(&self, address: u64) -> (kind: Option<MemoryKind>)
        ensures
            kind == kind_at_in(self@, address),
    {
        proof { use_type_invariant(self); }
        let mut index: usize = 0;
        assert(self@.skip(0) =~= self@);
        while index < self.count
            invariant
                index <= self.count <= MAX_MEMORY_RANGES,
                kind_at_in(self@, address) == kind_at_in(self@.skip(index as int), address),
            decreases self.count - index,
        {
            let range = self.ranges[index];
            let ghost rest = self@.skip(index as int);
            assert(rest[0] == range);
            if range.contains(address) {
                return Some(range.kind);
            }
            assert(rest.skip(1) =~= self@.skip(index + 1));
            index += 1;
        }
        assert(self@.skip(index as int).len() == 0);
        None
    }

    /// Re-classifies the bytes `[start, start + length)` as `kind`, splitting
    /// every range that overlaps them so that the bytes around the window keep
    /// their old classification.  On failure the table is left unchanged.
    pub fn reserve_range(&mut self, start: u64, length: u64, kind: MemoryKind) -> (result: Result<(), MemoryMapError>)
        ensures
            result == reservation_result(old(self)@, start, length, kind),
            result is Ok ==> final(self)@ == reserved_ranges(old(self)@, start, (start + length) as u64, kind),
            result is Err ==> final(self)@ == old(self)@ && *final(self) == *old(self),
    {
        proof { use_type_invariant(&*self); }
        let end = match start.checked_add(length) {
            Some(end) => end,
            None => return Err(MemoryMapError::InvalidRange),
        };
        if length == 0 || end <= start {
            return Err(MemoryMapError::InvalidRange);
        }
        let empty = Self::empty_range();
        let old_ranges = self.ranges;
        let old_count = self.count;
        let mut replacement = [empty; MAX_MEMORY_RANGES];
        let mut replacement_count: usize = 0;
        let mut overlapped = false;
        let ghost s = self@;
        assert(s.take(0) =~= Seq::<MemoryRange>::empty());
        assert(replacement@.take(0) =~= Seq::<MemoryRange>::empty());
        let mut i: usize = 0;
        while i < old_count
            invariant
                old_count <= MAX_MEMORY_RANGES,
                s == old_ranges@.take(old_count as int),
                s == old(self)@,
                *self == *old(self),
                s.len() == old_count,
                i <= old_count,
                replacement_count <= MAX_MEMORY_RANGES,
                end == start + length,
                length > 0,
                replacement@.take(replacement_count as int) == reserved_ranges(s.take(i as int), start, end, kind),
                overlapped == any_overlap(s.take(i as int), start, end),
            decreases old_count - i,
        {
            let range = old_ranges[i];
            let ghost prefix = s.take(i as int);
            let ghost next = s.take(i + 1);
            assert(next.drop_last() =~= prefix);
            assert(next.last() == range);
            proof { lemma_any_overlap_extend(s, i as int, start, end); }
            match Self::append_pieces(&mut replacement, &mut replacement_count, range, start, end, kind) {
                Err(error) => {
                    proof {
                        lemma_reserved_ranges_prefix_len(s, i + 1, start, end, kind);
                        assert(s.take(old_count as int) =~= s);
                    }
                    return Err(error);
                },
                Ok(hit) => {
                    if hit {
                        overlapped = true;
                    }
                },
            }
            i += 1;
        }
        assert(s.take(old_count as int) =~= s);
        if !overlapped {
            return Err(MemoryMapError::RangeNotFound);
        }
        self.ranges = replacement;
        self.count = replacement_count;
        Ok(())
    }

    /// Copies a firmware map, refusing invalid descriptors, a map that does
    /// not fit the table, and an empty map.
    pub fn copy_from(descriptors: &[MemoryDescriptor]) -> (result: Result<MemoryMapSnapshot, MemoryMapError>)
        ensures
            match result {
                Ok(snapshot) => copy_result(descriptors@) is Ok && snapshot@ == descriptor_ranges(descriptors@),
                Err(error) => copy_result(descriptors@) == Err::<(), MemoryMapError>(error),
            },
    {
        let empty = Self::empty_range();
        let mut snapshot = MemoryMapSnapshot { ranges: [empty; MAX_MEMORY_RANGES], count: 0 };
        let ghost ds = descriptors@;
        let mut i: usize = 0;
        assert(snapshot@ =~= descriptor_ranges(ds.take(0)));
        while i < descriptors.len()
            invariant
                ds == descriptors@,
                i <= ds.len(),
                i <= MAX_MEMORY_RANGES,
                snapshot.count == i,
                snapshot@ == descriptor_ranges(ds.take(i as int)),
                forall|j: int| 0 <= j < i ==> descriptor_is_valid(#[trigger] ds[j]),
            decreases ds.len() - i,
        {
            if snapshot.count == MAX_MEMORY_RANGES {
                return Err(MemoryMapError::TooManyRanges);
            }
            let descriptor = descriptors[i];
            let length = match descriptor.page_count.checked_mul(PAGE_SIZE) {
                Some(length) => length,
                None => return Err(MemoryMapError::InvalidRange),
            };
            let end = match descriptor.phys_start.checked_add(length) {
                Some(end) => end,
                None => return Err(MemoryMapError::InvalidRange),
            };
            if length == 0 || end <= descriptor.phys_start {
                return Err(MemoryMapError::InvalidRange);
            }
            let range = MemoryRange::new(descriptor.phys_start, length, descriptor.ty);
            proof { lemma_take_update_push(snapshot.ranges@, i as int, range); }
            snapshot.ranges[snapshot.count] = range;
            snapshot.count += 1;
            i += 1;
            assert(descriptor_ranges(ds.take(i as int)) =~= descriptor_ranges(ds.take(i - 1)) + seq![range]);
        }
        assert(ds.take(i as int) =~= ds);
        if snapshot.is_empty() {
            return Err(MemoryMapError::Empty);
        }
        Ok(snapshot)
    }

    /// Appends a device range that no firmware descriptor covers.
    pub fn add_external_range(&mut self, start: u64, length: u64, kind: MemoryKind) -> (result: Result<(), MemoryMapError>)
        ensures
            result == external_result(old(self)@, start, length),
            result is Ok ==> final(self)@ == old(self)@.push(
                MemoryRange { start, length, uefi_type: UEFI_MMIO, kind },
            ),
            result is Err ==> final(self)@ == old(self)@ && *final(self) == *old(self),
    {
        proof { use_type_invariant(&*self); }
        let end = match start.checked_add(length) {
            Some(end) => end,
            None => return Err(MemoryMapError::InvalidRange),
        };
        if length == 0 || end <= start || self.count == MAX_MEMORY_RANGES {
            return Err(MemoryMapError::InvalidRange);
        }
        let range = MemoryRange { start, length, uefi_type: UEFI_MMIO, kind };
        proof { lemma_take_update_push(self.ranges@, self.count as int, range); }
        self.ranges[self.count] = range;
        self.count += 1;
        Ok(())
    }

    /// Byte totals per classification.
    pub fn summary(&self) -> (summary: MemorySummary)
        ensures
            summary == summary_of(self@),
    {
        proof { use_type_invariant(self); }
        let mut summary = MemorySummary {
            ranges: self.count,
            usable_bytes: 0,
            kernel_bytes: 0,
            firmware_bytes: 0,
            acpi_bytes: 0,
            device_bytes: 0,
            runtime_bytes: 0,
            reserved_bytes: 0,
            unusable_bytes: 0,
        };
        let ghost s = self@;
        let mut i: usize = 0;
        assert(s.take(0) =~= Seq::<MemoryRange>::empty());
        while i < self.count
            invariant
                s == self@,
                self.count <= MAX_MEMORY_RANGES,
                i <= self.count,
                s.len() == self.count,
                summary.ranges == self.count,
                summary.usable_bytes == saturate(total_bytes(s.take(i as int), MemoryKind::Usable)),
                summary.kernel_bytes == saturate(total_bytes(s.take(i as int), MemoryKind::Kernel)),
                summary.firmware_bytes == saturate(total_bytes(s.take(i as int), MemoryKind::Firmware)),
                summary.acpi_bytes == saturate(total_bytes(s.take(i as int), MemoryKind::Acpi)),
                summary.device_bytes == saturate(total_bytes(s.take(i as int), MemoryKind::Device)),
                summary.runtime_bytes == saturate(total_bytes(s.take(i as int), MemoryKind::Runtime)),
                summary.reserved_bytes == saturate(total_bytes(s.take(i as int), MemoryKind::Reserved)),
                summary.unusable_bytes == saturate(total_bytes(s.take(i as int), MemoryKind::Unusable)),
            decreases self.count - i,
        {
            let range = self.ranges[i];
            let ghost next = s.take(i + 1);
            assert(next.drop_last() =~= s.take(i as int));
            assert(next.last() == range);
            proof { lemma_total_bytes_nonnegative(s.take(i as int), range.kind); }
            match range.kind {
                MemoryKind::Usable => summary.usable_bytes = summary.usable_bytes.saturating_add(range.length),
                MemoryKind::Kernel => summary.kernel_bytes = summary.kernel_bytes.saturating_add(range.length),
                MemoryKind::Firmware => summary.firmware_bytes = summary.firmware_bytes.saturating_add(range.length),
                MemoryKind::Acpi => summary.acpi_bytes = summary.acpi_bytes.saturating_add(range.length),
                MemoryKind::Device => summary.device_bytes = summary.device_bytes.saturating_add(range.length),
                MemoryKind::Runtime => summary.runtime_bytes = summary.runtime_bytes.saturating_add(range.length),
                MemoryKind::Unusable => summary.unusable_bytes = summary.unusable_bytes.saturating_add(range.length),
                MemoryKind::Reserved => summary.reserved_bytes = summary.reserved_bytes.saturating_add(range.length),
            }
            i += 1;
        }
        assert(s.take(i as int) =~= s);
        summary
    }

    /// Appends what reserving `[start, end)` as `kind` leaves of `range`;
    /// returns whether `range` overlapped the window.
    fn append_pieces(
        replacement: &mut [MemoryRange; MAX_MEMORY_RANGES],
        count: &mut usize,
        range: MemoryRange,
        start: u64,
        end: u64,
        kind: MemoryKind,
    ) -> (result: Result<bool, MemoryMapError>)
        requires
            *old(count) <= MAX_MEMORY_RANGES,
        ensures
            *final(count) <= MAX_MEMORY_RANGES,
            match result {
                Ok(hit) => hit == overlaps(range, start, end)
                    && final(replacement)@.take(*final(count) as int)
                        == old(replacement)@.take(*old(count) as int) + split_for_reservation(range, start, end, kind),
                Err(error) => error == MemoryMapError::TooManyRanges
                    && *old(count) + split_for_reservation(range, start, end, kind).len() > MAX_MEMORY_RANGES,
            },
    {
        let overlap_start = if start >= range.start { start } else { range.start };
        let range_end = range.end();
        let overlap_end = if end <= range_end { end } else { range_end };
        let ghost base = old(replacement)@.take(*old(count) as int);
        if overlap_start >= overlap_end {
            if *count == MAX_MEMORY_RANGES {
                return Err(MemoryMapError::TooManyRanges);
            }
            proof { lemma_take_update_push(replacement@, *count as int, range); }
            replacement[*count] = range;
            *count += 1;
            return Ok(false);
        }
        let before = MemoryRange {
            start: range.start,
            length: overlap_start - range.start,
            uefi_type: range.uefi_type,
            kind: range.kind,
        };
        let middle = MemoryRange {
            start: overlap_start,
            length: overlap_end - overlap_start,
            uefi_type: range.uefi_type,
            kind,
        };
        let after = MemoryRange {
            start: overlap_end,
            length: range_end - overlap_end,
            uefi_type: range.uefi_type,
            kind: range.kind,
        };
        assert(split_for_reservation(range, start, end, kind) == nonempty(before) + nonempty(middle) + nonempty(after));
        proof { if before.length != 0 && *count < MAX_MEMORY_RANGES { lemma_take_update_push(replacement@, *count as int, before); } }
        Self::push_piece(replacement, count, before)?;
        assert(replacement@.take(*count as int) =~= base + nonempty(before));
        proof { if middle.length != 0 && *count < MAX_MEMORY_RANGES { lemma_take_update_push(replacement@, *count as int, middle); } }
        Self::push_piece(replacement, count, middle)?;
        assert(replacement@.take(*count as int) =~= base + nonempty(before) + nonempty(middle));
        proof { if after.length != 0 && *count < MAX_MEMORY_RANGES { lemma_take_update_push(replacement@, *count as int, after); } }
        Self::push_piece(replacement, count, after)?;
        assert(replacement@.take(*count as int) =~= base + nonempty(before) + nonempty(middle) + nonempty(after));
        Ok(true)
    }

    /// Appends `value` unless it is empty; refuses when the table is full.
    fn push_piece(replacement: &mut [MemoryRange; MAX_MEMORY_RANGES], count: &mut usize, value: MemoryRange) -> (result: Result<(), MemoryMapError>)
        requires
            *old(count) <= MAX_MEMORY_RANGES,
        ensures
            *final(count) <= MAX_MEMORY_RANGES,
            value.length == 0 ==> result is Ok && *final(count) == *old(count) && final(replacement)@ == old(replacement)@,
            value.length != 0 && *old(count) == MAX_MEMORY_RANGES ==> result == Err::<(), MemoryMapError>(MemoryMapError::TooManyRanges),
            value.length != 0 && *old(count) < MAX_MEMORY_RANGES ==> result is Ok && *final(count) == *old(count) + 1
                && final(replacement)@ == old(replacement)@.update(*old(count) as int, value),
    {
        if value.length == 0 {
            return Ok(());
        }
        if *count == MAX_MEMORY_RANGES {
            return Err(MemoryMapError::TooManyRanges);
        }
        replacement[*count] = value;
        *count += 1;
        Ok(())
    }
}

} // verus!

verus! {

/// The table that initialization builds from a valid firmware map, and its outcome.
pub open spec fn initialized_table(
    ds: Seq<MemoryDescriptor>,
    framebuffer: Option<(usize, usize)>,
) -> (Result<(), MemoryMapError>, Seq<MemoryRange>) {
    let base = descriptor_ranges(ds);
    match framebuffer {
        None => (Ok(()), base),
        Some((start, length)) => {
            let (start, length) = (start as u64, length as u64);
            let reserved = reservation_result(base, start, length, MemoryKind::Device);
            if reserved is Ok {
                (Ok(()), reserved_ranges(base, start, (start + length) as u64, MemoryKind::Device))
            } else if reserved == Err::<(), MemoryMapError>(MemoryMapError::RangeNotFound) {
                (
                    external_result(base, start, length),
                    base.push(MemoryRange { start, length, uefi_type: UEFI_MMIO, kind: MemoryKind::Device }),
                )
            } else {
                (reserved, base)
            }
        },
    }
}

/// Copies the firmware map into the kernel-owned table `map`, then marks the
/// framebuffer's bytes as device memory (adding them as a range of their own
/// when no descriptor covers them).  The table is set only on success.
pub fn initialize(
    map: &mut Option<MemoryMapSnapshot>,
    descriptors: &[MemoryDescriptor],
    framebuffer: Option<(usize, usize)>,
) -> (result: Result<(), MemoryMapError>)
    ensures
        old(map).is_some() ==> result == Err::<(), MemoryMapError>(MemoryMapError::AlreadyInitialized),
        old(map).is_none() && copy_result(descriptors@) is Err ==> result == copy_result(descriptors@),
        old(map).is_none() && copy_result(descriptors@) is Ok ==> result == initialized_table(descriptors@, framebuffer).0,
        result is Ok ==> final(map).is_some() && final(map).unwrap()@ == initialized_table(descriptors@, framebuffer).1,
        result is Err ==> *final(map) == *old(map),
{
    if map.is_some() {
        return Err(MemoryMapError::AlreadyInitialized);
    }
    let mut snapshot = MemoryMapSnapshot::copy_from(descriptors)?;
    if let Some((start, length)) = framebuffer {
        match snapshot.reserve_range(start as u64, length as u64, MemoryKind::Device) {
            Ok(()) => {},
            Err(MemoryMapError::RangeNotFound) => {
                snapshot.add_external_range(start as u64, length as u64, MemoryKind::Device)?;
            },
            Err(error) => return Err(error),
        }
    }
    *map = Some(snapshot);
    Ok(())
}

/// Reserves `[start, start + length)` as `kind` in the kernel-owned table.
pub fn reserve(map: &mut Option<MemoryMapSnapshot>, start: usize, length: usize, kind: MemoryKind) -> (result: Result<(), MemoryMapError>)
    ensures
        old(map).is_none() ==> result == Err::<(), MemoryMapError>(MemoryMapError::NotInitialized) && final(map).is_none(),
        old(map).is_some() ==> {
            let before = old(map).unwrap()@;
            &&& final(map).is_some()
            &&& result == reservation_result(before, start as u64, length as u64, kind)
            &&& result is Ok ==> final(map).unwrap()@ == reserved_ranges(before, start as u64, (start + length) as u64, kind)
            &&& result is Err ==> final(map).unwrap()@ == before
        },
{
    match map {
        None => Err(MemoryMapError::NotInitialized),
        Some(snapshot) => snapshot.reserve_range(start as u64, length as u64, kind),
    }
}

/// A copy of the kernel-owned table.
pub fn snapshot(map: &Option<MemoryMapSnapshot>) -> (copy: Option<MemoryMapSnapshot>)
    ensures
        copy == *map,
{
    *map
}

/// The classification of a physical address in the kernel-owned table.
pub fn kind_at(map: &Option<MemoryMapSnapshot>, address: u64) -> (kind: Option<MemoryKind>)
    ensures
        map.is_none() ==> kind.is_none(),
        map.is_some() ==> kind == kind_at_in(map.unwrap()@, address),
{
    match map {
        None => None,
        Some(snapshot) => snapshot.kind_at(address),
    }
}

} // verus!

verus! {

proof fn lemma_kind_at_in_append(a: Seq<MemoryRange>, b: Seq<MemoryRange>, x: u64)
    ensures
        kind_at_in(a + b, x) == (if kind_at_in(a, x).is_some() { kind_at_in(a, x) } else { kind_at_in(b, x) }),
    decreases a.len(),
{
    if a.len() == 0 {
        assert(a + b =~= b);
    } else {
        assert((a + b)[0] == a[0]);
        assert((a + b).skip(1) =~= a.skip(1) + b);
        lemma_kind_at_in_append(a.skip(1), b, x);
    }
}

proof fn lemma_kind_at_in_single(r: MemoryRange, x: u64)
    ensures
        kind_at_in(seq![r], x) == (if r.spec_contains(x) { Some(r.kind) } else { None }),
        kind_at_in(nonempty(r), x) == (if r.spec_contains(x) { Some(r.kind) } else { None }),
{
    assert(seq![r].skip(1) =~= Seq::<MemoryRange>::empty());
    if r.length == 0 {
        assert(nonempty(r) =~= Seq::<MemoryRange>::empty());
    } else {
        assert(nonempty(r) == seq![r]);
    }
}

proof fn lemma_kind_at_in_split(r: MemoryRange, start: u64, end: u64, kind: MemoryKind, x: u64)
    requires
        start < end,
    ensures
        kind_at_in(split_for_reservation(r, start, end, kind), x) == (if !r.spec_contains(x) {
            None
        } else if start <= x < end {
            Some(kind)
        } else {
            Some(r.kind)
        }),
{
    if !overlaps(r, start, end) {
        lemma_kind_at_in_single(r, x);
    } else {
        let os = max_u64(start, r.start);
        let oe = min_u64(end, r.spec_end());
        let before = MemoryRange { start: r.start, length: (os - r.start) as u64, uefi_type: r.uefi_type, kind: r.kind };
        let middle = MemoryRange { start: os, length: (oe - os) as u64, uefi_type: r.uefi_type, kind };
        let after = MemoryRange { start: oe, length: (r.spec_end() - oe) as u64, uefi_type: r.uefi_type, kind: r.kind };
        lemma_kind_at_in_single(before, x);
        lemma_kind_at_in_single(middle, x);
        lemma_kind_at_in_single(after, x);
        lemma_kind_at_in_append(nonempty(before), nonempty(middle), x);
        lemma_kind_at_in_append(nonempty(before) + nonempty(middle), nonempty(after), x);
    }
}

/// Reserving a window re-classifies exactly the addresses of the window that
/// the map covers: the first range covering such an address now has the
/// reservation's kind, and every other address keeps its classification
/// (covered addresses stay covered, uncovered ones stay uncovered).
pub proof fn reservation_reclassifies_only_the_window(
    s: Seq<MemoryRange>,
    start: u64,
    end: u64,
    kind: MemoryKind,
    address: u64,
)
    requires
        start < end,
    ensures
        kind_at_in(reserved_ranges(s, start, end, kind), address) == (if start <= address < end
            && kind_at_in(s, address).is_some() {
            Some(kind)
        } else {
            kind_at_in(s, address)
        }),
    decreases s.len(),
{
    if s.len() > 0 {
        let d = s.drop_last();
        let r = s.last();
        reservation_reclassifies_only_the_window(d, start, end, kind, address);
        lemma_kind_at_in_append(reserved_ranges(d, start, end, kind), split_for_reservation(r, start, end, kind), address);
        lemma_kind_at_in_split(r, start, end, kind, address);
        assert(d + seq![r] =~= s);
        lemma_kind_at_in_append(d, seq![r], address);
        lemma_kind_at_in_single(r, address);
    }
}

/// Whether two ranges share an address.
pub open spec fn share_address(a: MemoryRange, b: MemoryRange) -> bool {
    max_u64(a.start, b.start) < min_u64(a.spec_end(), b.spec_end())
}

/// Whether no two ranges of `s` share an address.
pub open spec fn ranges_disjoint(s: Seq<MemoryRange>) -> bool {
    forall|i: int, j: int| 0 <= i < j < s.len() ==> !share_address(#[trigger] s[i], #[trigger] s[j])
}

/// Whether `p` lies inside `r`.
pub open spec fn lies_within(p: MemoryRange, r: MemoryRange) -> bool {
    r.start <= p.start && p.spec_end() <= r.spec_end()
}

/// Whether the ranges of `s` come in address order, each ending at or
/// before the start of the next.
pub open spec fn ranges_sorted(s: Seq<MemoryRange>) -> bool {
    forall|i: int, j: int| 0 <= i < j < s.len() ==> (#[trigger] s[i]).spec_end() <= (#[trigger] s[j]).start
}

/// Whether `p` is a piece a reservation as `kind` cut from `r`: inside it,
/// with its firmware type, with its classification or `kind`, and not an
/// empty piece unless it is `r` itself.
pub open spec fn cut_from(p: MemoryRange, r: MemoryRange, kind: MemoryKind) -> bool {
    &&& lies_within(p, r)
    &&& p.uefi_type == r.uefi_type
    &&& (p.kind == r.kind || p.kind == kind)
    &&& (p.length > 0 || p == r)
}

/// Whether `p` is a piece cut from some range of `s`.
pub open spec fn cut_from_some(p: MemoryRange, s: Seq<MemoryRange>, kind: MemoryKind) -> bool {
    exists|i: int| 0 <= i < s.len() && cut_from(p, #[trigger] s[i], kind)
}

/// Whether `p` lies inside some range of `s`.
pub open spec fn inside_some(p: MemoryRange, s: Seq<MemoryRange>) -> bool {
    exists|i: int| 0 <= i < s.len() && lies_within(p, #[trigger] s[i])
}

/// Whether every range of `t` lies inside some range of `s`.
pub open spec fn pieces_of(t: Seq<MemoryRange>, s: Seq<MemoryRange>) -> bool {
    forall|x: int| 0 <= x < t.len() ==> inside_some(#[trigger] t[x], s)
}

/// The pieces a reservation cuts a range into lie inside it and share no
/// address with one another.
proof fn lemma_split_pieces(r: MemoryRange, start: u64, end: u64, kind: MemoryKind)
    ensures
        forall|x: int|
            0 <= x < split_for_reservation(r, start, end, kind).len() ==> lies_within(
                #[trigger] split_for_reservation(r, start, end, kind)[x],
                r,
            ),
        ranges_disjoint(split_for_reservation(r, start, end, kind)),
        ranges_sorted(split_for_reservation(r, start, end, kind)),
        forall|x: int|
            0 <= x < split_for_reservation(r, start, end, kind).len() ==> cut_from(
                #[trigger] split_for_reservation(r, start, end, kind)[x],
                r,
                kind,
            ),
{
    let t = split_for_reservation(r, start, end, kind);
    if overlaps(r, start, end) {
        let os = max_u64(start, r.start);
        let oe = min_u64(end, r.spec_end());
        let a = MemoryRange { start: r.start, length: (os - r.start) as u64, uefi_type: r.uefi_type, kind: r.kind };
        let b = MemoryRange { start: os, length: (oe - os) as u64, uefi_type: r.uefi_type, kind };
        let c = MemoryRange { start: oe, length: (r.spec_end() - oe) as u64, uefi_type: r.uefi_type, kind: r.kind };
        let la = nonempty(a).len() as int;
        let lb = nonempty(b).len() as int;
        assert forall|x: int| 0 <= x < t.len() implies #[trigger] t[x] == (if x < la { a } else if x < la + lb { b } else { c }) by {
            assert(t == nonempty(a) + nonempty(b) + nonempty(c));
        }
        assert(a.spec_end() == os && b.spec_end() == oe && c.spec_end() == r.spec_end());
    }
}

/// A reservation keeps the ranges of a table from sharing addresses: when
/// no two ranges shared one before, no two share one after, and every
/// range after lies inside a range before.
pub proof fn reservation_keeps_ranges_disjoint(s: Seq<MemoryRange>, start: u64, end: u64, kind: MemoryKind)
    requires
        ranges_disjoint(s),
    ensures
        ranges_disjoint(reserved_ranges(s, start, end, kind)),
        pieces_of(reserved_ranges(s, start, end, kind), s),
    decreases s.len(),
{
    if s.len() > 0 {
        let d = s.drop_last();
        let r = s.last();
        assert forall|i: int, j: int| 0 <= i < j < d.len() implies !share_address(#[trigger] d[i], #[trigger] d[j]) by {
            assert(d[i] == s[i] && d[j] == s[j]);
        }
        reservation_keeps_ranges_disjoint(d, start, end, kind);
        lemma_split_pieces(r, start, end, kind);
        let p = reserved_ranges(d, start, end, kind);
        let q = split_for_reservation(r, start, end, kind);
        let t = reserved_ranges(s, start, end, kind);
        assert(t == p + q);
        assert forall|x: int| 0 <= x < t.len() implies inside_some(#[trigger] t[x], s) by {
            if x < p.len() {
                assert(t[x] == p[x]);
                assert(inside_some(p[x], d));
                let i = choose|i: int| 0 <= i < d.len() && lies_within(p[x], #[trigger] d[i]);
                assert(d[i] == s[i]);
            } else {
                assert(t[x] == q[x - p.len()]);
                assert(lies_within(t[x], s[s.len() - 1]));
            }
        }
        assert forall|x: int, y: int| 0 <= x < y < t.len() implies !share_address(#[trigger] t[x], #[trigger] t[y]) by {
            if y < p.len() {
                assert(t[x] == p[x] && t[y] == p[y]);
            } else if x >= p.len() {
                assert(t[x] == q[x - p.len()] && t[y] == q[y - p.len()]);
            } else {
                assert(t[x] == p[x] && t[y] == q[y - p.len()]);
                assert(inside_some(p[x], d));
                let i = choose|i: int| 0 <= i < d.len() && lies_within(p[x], #[trigger] d[i]);
                assert(d[i] == s[i]);
                assert(!share_address(s[i], s[s.len() - 1]));
                assert(lies_within(q[y - p.len()], r));
            }
        }
    }
}

/// Whether pieces `x` and `y` of `t` were cut from ranges of `s` in the
/// order of those ranges (from the same range, or `x` from an earlier one).
pub open spec fn cut_in_order(t: Seq<MemoryRange>, s: Seq<MemoryRange>, kind: MemoryKind, x: int, y: int) -> bool {
    exists|i: int, j: int|
        0 <= i <= j < s.len() && cut_from(t[x], #[trigger] s[i], kind) && cut_from(t[y], #[trigger] s[j], kind)
}

/// A reservation cuts every range into pieces that keep its firmware type,
/// in the order of the ranges they were cut from: each piece lies inside
/// the range it was cut from, has that range's firmware type and either its
/// classification or the reservation's, and is not empty unless it is that
/// whole range; of two pieces, the earlier one was cut from the same range
/// or an earlier one.  When the ranges came in address order, the pieces
/// do too.
pub proof fn reservation_keeps_order_and_firmware_types(s: Seq<MemoryRange>, start: u64, end: u64, kind: MemoryKind)
    ensures
        forall|x: int|
            0 <= x < reserved_ranges(s, start, end, kind).len() ==> cut_from_some(
                #[trigger] reserved_ranges(s, start, end, kind)[x],
                s,
                kind,
            ),
        forall|x: int, y: int|
            0 <= x < y < reserved_ranges(s, start, end, kind).len() ==> #[trigger] cut_in_order(
                reserved_ranges(s, start, end, kind),
                s,
                kind,
                x,
                y,
            ),
        ranges_sorted(s) ==> ranges_sorted(reserved_ranges(s, start, end, kind)),
    decreases s.len(),
{
    if s.len() > 0 {
        let d = s.drop_last();
        let r = s.last();
        assert forall|i: int| 0 <= i < d.len() implies #[trigger] d[i] == s[i] by {}
        if ranges_sorted(s) {
            assert forall|i: int, j: int| 0 <= i < j < d.len() implies (#[trigger] d[i]).spec_end() <= (#[trigger] d[j]).start by {
                assert(d[i] == s[i] && d[j] == s[j]);
            }
        }
        reservation_keeps_order_and_firmware_types(d, start, end, kind);
        lemma_split_pieces(r, start, end, kind);
        let p = reserved_ranges(d, start, end, kind);
        let q = split_for_reservation(r, start, end, kind);
        let t = reserved_ranges(s, start, end, kind);
        let last = s.len() - 1;
        assert(t == p + q);
        assert(s[last] == r);
        assert forall|x: int| 0 <= x < t.len() implies cut_from_some(#[trigger] t[x], s, kind) by {
            if x < p.len() {
                assert(t[x] == p[x]);
                assert(cut_from_some(p[x], d, kind));
                let i = choose|i: int| 0 <= i < d.len() && cut_from(p[x], #[trigger] d[i], kind);
                assert(d[i] == s[i]);
            } else {
                assert(t[x] == q[x - p.len()]);
                assert(cut_from(t[x], s[last], kind));
            }
        }
        assert forall|x: int, y: int| 0 <= x < y < t.len() implies #[trigger] cut_in_order(t, s, kind, x, y) by {
            if y < p.len() {
                assert(t[x] == p[x] && t[y] == p[y]);
                assert(cut_in_order(p, d, kind, x, y));
                let (i, j) = choose|i: int, j: int|
                    0 <= i <= j < d.len() && cut_from(p[x], #[trigger] d[i], kind) && cut_from(p[y], #[trigger] d[j], kind);
                assert(d[i] == s[i] && d[j] == s[j]);
                assert(cut_from(t[x], s[i], kind) && cut_from(t[y], s[j], kind));
            } else if x >= p.len() {
                assert(t[x] == q[x - p.len()] && t[y] == q[y - p.len()]);
                assert(cut_from(t[x], s[last], kind) && cut_from(t[y], s[last], kind));
            } else {
                assert(t[x] == p[x] && t[y] == q[y - p.len()]);
                assert(cut_from_some(p[x], d, kind));
                let i = choose|i: int| 0 <= i < d.len() && cut_from(p[x], #[trigger] d[i], kind);
                assert(d[i] == s[i]);
                assert(cut_from(t[x], s[i], kind) && cut_from(t[y], s[last], kind));
            }
        }
        if ranges_sorted(s) {
            assert forall|x: int, y: int| 0 <= x < y < t.len() implies (#[trigger] t[x]).spec_end() <= (#[trigger] t[y]).start by {
                if y < p.len() {
                    assert(t[x] == p[x] && t[y] == p[y]);
                } else if x >= p.len() {
                    assert(t[x] == q[x - p.len()] && t[y] == q[y - p.len()]);
                } else {
                    assert(t[x] == p[x] && t[y] == q[y - p.len()]);
                    assert(cut_from_some(p[x], d, kind));
                    let i = choose|i: int| 0 <= i < d.len() && cut_from(p[x], #[trigger] d[i], kind);
                    assert(d[i] == s[i]);
                    assert(s[i].spec_end() <= s[last].start);
                    assert(cut_from(q[y - p.len()], r, kind));
                }
            }
        }
    }
}

} // verus!
