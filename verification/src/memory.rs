//! Physical memory summary computed from the boot loader's memory map.
use vstd::prelude::*;

verus! {

/// The kind of a physical memory region, as the boot loader reports it.
#[derive(Clone, Copy, Debug, PartialEq, Eq, Structural)]
pub enum MemoryRegionKind {
    /// Unused conventional memory, free for the kernel.
    Usable,
    /// Memory used by the boot loader.
    Bootloader,
    /// An unknown UEFI memory type, with its raw value.
    UnknownUefi(u32),
    /// An unknown BIOS memory type, with its raw value.
    UnknownBios(u32),
}

/// One region of the physical memory map: `start..end` with its kind.
#[derive(Clone, Copy, Debug, PartialEq, Eq, Structural)]
pub struct MemoryRegion {
    /// Physical start address (inclusive).
    pub start: u64,
    /// Physical end address (exclusive).
    pub end: u64,
    /// What the region holds.
    pub kind: MemoryRegionKind,
}

/// Physical memory summary parsed from the boot loader's memory map.
#[derive(Clone, Copy, Debug, PartialEq, Eq, Structural)]
pub struct MemoryInfo {
    /// Total bytes of usable memory.
    pub total_usable: u64,
    /// Start of the largest usable region.
    pub largest_usable_region_start: u64,
    /// Size in bytes of the largest usable region.
    pub largest_usable_region_size: u64,
}

/// The region is usable.
pub open spec fn is_usable(r: MemoryRegion) -> bool {
    r.kind == MemoryRegionKind::Usable
}

/// Size of a usable region, as an integer.
pub open spec fn region_size(r: MemoryRegion) -> int {
    r.end - r.start
}

/// Every usable region ends at or after its start.
pub open spec fn regions_well_ordered(regions: Seq<MemoryRegion>) -> bool {
    forall|i: int| 0 <= i < regions.len() && is_usable(#[trigger] regions[i]) ==> regions[i].start <= regions[i].end
}

/// Total size of the usable regions.
pub open spec fn usable_total(regions: Seq<MemoryRegion>) -> int
    decreases regions.len(),
{
    if regions.len() == 0 {
        0
    } else {
        let last = regions.last();
        usable_total(regions.drop_last()) + if is_usable(last) { region_size(last) } else { 0 }
    }
}

/// `(start, size)` is the largest usable region of `regions`, the first one when several have
/// the largest size, or `(0, 0)` when no usable region has a positive size.
pub open spec fn is_largest_usable(regions: Seq<MemoryRegion>, start: u64, size: u64) -> bool {
    &&& forall|j: int| 0 <= j < regions.len() && is_usable(#[trigger] regions[j]) ==> region_size(regions[j]) <= size
    &&& size == 0 ==> start == 0
    &&& size > 0 ==> exists|i: int|
        0 <= i < regions.len() && is_usable(#[trigger] regions[i]) && region_size(regions[i]) == size
            && regions[i].start == start
            && forall|j: int| 0 <= j < i && is_usable(#[trigger] regions[j]) ==> region_size(regions[j]) < size
}

proof fn lemma_usable_total_monotone(regions: Seq<MemoryRegion>, i: int)
    requires
        0 <= i <= regions.len(),
        regions_well_ordered(regions),
    ensures
        usable_total(regions.take(i)) <= usable_total(regions),
    decreases regions.len() - i,
{
    if i < regions.len() {
        lemma_usable_total_monotone(regions, i + 1);
        assert(regions.take(i + 1).drop_last() =~= regions.take(i));
        assert(regions.take(i + 1).last() == regions[i]);
    } else {
        assert(regions.take(i) =~= regions);
    }
}

/// The largest usable region of `regions`, as `(start, size)`: the first one of the largest
/// size, or `(0, 0)` when there is none.
pub fn largest_usable_region(regions: &[MemoryRegion]) -> (r: (u64, u64))
    requires
        regions_well_ordered(regions@),
    ensures
        is_largest_usable(regions@, r.0, r.1),
{
    let mut best_start: u64 = 0;
    let mut best_size: u64 = 0;
    let mut i: usize = 0;
    while i < regions.len()
        invariant
            i <= regions@.len(),
            regions_well_ordered(regions@),
            is_largest_usable(regions@.take(i as int), best_start, best_size),
        decreases regions@.len() - i,
    {
        let region = regions[i];
        let ghost prefix = regions@.take(i as int);
        let ghost next = regions@.take(i + 1);
        assert(forall|j: int| 0 <= j < i ==> next[j] == prefix[j]);
        assert(next[i as int] == region);
        match region.kind {
            MemoryRegionKind::Usable => {
                let size = region.end - region.start;
                if size > best_size {
                    proof {
                        assert(is_usable(next[i as int]));
                        assert forall|j: int| 0 <= j < i && is_usable(#[trigger] next[j]) implies region_size(next[j]) < size by {
                            assert(is_usable(prefix[j]));
                        }
                    }
                    best_size = size;
                    best_start = region.start;
                } else {
                    proof {
                        if best_size > 0 {
                            let w = choose|w: int|
                                0 <= w < prefix.len() && is_usable(#[trigger] prefix[w]) && region_size(prefix[w]) == best_size
                                    && prefix[w].start == best_start
                                    && forall|j: int| 0 <= j < w && is_usable(#[trigger] prefix[j]) ==> region_size(prefix[j]) < best_size;
                            assert(is_usable(next[w]));
                            assert forall|j: int| 0 <= j < w && is_usable(#[trigger] next[j]) implies region_size(next[j]) < best_size by {
                                assert(is_usable(prefix[j]));
                            }
                        }
                        assert forall|j: int| 0 <= j < next.len() && is_usable(#[trigger] next[j]) implies region_size(next[j]) <= best_size by {
                            if j < i {
                                assert(is_usable(prefix[j]));
                            }
                        }
                    }
                }
            }
            _ => {
                proof {
                    if best_size > 0 {
                        let w = choose|w: int|
                            0 <= w < prefix.len() && is_usable(#[trigger] prefix[w]) && region_size(prefix[w]) == best_size
                                && prefix[w].start == best_start
                                && forall|j: int| 0 <= j < w && is_usable(#[trigger] prefix[j]) ==> region_size(prefix[j]) < best_size;
                        assert(is_usable(next[w]));
                        assert forall|j: int| 0 <= j < w && is_usable(#[trigger] next[j]) implies region_size(next[j]) < best_size by {
                            assert(is_usable(prefix[j]));
                        }
                    }
                    assert forall|j: int| 0 <= j < next.len() && is_usable(#[trigger] next[j]) implies region_size(next[j]) <= best_size by {
                        if j < i {
                            assert(is_usable(prefix[j]));
                        }
                    }
                }
            }
        }
        i = i + 1;
    }
    proof {
        assert(regions@.take(regions@.len() as int) =~= regions@);
    }
    (best_start, best_size)
}

impl MemoryInfo {
    /// Summarizes the memory map: the total usable size and the largest usable region.
    pub fn from_regions(regions: &[MemoryRegion]) -> (r: MemoryInfo)
        requires
            regions_well_ordered(regions@),
            usable_total(regions@) <= u64::MAX,
        ensures
            r.total_usable == usable_total(regions@),
            is_largest_usable(regions@, r.largest_usable_region_start, r.largest_usable_region_size),
    {
        let mut total: u64 = 0;
        let mut i: usize = 0;
        while i < regions.len()
            invariant
                i <= regions@.len(),
                regions_well_ordered(regions@),
                usable_total(regions@) <= u64::MAX,
                total == usable_total(regions@.take(i as int)),
            decreases regions@.len() - i,
        {
            let region = regions[i];
            proof {
                assert(regions@.take(i + 1).drop_last() =~= regions@.take(i as int));
                assert(regions@.take(i + 1).last() == region);
                lemma_usable_total_monotone(regions@, i + 1);
            }
            match region.kind {
                MemoryRegionKind::Usable => {
                    total = total + (region.end - region.start);
                }
                _ => {}
            }
            i = i + 1;
        }
        proof {
            assert(regions@.take(regions@.len() as int) =~= regions@);
        }
        let (largest_start, largest_size) = largest_usable_region(regions);
        MemoryInfo {
            total_usable: total,
            largest_usable_region_start: largest_start,
            largest_usable_region_size: largest_size,
        }
    }
}


/// The largest usable region is no larger than all usable memory together.
pub proof fn law_largest_within_total(regions: Seq<MemoryRegion>, start: u64, size: u64)
    requires
        regions_well_ordered(regions),
        is_largest_usable(regions, start, size),
    ensures
        size <= usable_total(regions),
{
    if size > 0 {
        let i = choose|i: int|
            0 <= i < regions.len() && is_usable(#[trigger] regions[i]) && region_size(regions[i]) == size
                && regions[i].start == start
                && forall|j: int| 0 <= j < i && is_usable(#[trigger] regions[j]) ==> region_size(regions[j]) < size;
        lemma_total_covers(regions, i);
    } else {
        lemma_total_nonneg(regions);
    }
}

proof fn lemma_total_nonneg(regions: Seq<MemoryRegion>)
    requires
        regions_well_ordered(regions),
    ensures
        usable_total(regions) >= 0,
    decreases regions.len(),
{
    if regions.len() > 0 {
        let d = regions.drop_last();
        assert forall|k: int| 0 <= k < d.len() && is_usable(#[trigger] d[k]) implies d[k].start <= d[k].end by {
            assert(d[k] == regions[k]);
        }
        lemma_total_nonneg(d);
        assert(regions.last() == regions[regions.len() - 1]);
    }
}

proof fn lemma_total_covers(regions: Seq<MemoryRegion>, i: int)
    requires
        regions_well_ordered(regions),
        0 <= i < regions.len(),
        is_usable(regions[i]),
    ensures
        region_size(regions[i]) <= usable_total(regions),
    decreases regions.len(),
{
    let d = regions.drop_last();
    assert forall|k: int| 0 <= k < d.len() && is_usable(#[trigger] d[k]) implies d[k].start <= d[k].end by {
        assert(d[k] == regions[k]);
    }
    assert(regions.last() == regions[regions.len() - 1]);
    if i == regions.len() - 1 {
        lemma_total_nonneg(d);
    } else {
        assert(d[i] == regions[i]);
        lemma_total_covers(d, i);
    }
}

} // verus!
