//! Seeding a buddy map from the memory map that the firmware hands over.
//!
//! The map is set up at the first region of conventional memory, and its
//! first page is kept for the map itself. The regions that follow are freed
//! where the kernel can reclaim them and where the map tracks them.

use vstd::prelude::*;
use crate::memory::frame::{Buddy, BuddyError, BuddyView, PAGE_COUNT, PAGE_SIZE};

verus! {

/// The kinds of regions of a memory map, as far as the seeding tells them
/// apart.
#[derive(Clone, Copy, Debug, PartialEq, Eq, Structural)]
pub enum RegionKind {
    /// Data of the loader.
    LoaderData,
    /// Code of the boot services.
    BootServicesCode,
    /// Data of the boot services.
    BootServicesData,
    /// Memory that nothing uses.
    Conventional,
    /// Any other kind: memory that stays with the firmware or the devices.
    Other,
}

/// A region of a memory map.
#[derive(Clone, Copy, Debug, PartialEq, Eq, Structural)]
pub struct Region {
    /// What the region holds.
    pub kind: RegionKind,
    /// Address of the first page of the region.
    pub physical_start: u64,
    /// Number of pages in the region.
    pub number_of_pages: u64,
}

impl Region {
    /// Whether the region is conventional memory, where a map can be set up.
    pub open spec fn conventional(&self) -> bool {
        self.kind == RegionKind::Conventional
    }

    /// Whether the kernel can reclaim the region once it runs.
    pub open spec fn reclaimable(&self) -> bool {
        self.kind != RegionKind::Other
    }

    /// Whether the kernel can reclaim the region once it runs.
    #[verifier::when_used_as_spec(reclaimable)]
    pub fn is_reclaimable(&self) -> (reclaimable: bool)
        ensures
            reclaimable == self.reclaimable(),
    {
        match self.kind {
            RegionKind::LoaderData => true,
            RegionKind::BootServicesCode => true,
            RegionKind::BootServicesData => true,
            RegionKind::Conventional => true,
            RegionKind::Other => false,
        }
    }
}

/// The free pages of a map at `base` once it has taken in `region`, where
/// they were `pages` before: a region that can be reclaimed and that starts
/// inside the span of the map is freed, as far as the map tracks it.
pub open spec fn pages_with(pages: Set<int>, base: u64, region: Region) -> Set<int> {
    if region.reclaimable() && base <= region.physical_start < base + PAGE_COUNT * PAGE_SIZE {
        pages.union(
            Buddy::page_range(
                (region.physical_start - base) / 4096,
                region.number_of_pages as int,
            ),
        )
    } else {
        pages
    }
}

/// The free pages of a map that is set up at `region`: all pages of the
/// region that the map tracks, but for the first, which holds the map.
pub open spec fn pages_at_start(region: Region) -> Set<int> {
    Buddy::page_range(1, region.number_of_pages - 1)
}

/// The index of the first region of conventional memory among the first
/// `upto`, or `upto` where there is none.
pub open spec fn first_conventional(regions: Seq<Region>, upto: int) -> int
    decreases upto,
{
    if upto <= 0 {
        0
    } else if first_conventional(regions, upto - 1) < upto - 1 {
        first_conventional(regions, upto - 1)
    } else if regions[upto - 1].conventional() {
        upto - 1
    } else {
        upto
    }
}

/// The free pages of the map that the first `upto` regions seed, where one
/// of them is conventional memory.
pub open spec fn seeded_pages(regions: Seq<Region>, upto: int) -> Set<int>
    decreases upto,
{
    let first = first_conventional(regions, upto);
    if upto <= 0 || first >= upto {
        Set::empty()
    } else if first == upto - 1 {
        pages_at_start(regions[first])
    } else {
        pages_with(seeded_pages(regions, upto - 1), regions[first].physical_start, regions[upto - 1])
    }
}

/// The number of pages to hand to the map for a region of `pages` pages: a
/// map tracks no more than `PAGE_COUNT`, so a longer range is cut there.
pub fn page_count(pages: u64) -> (count: usize)
    ensures
        count == if pages > PAGE_COUNT {
            PAGE_COUNT as int
        } else {
            pages as int
        },
        forall|first: int|
            0 <= first ==> Buddy::page_range(first, count as int) == Buddy::page_range(
                first,
                pages as int,
            ),
{
    let count = if pages > PAGE_COUNT as u64 {
        PAGE_COUNT
    } else {
        pages as usize
    };
    assert forall|first: int| 0 <= first implies Buddy::page_range(first, count as int)
        == Buddy::page_range(first, pages as int) by {
        assert(Buddy::page_range(first, count as int) =~= Buddy::page_range(first, pages as int));
    }
    count
}

/// Takes one region of the memory map in.
///
/// While there is no map, a region of conventional memory gets one: the map
/// is set up at the start of the region, and the pages of the region after
/// the first are freed. Once there is a map, a region that can be reclaimed
/// is freed where it starts inside the span of the map. Any other region is
/// passed over.
pub fn seed_region(map: Option<Buddy>, region: Region) -> (seeded: Result<Option<Buddy>, BuddyError>)
    requires
        map matches Some(before) ==> before.wf(),
    ensures
        match map {
            Some(before) => {
                &&& seeded matches Ok(Some(after))
                &&& after.wf()
                &&& after@ == (BuddyView {
                    free: pages_with(before@.free, before@.base, region),
                    ..before@
                })
            },
            None => if region.conventional() {
                match seeded {
                    Ok(started) => {
                        &&& started matches Some(after)
                        &&& after.wf()
                        &&& after@ == (BuddyView {
                            base: region.physical_start,
                            next_map: None,
                            free: pages_at_start(region),
                        })
                    },
                    Err(error) => Buddy::new_error(region.physical_start, region.physical_start)
                        == Some(error),
                }
            } else {
                seeded == Ok::<Option<Buddy>, BuddyError>(None)
            },
        },
{
    match map {
        None => {
            if region.kind == RegionKind::Conventional {
                let mut started = Buddy::new(region.physical_start, region.physical_start)?;
                if region.number_of_pages > 1 {
                    started.free(
                        region.physical_start + PAGE_SIZE,
                        page_count(region.number_of_pages - 1),
                    );
                    assert(started.free_pages() =~= pages_at_start(region));
                } else {
                    assert(started.free_pages() =~= pages_at_start(region));
                }
                Ok(Some(started))
            } else {
                Ok(None)
            }
        },
        Some(before) => {
            let mut after = before;
            if region.is_reclaimable() {
                after.free(region.physical_start, page_count(region.number_of_pages));
            }
            Ok(Some(after))
        },
    }
}

/// Seeds a map from a memory map.
///
/// The map is set up at the first region of conventional memory, and takes
/// in the regions after it, in their order. The result is `None` where no
/// region is conventional memory, and an error where no map can be set up
/// at the first one that is.
pub fn seed(regions: &[Region]) -> (seeded: Result<Option<Buddy>, BuddyError>)
    ensures
        match seeded {
            Ok(None) => first_conventional(regions@, regions@.len() as int) == regions@.len(),
            Ok(Some(map)) => {
                let first = first_conventional(regions@, regions@.len() as int);
                &&& first < regions@.len()
                &&& map.wf()
                &&& map@ == (BuddyView {
                    base: regions@[first].physical_start,
                    next_map: None,
                    free: seeded_pages(regions@, regions@.len() as int),
                })
            },
            Err(error) => {
                let first = first_conventional(regions@, regions@.len() as int);
                &&& first < regions@.len()
                &&& Buddy::new_error(regions@[first].physical_start, regions@[first].physical_start)
                    == Some(error)
            },
        },
{
    let mut map: Option<Buddy> = None;
    let mut index: usize = 0;
    while index < regions.len()
        invariant
            index <= regions@.len(),
            match map {
                None => first_conventional(regions@, index as int) == index,
                Some(current) => {
                    let first = first_conventional(regions@, index as int);
                    &&& first < index
                    &&& current.wf()
                    &&& current.base() == regions@[first].physical_start
                    &&& current.next_map() is None
                    &&& current.free_pages() == seeded_pages(regions@, index as int)
                },
            },
        decreases regions@.len() - index,
    {
        proof {
            lemma_first_conventional(regions@, index as int);
            lemma_first_conventional(regions@, index + 1);
        }
        match seed_region(map, regions[index]) {
            Ok(next) => {
                map = next;
            },
            Err(error) => {
                proof {
                    lemma_first_stays(regions@, index + 1, regions@.len() as int);
                }
                return Err(error);
            },
        }
        index += 1;
    }
    Ok(map)
}

/// The first region of conventional memory lies among the regions looked
/// at, is conventional memory, and has none before it.
pub proof fn lemma_first_conventional(regions: Seq<Region>, upto: int)
    requires
        0 <= upto <= regions.len(),
    ensures
        0 <= first_conventional(regions, upto) <= upto,
        first_conventional(regions, upto) < upto ==> regions[first_conventional(
            regions,
            upto,
        )].conventional(),
        forall|k: int| 0 <= k < first_conventional(regions, upto) ==> !regions[k].conventional(),
    decreases upto,
{
    if upto > 0 {
        lemma_first_conventional(regions, upto - 1);
    }
}

/// Once a region of conventional memory is found, it stays the first
/// however many more regions are looked at.
pub proof fn lemma_first_stays(regions: Seq<Region>, found: int, upto: int)
    requires
        0 <= found <= upto <= regions.len(),
        first_conventional(regions, found) < found,
    ensures
        first_conventional(regions, upto) == first_conventional(regions, found),
    decreases upto - found,
{
    if found < upto {
        lemma_first_stays(regions, found, upto - 1);
    }
}

} // verus!
