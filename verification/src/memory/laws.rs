//! Laws of the buddy map that relate several of its operations.
//!
//! Each law speaks of maps before and after calls of `free`, `mark` and
//! `allocate`, through what those calls guarantee.

use vstd::prelude::*;
use vstd::set_lib::lemma_int_range;
use crate::memory::frame::{block_pages, layer_slots, Buddy, PAGE_COUNT};
use crate::memory::layers::{
    all_free, lemma_all_free_covered, lemma_covered_all_free, lemma_free_at_maximal,
    lemma_view_determines_map,
};

verus! {

/// The slot next to `slot` that forms a block of the next layer with it.
pub open spec fn sibling(slot: int) -> int {
    if slot % 2 == 0 {
        slot + 1
    } else {
        slot - 1
    }
}

/// Whether `page` is free on its own among `pages`: it is free, and the
/// page next to it is not.
pub open spec fn lone(pages: Set<int>, page: int) -> bool {
    pages.contains(page) && !pages.contains(sibling(page))
}

/// The page that an allocation hands out, told from the free pages alone: the
/// lowest page that is free on its own, or, where no page is, the lowest
/// free page.
pub open spec fn picked(pages: Set<int>, page: int) -> bool {
    &&& pages.contains(page)
    &&& {
        ||| lone(pages, page) && forall|q: int| 0 <= q < page ==> !lone(pages, q)
        ||| (forall|q: int| 0 <= q < PAGE_COUNT ==> !lone(pages, q)) && forall|q: int|
            0 <= q < page ==> !pages.contains(q)
    }
}

/// A page reads as free on the finest layer exactly when it is free on its
/// own.
pub proof fn lemma_single_page(map: Buddy, page: int)
    requires
        map.wf(),
        0 <= page < PAGE_COUNT,
    ensures
        map.free_at(0, page) == lone(map.free_pages(), page),
{
    lemma_free_at_maximal(map, 0, page);
    lemma_all_free_pages(map.free_pages(), page);
    lemma_all_free_pages(map.free_pages(), page / 2);
}

/// The page that an allocation picks is told by the free pages alone.
pub proof fn lemma_picks(map: Buddy, page: int)
    requires
        map.wf(),
    ensures
        map.picks(page) == picked(map.free_pages(), page),
{
    let pages = map.free_pages();
    assert forall|q: int| 0 <= q < PAGE_COUNT implies map.free_at(0, q) == lone(pages, q) by {
        lemma_single_page(map, q);
    }
    let none_below = forall|q: int| 0 <= q < page ==> !map.free_at(0, q);
    let none_lone_below = forall|q: int| 0 <= q < page ==> !lone(pages, q);
    let none = forall|q: int| 0 <= q < PAGE_COUNT ==> !map.free_at(0, q);
    let none_lone = forall|q: int| 0 <= q < PAGE_COUNT ==> !lone(pages, q);
    let none_free_below = forall|q: int| 0 <= q < page ==> !map.page_free(q);
    let none_held_below = forall|q: int| 0 <= q < page ==> !pages.contains(q);
    if map.page_free(page) {
        assert(none_below == none_lone_below) by {
            if none_below {
                assert forall|q: int| 0 <= q < page implies !lone(pages, q) by {
                    assert(!map.free_at(0, q));
                }
            }
            if none_lone_below {
                assert forall|q: int| 0 <= q < page implies !map.free_at(0, q) by {
                    assert(!lone(pages, q));
                }
            }
        }
        assert(none == none_lone) by {
            if none {
                assert forall|q: int| 0 <= q < PAGE_COUNT implies !lone(pages, q) by {
                    assert(!map.free_at(0, q));
                }
            }
            if none_lone {
                assert forall|q: int| 0 <= q < PAGE_COUNT implies !map.free_at(0, q) by {
                    assert(!lone(pages, q));
                }
            }
        }
        assert(none_free_below == none_held_below) by {
            if none_free_below {
                assert forall|q: int| 0 <= q < page implies !pages.contains(q) by {
                    assert(!map.page_free(q));
                }
            }
            if none_held_below {
                assert forall|q: int| 0 <= q < page implies !map.page_free(q) by {
                    assert(!pages.contains(q));
                }
            }
        }
        assert(map.free_at(0, page) == lone(pages, page));
    }
}

/// Marking a free page as used and freeing it again gives back the map as it
/// was, byte for byte.
pub proof fn lemma_mark_free_round_trip(before: Buddy, between: Buddy, after: Buddy, address: u64)
    requires
        before.wf(),
        before.tracks(address),
        before.page_free(before.page_of(address)),
        Buddy::marked(before, between, address, 1),
        Buddy::freed(between, after, address, 1),
    ensures
        after == before,
{
    assert(after.free_pages() =~= before.free_pages());
    lemma_view_determines_map(after, before);
}

/// Freeing a page that is in use and marking it again gives back the map as
/// it was, byte for byte.
pub proof fn lemma_free_mark_round_trip(before: Buddy, between: Buddy, after: Buddy, address: u64)
    requires
        before.wf(),
        before.tracks(address),
        !before.page_free(before.page_of(address)),
        Buddy::freed(before, between, address, 1),
        Buddy::marked(between, after, address, 1),
    ensures
        after == before,
{
    assert(after.free_pages() =~= before.free_pages());
    lemma_view_determines_map(after, before);
}

/// Freeing the two halves of a block, in either order, joins them: both
/// halves read as used, and the block is free as a whole. Its own slot reads
/// as free unless the block went on to join its neighbour.
pub proof fn lemma_halves_coalesce(
    start: Buddy,
    half: Buddy,
    whole: Buddy,
    layer: int,
    slot: int,
    low: u64,
    high: u64,
    low_first: bool,
)
    requires
        start.wf(),
        1 <= layer <= 3,
        0 <= slot < layer_slots(layer),
        low == start.address_of(2 * slot * block_pages(layer - 1)),
        high == start.address_of((2 * slot + 1) * block_pages(layer - 1)),
        Buddy::freed(
            start,
            half,
            if low_first { low } else { high },
            block_pages(layer - 1) as usize,
        ),
        Buddy::freed(
            half,
            whole,
            if low_first { high } else { low },
            block_pages(layer - 1) as usize,
        ),
    ensures
        !whole.free_at(layer - 1, 2 * slot),
        !whole.free_at(layer - 1, 2 * slot + 1),
        whole.covered(layer, slot),
        whole.free_at(layer, slot) == (layer == 3 || !all_free(
            whole.free_pages(),
            layer + 1,
            slot / 2,
        )),
{
    reveal_with_fuel(all_free, 4);
    let pages = whole.free_pages();
    let count = block_pages(layer - 1);
    assert(start.page_of(low) == 2 * slot * count);
    assert(start.page_of(high) == (2 * slot + 1) * count);
    let low_range = Buddy::page_range(2 * slot * count, count);
    let high_range = Buddy::page_range((2 * slot + 1) * count, count);
    assert(forall|p: int| low_range.contains(p) ==> pages.contains(p));
    assert(forall|p: int| high_range.contains(p) ==> pages.contains(p));
    assert(all_free(pages, layer - 1, 2 * slot)) by {
        if layer == 1 {
            assert(low_range.contains(2 * slot));
        } else if layer == 2 {
            assert(low_range.contains(4 * slot));
            assert(low_range.contains(4 * slot + 1));
        } else {
            assert(low_range.contains(8 * slot));
            assert(low_range.contains(8 * slot + 1));
            assert(low_range.contains(8 * slot + 2));
            assert(low_range.contains(8 * slot + 3));
        }
    }
    assert(all_free(pages, layer - 1, 2 * slot + 1)) by {
        if layer == 1 {
            assert(high_range.contains(2 * slot + 1));
        } else if layer == 2 {
            assert(high_range.contains(4 * slot + 2));
            assert(high_range.contains(4 * slot + 3));
        } else {
            assert(high_range.contains(8 * slot + 4));
            assert(high_range.contains(8 * slot + 5));
            assert(high_range.contains(8 * slot + 6));
            assert(high_range.contains(8 * slot + 7));
        }
    }
    assert(all_free(pages, layer, slot));
    assert((2 * slot) / 2 == slot && (2 * slot + 1) / 2 == slot);
    lemma_all_free_covered(whole, layer, slot);
    lemma_free_at_maximal(whole, layer, slot);
    lemma_free_at_maximal(whole, layer - 1, 2 * slot);
    lemma_free_at_maximal(whole, layer - 1, 2 * slot + 1);
}

/// Freeing one half of a block never frees the block: while a page of the
/// other half is in use, the block is not free as a whole.
pub proof fn lemma_half_alone(
    start: Buddy,
    half: Buddy,
    layer: int,
    slot: int,
    address: u64,
    low_half: bool,
)
    requires
        start.wf(),
        1 <= layer <= 3,
        0 <= slot < layer_slots(layer),
        address == start.address_of(
            (if low_half { 2 * slot } else { 2 * slot + 1 }) * block_pages(layer - 1),
        ),
        !all_free(
            start.free_pages(),
            layer - 1,
            if low_half { 2 * slot + 1 } else { 2 * slot },
        ),
        Buddy::freed(start, half, address, block_pages(layer - 1) as usize),
    ensures
        !half.covered(layer, slot),
        !half.free_at(layer, slot),
{
    reveal_with_fuel(all_free, 4);
    reveal_with_fuel(Buddy::covered, 2);
    let count = block_pages(layer - 1);
    let this = if low_half { 2 * slot } else { 2 * slot + 1 };
    let other = if low_half { 2 * slot + 1 } else { 2 * slot };
    assert(start.page_of(address) == this * count);
    let range = Buddy::page_range(this * count, count);
    assert(forall|p: int| half.free_pages().contains(p) ==> start.free_pages().contains(p)
        || range.contains(p));
    assert(!all_free(half.free_pages(), layer - 1, other));
    assert(!all_free(half.free_pages(), layer, slot));
    if half.covered(layer, slot) {
        lemma_covered_all_free(half, layer, slot);
    }
}

/// The pages of a block, written out for each layer.
pub proof fn lemma_all_free_pages(pages: Set<int>, slot: int)
    ensures
        all_free(pages, 0, slot) == pages.contains(slot),
        all_free(pages, 1, slot) == (pages.contains(2 * slot) && pages.contains(2 * slot + 1)),
        all_free(pages, 2, slot) == (pages.contains(4 * slot) && pages.contains(4 * slot + 1)
            && pages.contains(4 * slot + 2) && pages.contains(4 * slot + 3)),
        all_free(pages, 3, slot) == (pages.contains(8 * slot) && pages.contains(8 * slot + 1)
            && pages.contains(8 * slot + 2) && pages.contains(8 * slot + 3) && pages.contains(
            8 * slot + 4,
        ) && pages.contains(8 * slot + 5) && pages.contains(8 * slot + 6) && pages.contains(
            8 * slot + 7,
        )),
{
    reveal_with_fuel(all_free, 4);
}

/// Marking one page of a free block of eight splits the block down to the
/// page: the page and the blocks of two, four and eight pages that hold it
/// read as used, and the other seven pages stay free, as one page, one block
/// of two and one block of four.
pub proof fn lemma_mark_splits(start: Buddy, after: Buddy, page: int, address: u64)
    requires
        start.wf(),
        0 <= page < PAGE_COUNT,
        start.free_at(3, page / 8),
        address == start.address_of(page),
        Buddy::marked(start, after, address, 1),
    ensures
        !after.free_at(0, page),
        !after.free_at(1, page / 2),
        !after.free_at(2, page / 4),
        !after.free_at(3, page / 8),
        after.free_at(0, sibling(page)),
        after.free_at(1, sibling(page / 2)),
        after.free_at(2, sibling(page / 4)),
        forall|q: int| 0 <= q < PAGE_COUNT && q / 8 == page / 8 && q != page ==> after.page_free(q),
{
    let block = page / 8;
    let before = start.free_pages();
    let pages = after.free_pages();
    assert(start.page_of(address) == page);
    assert(start.covered(3, block)) by {
        reveal_with_fuel(Buddy::covered, 2);
    }
    lemma_covered_all_free(start, 3, block);
    lemma_all_free_pages(before, block);
    assert(Buddy::page_range(page, 1) =~= set![page]);
    assert forall|q: int| 0 <= q < PAGE_COUNT && q / 8 == block implies before.contains(q) by {
        assert(q == 8 * block || q == 8 * block + 1 || q == 8 * block + 2 || q == 8 * block + 3
            || q == 8 * block + 4 || q == 8 * block + 5 || q == 8 * block + 6 || q == 8 * block
            + 7);
    }
    assert forall|q: int| 0 <= q < PAGE_COUNT && q / 8 == block implies #[trigger] pages.contains(
        q,
    ) == (q != page) by {
        assert(before.contains(q));
    }
    assert forall|q: int| 0 <= q < PAGE_COUNT && q / 8 == page / 8 && q != page implies after.page_free(
        q,
    ) by {
        assert(pages.contains(q));
    }
    lemma_splits_used(after, page);
    lemma_splits_free(after, page);
}

/// Where a page is in use, no block that holds it reads as free.
proof fn lemma_splits_used(map: Buddy, page: int)
    requires
        map.wf(),
        0 <= page < PAGE_COUNT,
        !map.free_pages().contains(page),
    ensures
        !map.free_at(0, page),
        !map.free_at(1, page / 2),
        !map.free_at(2, page / 4),
        !map.free_at(3, page / 8),
{
    assert(!map.page_free(page));
}

/// A block of two pages reads as free exactly when both pages are free and
/// the block of four that holds them is not free as a whole.
proof fn lemma_pair_block(map: Buddy, slot: int)
    requires
        map.wf(),
        0 <= slot < layer_slots(1),
    ensures
        map.free_at(1, slot) == (all_free(map.free_pages(), 1, slot) && !all_free(
            map.free_pages(),
            2,
            slot / 2,
        )),
{
    lemma_free_at_maximal(map, 1, slot);
}

/// A block of four pages reads as free exactly when its pages are free and
/// the block of eight that holds them is not free as a whole.
proof fn lemma_quad_block(map: Buddy, slot: int)
    requires
        map.wf(),
        0 <= slot < layer_slots(2),
    ensures
        map.free_at(2, slot) == (all_free(map.free_pages(), 2, slot) && !all_free(
            map.free_pages(),
            3,
            slot / 2,
        )),
{
    lemma_free_at_maximal(map, 2, slot);
}

/// Where a page is the only one of its block of eight that is in use, the
/// other seven are free as one page, one block of two and one block of four.
proof fn lemma_splits_free(map: Buddy, page: int)
    requires
        map.wf(),
        0 <= page < PAGE_COUNT,
        forall|q: int|
            0 <= q < PAGE_COUNT && q / 8 == page / 8 ==> #[trigger] map.free_pages().contains(q)
                == (q != page),
    ensures
        map.free_at(0, sibling(page)),
        map.free_at(1, sibling(page / 2)),
        map.free_at(2, sibling(page / 4)),
{
    let pages = map.free_pages();
    let block = page / 8;
    assert(!pages.contains(page));
    assert(map.free_at(0, sibling(page))) by {
        let s = sibling(page);
        assert(s / 8 == block && sibling(s) == page);
        assert(pages.contains(s));
        lemma_single_page(map, s);
    }
    assert(map.free_at(1, sibling(page / 2))) by {
        let s = sibling(page / 2);
        let above = page / 4;
        assert(s / 2 == above);
        assert((2 * s) / 8 == block && (2 * s + 1) / 8 == block);
        assert(2 * s != page && 2 * s + 1 != page);
        assert(pages.contains(2 * s) && pages.contains(2 * s + 1));
        assert(page == 4 * above || page == 4 * above + 1 || page == 4 * above + 2 || page == 4
            * above + 3);
        lemma_all_free_pages(pages, s);
        lemma_all_free_pages(pages, above);
        lemma_pair_block(map, s);
    }
    assert(map.free_at(2, sibling(page / 4))) by {
        let s = sibling(page / 4);
        assert(s / 2 == block);
        assert((4 * s) / 8 == block && (4 * s + 1) / 8 == block && (4 * s + 2) / 8 == block && (4
            * s + 3) / 8 == block);
        assert(4 * s != page && 4 * s + 1 != page && 4 * s + 2 != page && 4 * s + 3 != page);
        assert(pages.contains(4 * s) && pages.contains(4 * s + 1) && pages.contains(4 * s + 2)
            && pages.contains(4 * s + 3));
        assert(page == 8 * block || page == 8 * block + 1 || page == 8 * block + 2 || page == 8
            * block + 3 || page == 8 * block + 4 || page == 8 * block + 5 || page == 8 * block + 6
            || page == 8 * block + 7);
        lemma_all_free_pages(pages, s);
        lemma_all_free_pages(pages, block);
        lemma_quad_block(map, s);
    }
}

/// A range of `count` pages from page `first` on holds `count` tracked pages,
/// or as many as there are up to the end of the map.
pub proof fn lemma_page_range_len(first: int, count: int)
    requires
        0 <= first < PAGE_COUNT,
        0 <= count,
    ensures
        Buddy::page_range(first, count).finite(),
        Buddy::page_range(first, count).len() == if first + count <= PAGE_COUNT {
            count
        } else {
            PAGE_COUNT - first
        },
{
    let end = if first + count <= PAGE_COUNT {
        first + count
    } else {
        PAGE_COUNT as int
    };
    lemma_int_range(first, end);
    assert(Buddy::page_range(first, count) =~= vstd::set_lib::set_int_range(first, end));
}

/// A range that runs past the end of the map is freed up to the end: the
/// pages from its start to the end of the map are free afterwards, and every
/// page before its start is as it was.
pub proof fn lemma_free_to_boundary(pre: Buddy, post: Buddy, page_base: u64, page_count: usize)
    requires
        pre.wf(),
        pre.tracks(page_base),
        pre.page_of(page_base) + page_count >= PAGE_COUNT,
        Buddy::freed(pre, post, page_base, page_count),
    ensures
        forall|q: int| pre.page_of(page_base) <= q < PAGE_COUNT ==> post.page_free(q),
        forall|q: int| 0 <= q < pre.page_of(page_base) ==> post.page_free(q) == pre.page_free(q),
        Buddy::page_range(pre.page_of(page_base), page_count as int).len() == PAGE_COUNT
            - pre.page_of(page_base),
{
    let first = pre.page_of(page_base);
    let range = Buddy::page_range(first, page_count as int);
    lemma_page_range_len(first, page_count as int);
    assert forall|q: int| first <= q < PAGE_COUNT implies post.page_free(q) by {
        assert(range.contains(q));
        assert(post.free_pages().contains(q));
    }
    assert forall|q: int| 0 <= q < first implies post.page_free(q) == pre.page_free(q) by {
        assert(!range.contains(q));
        assert(post.free_pages().contains(q) == pre.free_pages().contains(q));
    }
}

/// A range that runs past the end of the map is marked up to the end: the
/// pages from its start to the end of the map are in use afterwards, and
/// every page before its start is as it was.
pub proof fn lemma_mark_to_boundary(pre: Buddy, post: Buddy, page_base: u64, page_count: usize)
    requires
        pre.wf(),
        pre.tracks(page_base),
        pre.page_of(page_base) + page_count >= PAGE_COUNT,
        Buddy::marked(pre, post, page_base, page_count),
    ensures
        forall|q: int| pre.page_of(page_base) <= q < PAGE_COUNT ==> !post.page_free(q),
        forall|q: int| 0 <= q < pre.page_of(page_base) ==> post.page_free(q) == pre.page_free(q),
        Buddy::page_range(pre.page_of(page_base), page_count as int).len() == PAGE_COUNT
            - pre.page_of(page_base),
{
    let first = pre.page_of(page_base);
    let range = Buddy::page_range(first, page_count as int);
    lemma_page_range_len(first, page_count as int);
    assert forall|q: int| first <= q < PAGE_COUNT implies !post.page_free(q) by {
        assert(range.contains(q));
        assert(!post.free_pages().contains(q));
    }
    assert forall|q: int| 0 <= q < first implies post.page_free(q) == pre.page_free(q) by {
        assert(!range.contains(q));
        assert(post.free_pages().contains(q) == pre.free_pages().contains(q));
    }
}

/// Once every page of the map is marked as used, no page is free, so that an
/// allocation finds nothing.
pub proof fn lemma_all_marked(pre: Buddy, post: Buddy)
    requires
        pre.wf(),
        Buddy::marked(pre, post, pre.base(), PAGE_COUNT),
    ensures
        post@.free == Set::<int>::empty(),
{
    assert(pre.page_of(pre.base()) == 0);
    let range = Buddy::page_range(0, PAGE_COUNT as int);
    assert forall|q: int| !post.free_pages().contains(q) by {
        if pre.free_pages().contains(q) {
            assert(pre.page_free(q));
            assert(range.contains(q));
        }
    }
    assert(post.free_pages() =~= Set::<int>::empty());
}

/// Where a single page is free, an allocation hands out that page, and no
/// page is free afterwards.
pub proof fn lemma_last_page(pre: Buddy, post: Buddy, page: int, address: u64)
    requires
        pre.wf(),
        pre@.free == set![page],
        Buddy::allotted(pre, post, address),
    ensures
        0 <= page < PAGE_COUNT,
        address == pre.address_of(page),
        post@.free == Set::<int>::empty(),
{
    assert(pre.free_pages().contains(page));
    assert(pre.page_free(page));
    let found = pre.page_of(address);
    assert(pre.free_pages().contains(found));
    assert(found == page);
    assert(post.free_pages() =~= Set::<int>::empty());
}

/// An allocation hands out a page that was free, and no other page changes.
pub proof fn lemma_allocation_takes_one(pre: Buddy, post: Buddy, address: u64)
    requires
        pre.wf(),
        Buddy::allotted(pre, post, address),
    ensures
        pre.page_free(pre.page_of(address)),
        !post.page_free(pre.page_of(address)),
        forall|q: int| q != pre.page_of(address) ==> post.page_free(q) == pre.page_free(q),
{
    let page = pre.page_of(address);
    assert(!post.free_pages().contains(page));
    assert forall|q: int| q != page implies post.page_free(q) == pre.page_free(q) by {
        assert(post.free_pages().contains(q) == pre.free_pages().contains(q));
    }
}

} // verus!
