//! How single steps on the layers of a buddy map act on its invariant and on
//! its set of free pages.
//!
//! Between the steps of one operation the map may hold one pair of free
//! halves that is not joined yet. The lemmas here follow that pair from
//! layer to layer.

use vstd::prelude::*;
use crate::memory::frame::{
    join_change, layer_slot, layer_slots, lemma_same_bits, one_slot, split_change, Buddy,
    PAGE_COUNT,
};

verus! {

/// Whether every page of the block of slot `slot` of `layer` is among
/// `pages`.
pub open spec fn all_free(pages: Set<int>, layer: int, slot: int) -> bool
    decreases layer,
{
    if layer <= 0 {
        pages.contains(slot)
    } else {
        all_free(pages, layer - 1, 2 * slot) && all_free(pages, layer - 1, 2 * slot + 1)
    }
}

/// Whether the block of slot `slot` of `layer` is a largest free block of
/// `pages`: all its pages are among `pages`, and not all pages of the block
/// of the next layer that holds it.
pub open spec fn maximal_free(pages: Set<int>, layer: int, slot: int) -> bool {
    all_free(pages, layer, slot) && !(layer < 3 && all_free(pages, layer + 1, slot / 2))
}

/// A page lies in a block exactly when halving its slot leads to the block.
pub proof fn lemma_slot_chain(page: int)
    requires
        0 <= page < PAGE_COUNT,
    ensures
        layer_slot(page, 1) == layer_slot(page, 0) / 2,
        layer_slot(page, 2) == layer_slot(page, 1) / 2,
        layer_slot(page, 3) == layer_slot(page, 2) / 2,
        0 <= layer_slot(page, 0) < layer_slots(0),
        0 <= layer_slot(page, 1) < layer_slots(1),
        0 <= layer_slot(page, 2) < layer_slots(2),
        0 <= layer_slot(page, 3) < layer_slots(3),
{
}

/// A map whose one open pair is not free on both halves has no open pair.
pub proof fn lemma_pair_closed(map: Buddy, layer: int, parent: int)
    requires
        map.joined_except(layer, parent),
        !(0 <= layer <= 2) || !map.pair_free(layer, parent),
    ensures
        map.joined(),
{
    assert forall|l: int, k: int| 0 <= l < 3 && 0 <= k < layer_slots(l + 1) implies !#[trigger] map.pair_free(
        l,
        k,
    ) by {
        if l == layer && k == parent {
        } else {
            assert(!map.pair_free(l, k));
        }
    }
}

/// Freeing the bit of a used page on layer 0 adds the page to the free
/// pages, and may leave the page and its neighbour as an open pair.
pub proof fn lemma_release_step(pre: Buddy, post: Buddy, page: int)
    requires
        0 <= page < PAGE_COUNT,
        pre.disjoint(),
        pre.joined(),
        !pre.page_free(page),
        Buddy::rewritten(pre, post, one_slot(0, page, true)),
    ensures
        post.disjoint(),
        post.joined_except(0, page / 2),
        post.free_at(0, page),
        post.free_pages() == pre.free_pages().insert(page),
{
    let change = one_slot(0, page, true);
    assert forall|q: int| 0 <= q < PAGE_COUNT implies #[trigger] post.free_levels(q) <= 1 && (
    post.page_free(q) <==> (q == page || pre.page_free(q))) by {
        lemma_slot_chain(q);
        assert(pre.free_levels(q) <= 1);
        assert(change(0, q) == if q == page { Some(true) } else { None::<bool> });
        assert(change(1, q / 2) is None);
        assert(change(2, q / 4) is None);
        assert(change(3, q / 8) is None);
    }
    assert forall|l: int, k: int|
        0 <= l < 3 && 0 <= k < layer_slots(l + 1) && !(l == 0 && k == page / 2)
            implies !#[trigger] post.pair_free(l, k) by {
        assert(!pre.pair_free(l, k));
        assert(change(l, 2 * k) is None);
        assert(change(l, 2 * k + 1) is None);
    }
    assert(change(0, page) == Some(true));
    assert(post.free_pages() =~= pre.free_pages().insert(page));
}

/// Joining an open pair keeps the free pages, and may leave the joined block
/// and its neighbour as the open pair of the next layer.
pub proof fn lemma_join_step(pre: Buddy, post: Buddy, layer: int, parent: int)
    requires
        0 <= layer <= 2,
        0 <= parent < layer_slots(layer + 1),
        pre.disjoint(),
        pre.joined_except(layer, parent),
        pre.pair_free(layer, parent),
        Buddy::rewritten(pre, post, join_change(layer, parent)),
    ensures
        post.disjoint(),
        post.joined_except(layer + 1, parent / 2),
        post.free_at(layer + 1, parent),
        post.free_pages() == pre.free_pages(),
{
    let change = join_change(layer, parent);
    assert forall|q: int| 0 <= q < PAGE_COUNT implies #[trigger] post.free_levels(q) <= 1 && (
    post.page_free(q) <==> pre.page_free(q)) by {
        lemma_slot_chain(q);
        assert(pre.free_levels(q) <= 1);
        let _ = change(0, q);
        let _ = change(1, q / 2);
        let _ = change(2, q / 4);
        let _ = change(3, q / 8);
        if layer == 0 {
        } else if layer == 1 {
        } else {
        }
    }
    assert forall|l: int, k: int|
        0 <= l < 3 && 0 <= k < layer_slots(l + 1) && !(l == layer + 1 && k == parent / 2)
            implies !#[trigger] post.pair_free(l, k) by {
        let _ = change(l, 2 * k);
        let _ = change(l, 2 * k + 1);
        if l == layer && k == parent {
            assert(change(l, 2 * k) == Some(false));
        } else {
            assert(!pre.pair_free(l, k));
        }
    }
    assert(change(layer + 1, parent) == Some(true));
    assert(post.free_pages() =~= pre.free_pages());
}

/// Splitting a free block keeps the free pages, and leaves its two halves as
/// the open pair of the layer below.
pub proof fn lemma_split_step(pre: Buddy, post: Buddy, layer: int, slot: int)
    requires
        1 <= layer <= 3,
        0 <= slot < layer_slots(layer),
        pre.disjoint(),
        pre.joined_except(layer, slot / 2),
        pre.free_at(layer, slot),
        Buddy::rewritten(pre, post, split_change(layer, slot)),
    ensures
        post.disjoint(),
        post.joined_except(layer - 1, slot),
        !post.free_at(layer, slot),
        post.free_pages() == pre.free_pages(),
{
    let change = split_change(layer, slot);
    assert forall|q: int| 0 <= q < PAGE_COUNT implies #[trigger] post.free_levels(q) <= 1 && (
    post.page_free(q) <==> pre.page_free(q)) by {
        lemma_slot_chain(q);
        assert(pre.free_levels(q) <= 1);
        let _ = change(0, q);
        let _ = change(1, q / 2);
        let _ = change(2, q / 4);
        let _ = change(3, q / 8);
        if layer == 1 {
        } else if layer == 2 {
        } else {
        }
    }
    assert forall|l: int, k: int|
        0 <= l < 3 && 0 <= k < layer_slots(l + 1) && !(l == layer - 1 && k == slot)
            implies !#[trigger] post.pair_free(l, k) by {
        let _ = change(l, 2 * k);
        let _ = change(l, 2 * k + 1);
        if l == layer && k == slot / 2 {
            assert(change(layer, slot) == Some(false));
        } else {
            assert(!pre.pair_free(l, k));
        }
    }
    assert(change(layer, slot) == Some(false));
    assert(post.free_pages() =~= pre.free_pages());
}

/// Setting the bit of a page on layer 0, once no coarser layer reports the
/// page as free, takes the page out of the free pages and closes the open
/// pair that the page was part of.
pub proof fn lemma_occupy_step(pre: Buddy, post: Buddy, page: int)
    requires
        0 <= page < PAGE_COUNT,
        pre.disjoint(),
        pre.joined_except(0, page / 2),
        !pre.free_at(1, page / 2),
        !pre.free_at(2, page / 4),
        !pre.free_at(3, page / 8),
        Buddy::rewritten(pre, post, one_slot(0, page, false)),
    ensures
        post.disjoint(),
        post.joined(),
        post.free_pages() == pre.free_pages().remove(page),
{
    let change = one_slot(0, page, false);
    assert forall|q: int| 0 <= q < PAGE_COUNT implies #[trigger] post.free_levels(q) <= 1 && (
    post.page_free(q) <==> (q != page && pre.page_free(q))) by {
        lemma_slot_chain(q);
        assert(pre.free_levels(q) <= 1);
        assert(change(0, q) == if q == page { Some(false) } else { None::<bool> });
        assert(change(1, q / 2) is None);
        assert(change(2, q / 4) is None);
        assert(change(3, q / 8) is None);
    }
    assert forall|l: int, k: int| 0 <= l < 3 && 0 <= k < layer_slots(l + 1) implies !#[trigger] post.pair_free(
        l,
        k,
    ) by {
        let _ = change(l, 2 * k);
        let _ = change(l, 2 * k + 1);
        if l == 0 && k == page / 2 {
            assert(change(0, page) == Some(false));
        } else {
            assert(!pre.pair_free(l, k));
        }
    }
    assert(post.free_pages() =~= pre.free_pages().remove(page));
}

/// Every page of a block that is free as a whole is a free page.
pub proof fn lemma_covered_all_free(map: Buddy, layer: int, slot: int)
    requires
        0 <= layer <= 3,
        0 <= slot < layer_slots(layer),
        map.covered(layer, slot),
    ensures
        all_free(map.free_pages(), layer, slot),
    decreases layer,
{
    reveal_with_fuel(Buddy::covered, 5);
    if layer == 0 {
        assert(slot / 2 / 2 == slot / 4 && slot / 2 / 2 / 2 == slot / 8);
        assert(map.free_levels(slot) >= 1);
        assert(map.page_free(slot));
    } else {
        assert((2 * slot) / 2 == slot && (2 * slot + 1) / 2 == slot);
        assert(map.covered(layer - 1, 2 * slot));
        assert(map.covered(layer - 1, 2 * slot + 1));
        lemma_covered_all_free(map, layer - 1, 2 * slot);
        lemma_covered_all_free(map, layer - 1, 2 * slot + 1);
    }
}

/// In a map without open pairs, a block whose pages are all free is free as
/// a whole.
pub proof fn lemma_all_free_covered(map: Buddy, layer: int, slot: int)
    requires
        map.joined(),
        0 <= layer <= 3,
        0 <= slot < layer_slots(layer),
        all_free(map.free_pages(), layer, slot),
    ensures
        map.covered(layer, slot),
    decreases layer,
{
    reveal_with_fuel(Buddy::covered, 5);
    if layer == 0 {
        assert(map.page_free(slot));
        assert(slot / 2 / 2 == slot / 4 && slot / 2 / 2 / 2 == slot / 8);
    } else {
        assert((2 * slot) / 2 == slot && (2 * slot + 1) / 2 == slot);
        lemma_all_free_covered(map, layer - 1, 2 * slot);
        lemma_all_free_covered(map, layer - 1, 2 * slot + 1);
        assert(!map.pair_free(layer - 1, slot));
    }
}

/// Where no page is free on two layers, a slot that reads as free lies in no
/// free block of a coarser layer.
pub proof fn lemma_free_not_covered_above(map: Buddy, layer: int, slot: int)
    requires
        map.disjoint(),
        0 <= layer <= 3,
        0 <= slot < layer_slots(layer),
        map.free_at(layer, slot),
    ensures
        !map.covered(layer + 1, slot / 2),
{
    reveal_with_fuel(Buddy::covered, 5);
    let page = if layer == 0 {
        slot
    } else if layer == 1 {
        2 * slot
    } else if layer == 2 {
        4 * slot
    } else {
        8 * slot
    };
    lemma_slot_chain(page);
    assert(map.free_levels(page) <= 1);
    assert(slot / 2 / 2 == slot / 4 && slot / 2 / 2 / 2 == slot / 8);
}

/// The layers are a function of the free pages: in a well-formed map a slot
/// reads as free exactly when its block is a largest free block.
pub proof fn lemma_free_at_maximal(map: Buddy, layer: int, slot: int)
    requires
        map.disjoint(),
        map.joined(),
        0 <= layer <= 3,
        0 <= slot < layer_slots(layer),
    ensures
        map.free_at(layer, slot) == maximal_free(map.free_pages(), layer, slot),
{
    reveal_with_fuel(Buddy::covered, 2);
    let pages = map.free_pages();
    let parent = slot / 2;
    if map.free_at(layer, slot) {
        lemma_covered_all_free(map, layer, slot);
        lemma_free_not_covered_above(map, layer, slot);
        if layer < 3 && all_free(pages, layer + 1, parent) {
            lemma_all_free_covered(map, layer + 1, parent);
        }
    } else if all_free(pages, layer, slot) {
        lemma_all_free_covered(map, layer, slot);
        assert(map.covered(layer + 1, parent));
        assert(layer < 3);
        lemma_covered_all_free(map, layer + 1, parent);
    }
}

/// Two well-formed maps that stand for the same are the same map, byte for
/// byte.
pub proof fn lemma_view_determines_map(a: Buddy, b: Buddy)
    requires
        a.wf(),
        b.wf(),
        a@ == b@,
    ensures
        a == b,
{
    assert forall|l: int, s: int| 0 <= l <= 3 && 0 <= s < layer_slots(l) implies a.free_at(l, s)
        == b.free_at(l, s) by {
        lemma_free_at_maximal(a, l, s);
        lemma_free_at_maximal(b, l, s);
    }
    lemma_same_bits(a, b);
}

} // verus!
