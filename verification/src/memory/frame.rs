//! Page frame allocation.
//!
//! A [`Buddy`] map tracks 2048 page frames of 4096 bytes each, starting at a
//! page-aligned base address. It keeps four bitmaps, one per layer: a slot of
//! layer `n` stands for an aligned block of `2^n` pages. A clear bit says that
//! the whole block is free as one unit; a set bit says that the block is in
//! use, or that it is accounted for on another layer.
//!
//! Two neighbouring free blocks of one layer are always joined into the block
//! of the next layer, so a set of free pages has exactly one representation.

use vstd::prelude::*;
use crate::memory::layers::{
    lemma_join_step, lemma_occupy_step, lemma_pair_closed, lemma_release_step, lemma_split_step,
};
use crate::memory::bits::{
    bit_set, lemma_byte_by_bits, lemma_clear_bit, lemma_clear_pair, lemma_full_byte, lemma_set_bit,
    lemma_set_pair, lemma_test_bit, lemma_test_pair, slot_bit, slot_used,
};

verus! {

/// Size of a page frame in bytes.
pub const PAGE_SIZE: u64 = 4096;

/// Number of page frames that one map tracks.
pub const PAGE_COUNT: usize = 2048;

/// Number of bytes that one map tracks: `PAGE_COUNT * PAGE_SIZE`.
pub const SPAN: u64 = 0x80_0000;

const FREE: u8 = 0u8;

const USED: u8 = 1u8;

/// Number of slots on a layer.
pub open spec fn layer_slots(layer: int) -> int {
    if layer == 0 {
        2048
    } else if layer == 1 {
        1024
    } else if layer == 2 {
        512
    } else {
        256
    }
}

/// Number of pages in a block of a layer.
pub open spec fn block_pages(layer: int) -> int {
    if layer == 0 {
        1
    } else if layer == 1 {
        2
    } else if layer == 2 {
        4
    } else {
        8
    }
}

/// The slot of `layer` whose block holds page `page`.
pub open spec fn layer_slot(page: int, layer: int) -> int {
    if layer == 0 {
        page
    } else if layer == 1 {
        page / 2
    } else if layer == 2 {
        page / 4
    } else {
        page / 8
    }
}

/// The change that gives one slot a new reading and keeps all others.
pub open spec fn one_slot(layer: int, slot: int, free: bool) -> spec_fn(int, int) -> Option<bool> {
    |l: int, s: int|
        if l == layer && s == slot {
            Some(free)
        } else {
            None
        }
}

/// The change of a join: the two halves of slot `parent` of layer
/// `layer + 1` become used, and that slot becomes free.
pub open spec fn join_change(layer: int, parent: int) -> spec_fn(int, int) -> Option<bool> {
    |l: int, s: int|
        if l == layer && (s == 2 * parent || s == 2 * parent + 1) {
            Some(false)
        } else if l == layer + 1 && s == parent {
            Some(true)
        } else {
            None
        }
}

/// The change of a split: slot `slot` of `layer` becomes used, and its two
/// halves on layer `layer - 1` become free.
pub open spec fn split_change(layer: int, slot: int) -> spec_fn(int, int) -> Option<bool> {
    |l: int, s: int|
        if l == layer && s == slot {
            Some(false)
        } else if l == layer - 1 && (s == 2 * slot || s == 2 * slot + 1) {
            Some(true)
        } else {
            None
        }
}

/// Why a map could not be set up.
#[derive(Clone, Copy, Debug, PartialEq, Eq, Structural)]
pub enum BuddyError {
    /// The base or the placement address is not a multiple of the page size.
    Misaligned,
    /// The tracked span would reach past the end of the address space.
    SpanOverflow,
}

/// A free block as the diagnostic listing reports it.
#[derive(Clone, Copy, Debug, PartialEq, Eq, Structural)]
pub struct FreeBlock {
    /// Address of the first page of the block.
    pub address: u64,
    /// Number of pages in the block.
    pub pages: usize,
}

/// What a buddy map stands for: the pages that it tracks, and which of them
/// are free.
pub struct BuddyView {
    /// Address of the first page that the map tracks.
    pub base: u64,
    /// Address of the map that continues this one, if any.
    pub next_map: Option<u64>,
    /// The free pages, by their index from the base.
    pub free: Set<int>,
}

/// A buddy map over 2048 page frames.
#[derive(Clone, Debug, PartialEq, Eq)]
pub struct Buddy {
    l0: [u8; 256],
    l1: [u8; 128],
    l2: [u8; 64],
    l3: [u8; 32],
    base: u64,
    next_map: Option<u64>,
}

impl View for Buddy {
    type V = BuddyView;

    open spec fn view(&self) -> BuddyView {
        BuddyView { base: self.base(), next_map: self.next_map(), free: self.free_pages() }
    }
}

impl Buddy {
    /// Address of the first page that the map tracks.
    pub closed spec fn base(&self) -> u64 {
        self.base
    }

    /// Address of the map that continues this one, if any.
    pub closed spec fn next_map(&self) -> Option<u64> {
        self.next_map
    }

    /// The bytes of the bitmap of `layer`.
    pub closed spec fn bitmap(&self, layer: int) -> Seq<u8> {
        if layer == 0 {
            self.l0@
        } else if layer == 1 {
            self.l1@
        } else if layer == 2 {
            self.l2@
        } else {
            self.l3@
        }
    }

    /// Whether slot `slot` of `layer` reads as free.
    pub open spec fn free_at(&self, layer: int, slot: int) -> bool {
        &&& 0 <= layer <= 3
        &&& 0 <= slot < layer_slots(layer)
        &&& !slot_used(self.bitmap(layer), slot)
    }

    /// On how many layers the block that holds `page` reads as free.
    pub open spec fn free_levels(&self, page: int) -> int {
        (if self.free_at(0, page) { 1int } else { 0 })
            + (if self.free_at(1, page / 2) { 1int } else { 0 })
            + (if self.free_at(2, page / 4) { 1int } else { 0 })
            + (if self.free_at(3, page / 8) { 1int } else { 0 })
    }

    /// Whether page `page` is free: some layer reports the block that holds it
    /// as free.
    pub open spec fn page_free(&self, page: int) -> bool {
        0 <= page < PAGE_COUNT && self.free_levels(page) >= 1
    }

    /// The free pages, by their index from the base.
    pub open spec fn free_pages(&self) -> Set<int> {
        Set::new(|page: int| self.page_free(page))
    }

    /// Whether the block of slot `slot` of `layer` is free as a whole: the
    /// slot reads as free, or the block is part of a free block of a coarser
    /// layer.
    pub open spec fn covered(&self, layer: int, slot: int) -> bool
        decreases 4 - layer,
    {
        if layer > 3 {
            false
        } else {
            self.free_at(layer, slot) || self.covered(layer + 1, slot / 2)
        }
    }

    /// Whether the two halves of slot `parent` of layer `layer + 1` both read
    /// as free on `layer`.
    pub open spec fn pair_free(&self, layer: int, parent: int) -> bool {
        self.free_at(layer, 2 * parent) && self.free_at(layer, 2 * parent + 1)
    }

    /// The base is page-aligned and the tracked span ends inside the address
    /// space.
    pub open spec fn placed(&self) -> bool {
        &&& self.base() % 4096 == 0
        &&& self.base() + SPAN <= u64::MAX
    }

    /// No page is free on two layers at once.
    pub open spec fn disjoint(&self) -> bool {
        forall|page: int| 0 <= page < PAGE_COUNT ==> #[trigger] self.free_levels(page) <= 1
    }

    /// No two halves of a block are free side by side, but for the halves of
    /// slot `parent` of layer `layer + 1`, of which nothing is said.
    pub open spec fn joined_except(&self, layer: int, parent: int) -> bool {
        forall|l: int, k: int|
            0 <= l < 3 && 0 <= k < layer_slots(l + 1) && !(l == layer && k == parent)
                ==> !#[trigger] self.pair_free(l, k)
    }

    /// No two halves of a block are free side by side.
    pub open spec fn joined(&self) -> bool {
        forall|l: int, k: int|
            0 <= l < 3 && 0 <= k < layer_slots(l + 1) ==> !#[trigger] self.pair_free(l, k)
    }

    /// The invariant of the map.
    pub open spec fn wf(&self) -> bool {
        &&& self.placed()
        &&& self.disjoint()
        &&& self.joined()
    }

    /// Whether `address` lies in the tracked span.
    pub open spec fn tracks(&self, address: u64) -> bool {
        self.base() <= address < self.base() + SPAN
    }

    /// Index from the base of the page that holds `address`.
    pub open spec fn page_of(&self, address: u64) -> int {
        (address - self.base()) / 4096
    }

    /// Address of the page with index `page`.
    pub open spec fn address_of(&self, page: int) -> int {
        self.base() + page * 4096
    }

    /// Whether `post` is `pre` with its bits changed as `change` says: where
    /// `change` gives `Some(free)` for a slot, the slot reads `free`, and where
    /// it gives `None`, the slot reads as before.
    pub open spec fn rewritten(
        pre: Buddy,
        post: Buddy,
        change: spec_fn(int, int) -> Option<bool>,
    ) -> bool {
        &&& post.base() == pre.base()
        &&& post.next_map() == pre.next_map()
        &&& forall|l: int, s: int|
            0 <= l <= 3 && 0 <= s < layer_slots(l) ==> #[trigger] post.free_at(l, s) == (
            match change(l, s) {
                Some(free) => free,
                None => pre.free_at(l, s),
            })
    }

    /// The pages of a range of `count` pages from page `first` on, as far as
    /// the map tracks them.
    pub open spec fn page_range(first: int, count: int) -> Set<int> {
        Set::new(|page: int| first <= page < first + count && 0 <= page < PAGE_COUNT)
    }

    /// Whether `page` is the page that the next allocation hands out: the
    /// lowest page that is free as a single page, or, where no page is, the
    /// lowest page of the free blocks.
    pub open spec fn picks(&self, page: int) -> bool {
        &&& self.page_free(page)
        &&& {
            ||| self.free_at(0, page) && forall|q: int| 0 <= q < page ==> !self.free_at(0, q)
            ||| (forall|q: int| 0 <= q < PAGE_COUNT ==> !self.free_at(0, q)) && forall|q: int|
                0 <= q < page ==> !self.page_free(q)
        }
    }

    /// What `free` makes of `pre` where `page_base` lies in the tracked span:
    /// the pages of the range, as far as the map tracks them, join the free
    /// pages, and nothing else changes.
    pub open spec fn freed(pre: Buddy, post: Buddy, page_base: u64, page_count: usize) -> bool {
        &&& post.wf()
        &&& post@ == (BuddyView {
            free: pre@.free.union(Self::page_range(pre.page_of(page_base), page_count as int)),
            ..pre@
        })
    }

    /// What `mark` makes of `pre` where `page_base` lies in the tracked span:
    /// the pages of the range leave the free pages, and nothing else changes.
    pub open spec fn marked(pre: Buddy, post: Buddy, page_base: u64, page_count: usize) -> bool {
        &&& post.wf()
        &&& post@ == (BuddyView {
            free: pre@.free.difference(
                Self::page_range(pre.page_of(page_base), page_count as int),
            ),
            ..pre@
        })
    }

    /// What `allocate` makes of `pre` where it hands out the page at
    /// `address`: the address is that of the page that `pre` picks, and the
    /// page leaves the free pages.
    pub open spec fn allotted(pre: Buddy, post: Buddy, address: u64) -> bool {
        &&& pre.tracks(address)
        &&& address == pre.address_of(pre.page_of(address))
        &&& pre.picks(pre.page_of(address))
        &&& post.wf()
        &&& post@ == (BuddyView { free: pre@.free.remove(pre.page_of(address)), ..pre@ })
    }

    /// The free blocks among the first `upto` slots of `layer`, lowest
    /// address first.
    pub open spec fn layer_listing(&self, layer: int, upto: int) -> Seq<FreeBlock>
        decreases upto,
    {
        if upto <= 0 {
            Seq::empty()
        } else {
            let rest = self.layer_listing(layer, upto - 1);
            if self.free_at(layer, upto - 1) {
                rest.push(
                    FreeBlock {
                        address: self.address_of((upto - 1) * block_pages(layer)) as u64,
                        pages: block_pages(layer) as usize,
                    },
                )
            } else {
                rest
            }
        }
    }

    /// The free blocks of the layers from `layer` up: those of the coarsest
    /// layer first, and within a layer the lowest address first.
    pub open spec fn listing_from(&self, layer: int) -> Seq<FreeBlock>
        decreases 4 - layer,
    {
        if layer > 3 {
            Seq::empty()
        } else {
            self.listing_from(layer + 1) + self.layer_listing(layer, layer_slots(layer))
        }
    }

    /// The free blocks of the map: those of the coarsest layer first, and
    /// within a layer the lowest address first.
    pub open spec fn listing(&self) -> Seq<FreeBlock> {
        self.listing_from(0)
    }

    /// Why no map can be set up for the pages from `base` on, to be placed at
    /// `address`, if none can.
    pub open spec fn new_error(base: u64, address: u64) -> Option<BuddyError> {
        if base % 4096 != 0 || address % 4096 != 0 {
            Some(BuddyError::Misaligned)
        } else if base + SPAN > u64::MAX {
            Some(BuddyError::SpanOverflow)
        } else {
            None
        }
    }

    /// Sets up a map for the pages from `base` on, to be placed at `address`.
    ///
    /// Both addresses have to be page-aligned, and the tracked span has to end
    /// inside the address space. Every page starts out as used.
    pub fn new(base: u64, address: u64) -> (r: Result<Buddy, BuddyError>)
        ensures
            match r {
                Ok(map) => {
                    &&& Self::new_error(base, address) is None
                    &&& map.wf()
                    &&& map@ == (BuddyView { base, next_map: None, free: Set::empty() })
                    &&& forall|l: int, s: int| !#[trigger] map.free_at(l, s)
                },
                Err(error) => Self::new_error(base, address) == Some(error),
            },
    {
        if base % PAGE_SIZE != 0 || address % PAGE_SIZE != 0 {
            return Err(BuddyError::Misaligned);
        }
        if base > u64::MAX - SPAN {
            return Err(BuddyError::SpanOverflow);
        }
        let map = Buddy {
            l0: [0xFFu8;256],
            l1: [0xFFu8;128],
            l2: [0xFFu8;64],
            l3: [0xFFu8;32],
            base,
            next_map: None,
        };
        proof {
            assert forall|l: int, s: int| !#[trigger] map.free_at(l, s) by {
                if 0 <= l <= 3 && 0 <= s < layer_slots(l) {
                    lemma_full_byte(slot_bit(s));
                    assert(map.bitmap(l)[s / 8] == 0xFFu8);
                }
            }
            assert(map.free_pages() =~= Set::<int>::empty());
        }
        Ok(map)
    }

    /// Index from the base of the page that holds `address`.
    pub fn address_to_offset(&self, address: u64) -> (offset: usize)
        requires
            self.tracks(address),
        ensures
            offset == self.page_of(address),
            offset < PAGE_COUNT,
    {
        let distance: u64 = address - self.base;
        assert(distance >> 12 == distance / 4096) by (bit_vector);
        (distance >> 12) as usize
    }

    /// Address of the page with index `offset`.
    pub fn offset_to_address(&self, offset: usize) -> (address: u64)
        requires
            self.placed(),
            offset <= PAGE_COUNT,
        ensures
            address == self.address_of(offset as int),
    {
        let distance: u64 = offset as u64;
        assert(distance << 12 == distance * 4096) by (bit_vector)
            requires
                distance <= 2048,
        ;
        self.base + (distance << 12)
    }

    /// Whether `address` lies in the tracked span.
    pub fn in_range(&self, address: u64) -> (inside: bool)
        ensures
            inside == self.tracks(address),
    {
        address >= self.base && address - self.base < SPAN
    }

    /// Reads byte `index` of the bitmap of `layer`.
    fn layer_byte(&self, layer: usize, index: usize) -> (byte: u8)
        requires
            layer <= 3,
            index < layer_slots(layer as int) / 8,
        ensures
            byte == self.bitmap(layer as int)[index as int],
    {
        if layer == 0 {
            self.l0[index]
        } else if layer == 1 {
            self.l1[index]
        } else if layer == 2 {
            self.l2[index]
        } else {
            self.l3[index]
        }
    }

    /// Writes byte `index` of the bitmap of `layer`.
    fn set_layer_byte(&mut self, layer: usize, index: usize, byte: u8)
        requires
            layer <= 3,
            index < layer_slots(layer as int) / 8,
        ensures
            final(self).base() == old(self).base(),
            final(self).next_map() == old(self).next_map(),
            final(self).bitmap(layer as int) == old(self).bitmap(layer as int).update(
                index as int,
                byte,
            ),
            forall|l: int| 0 <= l <= 3 && l != layer ==> final(self).bitmap(l) == old(self).bitmap(l),
    {
        if layer == 0 {
            self.l0[index] = byte;
        } else if layer == 1 {
            self.l1[index] = byte;
        } else if layer == 2 {
            self.l2[index] = byte;
        } else {
            self.l3[index] = byte;
        }
    }

    /// Whether the block of `layer` that holds page `offset` reads as free.
    pub fn check_layer(&self, offset: usize, layer: usize) -> (free: bool)
        requires
            offset < PAGE_COUNT,
            layer <= 3,
        ensures
            free == self.free_at(layer as int, layer_slot(offset as int, layer as int)),
    {
        let layer_offset = offset >> layer;
        proof {
            lemma_layer_slot(offset, layer);
        }
        let byte_offset = layer_offset / 8;
        let bit_offset: u8 = (7 - (layer_offset % 8)) as u8;
        let byte = self.layer_byte(layer, byte_offset);
        proof {
            lemma_test_bit(byte, bit_offset);
        }
        (byte >> bit_offset) & USED == FREE
    }

    /// Whether page `offset` is free on any layer.
    pub fn check(&self, offset: usize) -> (free: bool)
        requires
            offset < PAGE_COUNT,
        ensures
            free == self.page_free(offset as int),
    {
        let mut layer: usize = 4;
        while layer > 0
            invariant
                layer <= 4,
                offset < PAGE_COUNT,
                forall|l: int|
                    layer <= l <= 3 ==> !self.free_at(l, #[trigger] layer_slot(offset as int, l)),
            decreases layer,
        {
            layer -= 1;
            if self.check_layer(offset, layer) {
                return true;
            }
        }
        proof {
            assert(layer_slot(offset as int, 0) == offset);
            assert(layer_slot(offset as int, 1) == offset / 2);
            assert(layer_slot(offset as int, 2) == offset / 4);
            assert(layer_slot(offset as int, 3) == offset / 8);
        }
        false
    }

    /// Makes the block of `layer` that holds page `offset` read as free.
    fn free_one(&mut self, offset: usize, layer: usize)
        requires
            offset < PAGE_COUNT,
            layer <= 3,
        ensures
            Self::rewritten(
                *old(self),
                *final(self),
                one_slot(layer as int, layer_slot(offset as int, layer as int), true),
            ),
    {
        let layer_offset = offset >> layer;
        proof {
            lemma_layer_slot(offset, layer);
        }
        let byte_offset = layer_offset / 8;
        let bit_offset: u8 = (7 - (layer_offset % 8)) as u8;
        let mask: u8 = !(USED << bit_offset);
        let byte = self.layer_byte(layer, byte_offset);
        self.set_layer_byte(layer, byte_offset, byte & mask);
        proof {
            assert forall|l: int, s: int| 0 <= l <= 3 && 0 <= s < layer_slots(l) implies (
            #[trigger] final(self).free_at(l, s)) == (old(self).free_at(l, s) || (l == layer && s
                == layer_offset)) by {
                if l == layer && s / 8 == byte_offset {
                    lemma_clear_bit(byte, bit_offset, slot_bit(s));
                }
            }
        }
    }

    /// Makes the block of `layer` that holds page `offset` read as used.
    fn mark_one(&mut self, offset: usize, layer: usize)
        requires
            offset < PAGE_COUNT,
            layer <= 3,
        ensures
            Self::rewritten(
                *old(self),
                *final(self),
                one_slot(layer as int, layer_slot(offset as int, layer as int), false),
            ),
    {
        let layer_offset = offset >> layer;
        proof {
            lemma_layer_slot(offset, layer);
        }
        let byte_offset = layer_offset / 8;
        let bit_offset: u8 = (7 - (layer_offset % 8)) as u8;
        let mask: u8 = USED << bit_offset;
        let byte = self.layer_byte(layer, byte_offset);
        self.set_layer_byte(layer, byte_offset, byte | mask);
        proof {
            assert forall|l: int, s: int| 0 <= l <= 3 && 0 <= s < layer_slots(l) implies (
            #[trigger] final(self).free_at(l, s)) == (old(self).free_at(l, s) && !(l == layer && s
                == layer_offset)) by {
                if l == layer && s / 8 == byte_offset {
                    lemma_set_bit(byte, bit_offset, slot_bit(s));
                }
            }
        }
    }

    /// Joins the two halves of a block into the block of the next layer.
    ///
    /// The halves are the slot of `layer` that holds page `offset` and its
    /// neighbour. Where both read as free, they become used and the slot of
    /// `layer + 1` above them becomes free. Otherwise nothing changes.
    fn try_join(&mut self, offset: usize, layer: usize) -> (joined: bool)
        requires
            offset < PAGE_COUNT,
        ensures
            joined == (layer <= 2 && old(self).pair_free(
                layer as int,
                layer_slot(offset as int, layer + 1),
            )),
            joined ==> Self::rewritten(
                *old(self),
                *final(self),
                join_change(layer as int, layer_slot(offset as int, layer + 1)),
            ),
            !joined ==> *final(self) == *old(self),
    {
        if layer > 2 {
            return false;
        }
        let layer_offset = offset >> layer;
        let byte_offset = layer_offset / 8;
        let raw_bit: u8 = (7 - (layer_offset % 8)) as u8;
        // always pick the even bit, so that the pair is tested at once
        let bit_offset: u8 = raw_bit & !1u8;

        let upper_layer_offset = layer_offset >> 1;
        let upper_byte_offset = upper_layer_offset / 8;
        let upper_bit_offset: u8 = (7 - (upper_layer_offset % 8)) as u8;

        let ghost parent = layer_slot(offset as int, layer + 1);
        proof {
            lemma_layer_slot(offset, layer);
            lemma_layer_slot(offset, (layer + 1) as usize);
            assert(layer_offset >> 1usize == layer_offset / 2) by (bit_vector);
            assert(bit_offset == raw_bit - raw_bit % 2 && bit_offset < 7) by (bit_vector)
                requires
                    bit_offset == raw_bit & !1u8,
                    raw_bit < 8,
            ;
            assert(upper_layer_offset == parent);
            assert(bit_offset == slot_bit(2 * parent + 1));
            assert(bit_offset + 1 == slot_bit(2 * parent));
            assert((2 * parent) / 8 == byte_offset);
            assert((2 * parent + 1) / 8 == byte_offset);
        }
        let byte = self.layer_byte(layer, byte_offset);
        proof {
            lemma_test_pair(byte, bit_offset);
        }
        if (byte >> bit_offset) & 0b11u8 != FREE {
            return false;
        }
        // mark two bits of this layer as used, freeing up one bit on the next
        self.set_layer_byte(layer, byte_offset, byte | (0b11u8 << bit_offset));
        let upper = self.layer_byte(layer + 1, upper_byte_offset);
        self.set_layer_byte(layer + 1, upper_byte_offset, upper & !(USED << upper_bit_offset));
        proof {
            let change = join_change(layer as int, parent);
            assert forall|l: int, s: int| 0 <= l <= 3 && 0 <= s < layer_slots(l) implies (
            #[trigger] final(self).free_at(l, s)) == (match change(l, s) {
                Some(free) => free,
                None => old(self).free_at(l, s),
            }) by {
                if l == layer && s / 8 == byte_offset {
                    lemma_set_pair(byte, bit_offset, slot_bit(s));
                }
                if l == layer + 1 && s / 8 == upper_byte_offset {
                    lemma_clear_bit(upper, upper_bit_offset, slot_bit(s));
                }
            }
        }
        true
    }

    /// Splits a free block into its two halves on the layer below.
    ///
    /// The block is the slot of `layer` that holds page `offset`. Where it
    /// reads as free and has a layer below it, it becomes used and its two
    /// halves become free. Otherwise nothing changes.
    fn try_split(&mut self, offset: usize, layer: usize) -> (split: bool)
        requires
            offset < PAGE_COUNT,
        ensures
            split == (1 <= layer <= 3 && old(self).free_at(
                layer as int,
                layer_slot(offset as int, layer as int),
            )),
            split ==> Self::rewritten(
                *old(self),
                *final(self),
                split_change(layer as int, layer_slot(offset as int, layer as int)),
            ),
            !split ==> *final(self) == *old(self),
    {
        if layer == 0 || layer > 3 {
            return false;
        }
        let layer_offset = offset >> layer;
        let byte_offset = layer_offset / 8;
        let bit_offset: u8 = (7 - (layer_offset % 8)) as u8;

        proof {
            lemma_layer_slot(offset, layer);
            assert(layer_offset << 1usize == layer_offset * 2) by (bit_vector)
                requires
                    layer_offset < 2048,
            ;
        }
        let lower_layer_offset = layer_offset << 1;
        let lower_byte_offset = lower_layer_offset / 8;
        let lower_bit_offset: u8 = (7 - (lower_layer_offset % 8)) as u8;

        let byte = self.layer_byte(layer, byte_offset);
        proof {
            lemma_test_bit(byte, bit_offset);
        }
        if (byte >> bit_offset) & 1u8 != FREE {
            return false;
        }
        // mark the bit of this layer as used, freeing up two bits on the layer below
        self.set_layer_byte(layer, byte_offset, byte | (USED << bit_offset));
        // the first half sits at an even slot, so that both halves share a
        // byte and are cleared at once
        let lower = self.layer_byte(layer - 1, lower_byte_offset);
        self.set_layer_byte(
            layer - 1,
            lower_byte_offset,
            lower & !(0b11u8 << (lower_bit_offset - 1)),
        );
        proof {
            let slot = layer_offset as int;
            let low: u8 = (lower_bit_offset - 1) as u8;
            let change = split_change(layer as int, slot);
            assert forall|l: int, s: int| 0 <= l <= 3 && 0 <= s < layer_slots(l) implies (
            #[trigger] final(self).free_at(l, s)) == (match change(l, s) {
                Some(free) => free,
                None => old(self).free_at(l, s),
            }) by {
                if l == layer && s / 8 == byte_offset {
                    lemma_set_bit(byte, bit_offset, slot_bit(s));
                }
                if l == layer - 1 && s / 8 == lower_byte_offset {
                    lemma_clear_pair(lower, low, slot_bit(s));
                }
            }
        }
        true
    }

    /// Frees the page with index `page`, and joins it with its neighbours as
    /// far up as they are free too. A page that is free already stays as it
    /// is.
    fn free_page(&mut self, page: usize)
        requires
            old(self).wf(),
            page < PAGE_COUNT,
        ensures
            final(self).wf(),
            final(self).base() == old(self).base(),
            final(self).next_map() == old(self).next_map(),
            final(self).free_pages() == old(self).free_pages().insert(page as int),
    {
        if self.check(page) {
            assert(old(self).free_pages().insert(page as int) =~= old(self).free_pages());
            return ;
        }
        self.free_one(page, 0);
        proof {
            lemma_release_step(*old(self), *self, page as int);
        }
        let mut layer: usize = 0;
        while layer <= 2
            invariant_except_break
                self.joined_except(layer as int, layer_slot(page as int, layer + 1)),
            invariant
                layer <= 3,
                page < PAGE_COUNT,
                self.disjoint(),
                self.base() == old(self).base(),
                self.next_map() == old(self).next_map(),
                self.free_pages() == old(self).free_pages().insert(page as int),
            ensures
                self.joined(),
            decreases 3 - layer,
        {
            let ghost before = *self;
            let ghost parent = layer_slot(page as int, layer + 1);
            proof {
                lemma_layer_slot(page, (layer + 1) as usize);
            }
            if !self.try_join(page, layer) {
                proof {
                    lemma_pair_closed(*self, layer as int, parent);
                }
                break ;
            }
            proof {
                lemma_join_step(before, *self, layer as int, parent);
                if layer < 2 {
                    lemma_layer_slot(page, (layer + 2) as usize);
                }
            }
            layer += 1;
        }
    }

    /// Takes the page with index `page` into use. A free block that holds
    /// the page is split, layer by layer, until the page stands alone.
    fn mark_page(&mut self, page: usize)
        requires
            old(self).wf(),
            page < PAGE_COUNT,
        ensures
            final(self).wf(),
            final(self).base() == old(self).base(),
            final(self).next_map() == old(self).next_map(),
            final(self).free_pages() == old(self).free_pages().remove(page as int),
    {
        let mut layer: usize = 3;
        while layer >= 1
            invariant
                layer <= 3,
                page < PAGE_COUNT,
                self.disjoint(),
                self.joined_except(layer as int, layer_slot(page as int, layer as int) / 2),
                forall|l: int| layer < l <= 3 ==> !self.free_at(l, #[trigger] layer_slot(page as int, l)),
                self.base() == old(self).base(),
                self.next_map() == old(self).next_map(),
                self.free_pages() == old(self).free_pages(),
            decreases layer,
        {
            let ghost before = *self;
            let ghost slot = layer_slot(page as int, layer as int);
            proof {
                lemma_layer_slot(page, layer);
            }
            if self.check_layer(page, layer) {
                self.try_split(page, layer);
                proof {
                    lemma_split_step(before, *self, layer as int, slot);
                    assert forall|l: int| layer < l <= 3 implies !self.free_at(
                        l,
                        #[trigger] layer_slot(page as int, l),
                    ) by {
                        let change = split_change(layer as int, slot);
                        assert(change(l, layer_slot(page as int, l)) is None);
                        assert(!before.free_at(l, layer_slot(page as int, l)));
                        lemma_layer_slot(page, l as usize);
                    }
                }
            } else {
                proof {
                    lemma_pair_closed(*self, layer as int, slot / 2);
                }
            }
            layer -= 1;
        }
        let ghost before = *self;
        proof {
            assert(layer_slot(page as int, 0) == page);
            assert(layer_slot(page as int, 1) == page / 2);
            assert(layer_slot(page as int, 2) == page / 4);
            assert(layer_slot(page as int, 3) == page / 8);
        }
        self.mark_one(page, 0);
        proof {
            lemma_occupy_step(before, *self, page as int);
        }
    }

    /// Marks `page_count` pages from `page_base` on as free.
    ///
    /// Returns `false`, and changes nothing, where `page_base` lies outside
    /// the tracked span. A range that starts inside the span and runs past
    /// its end is freed up to the end. Pages that are free already stay free.
    pub fn free(&mut self, page_base: u64, page_count: usize) -> (done: bool)
        requires
            old(self).wf(),
        ensures
            done == old(self).tracks(page_base),
            done ==> Self::freed(*old(self), *final(self), page_base, page_count),
            !done ==> *final(self) == *old(self),
            final(self).wf(),
    {
        if !self.in_range(page_base) {
            return false;
        }
        let offset = self.address_to_offset(page_base);
        let mut page: usize = 0;
        while page < page_count
            invariant
                self.wf(),
                offset < PAGE_COUNT,
                page <= page_count,
                offset + page <= PAGE_COUNT,
                self.base() == old(self).base(),
                self.next_map() == old(self).next_map(),
                self.free_pages() == old(self).free_pages().union(
                    Self::page_range(offset as int, page as int),
                ),
            ensures
                self.free_pages() == old(self).free_pages().union(
                    Self::page_range(offset as int, page_count as int),
                ),
            decreases page_count - page,
        {
            let page_offset = offset + page;
            if !self.in_range(self.offset_to_address(page_offset)) {
                assert(Self::page_range(offset as int, page as int) =~= Self::page_range(
                    offset as int,
                    page_count as int,
                ));
                break ;
            }
            self.free_page(page_offset);
            assert(Self::page_range(offset as int, page as int).insert(page_offset as int)
                =~= Self::page_range(offset as int, page + 1));
            assert(old(self).free_pages().union(
                Self::page_range(offset as int, page as int),
            ).insert(page_offset as int) =~= old(self).free_pages().union(
                Self::page_range(offset as int, page + 1),
            ));
            page += 1;
        }
        true
    }

    /// Marks `page_count` pages from `page_base` on as used.
    ///
    /// Returns `false`, and changes nothing, where `page_base` lies outside
    /// the tracked span. A range that starts inside the span and runs past
    /// its end is marked up to the end.
    pub fn mark(&mut self, page_base: u64, page_count: usize) -> (done: bool)
        requires
            old(self).wf(),
        ensures
            done == old(self).tracks(page_base),
            done ==> Self::marked(*old(self), *final(self), page_base, page_count),
            !done ==> *final(self) == *old(self),
            final(self).wf(),
    {
        if !self.in_range(page_base) {
            return false;
        }
        let offset = self.address_to_offset(page_base);
        let mut page: usize = 0;
        while page < page_count
            invariant
                self.wf(),
                offset < PAGE_COUNT,
                page <= page_count,
                offset + page <= PAGE_COUNT,
                self.base() == old(self).base(),
                self.next_map() == old(self).next_map(),
                self.free_pages() == old(self).free_pages().difference(
                    Self::page_range(offset as int, page as int),
                ),
            ensures
                self.free_pages() == old(self).free_pages().difference(
                    Self::page_range(offset as int, page_count as int),
                ),
            decreases page_count - page,
        {
            let page_offset = offset + page;
            if !self.in_range(self.offset_to_address(page_offset)) {
                assert(Self::page_range(offset as int, page as int) =~= Self::page_range(
                    offset as int,
                    page_count as int,
                ));
                break ;
            }
            self.mark_page(page_offset);
            assert(old(self).free_pages().difference(
                Self::page_range(offset as int, page as int),
            ).remove(page_offset as int) =~= old(self).free_pages().difference(
                Self::page_range(offset as int, page + 1),
            ));
            page += 1;
        }
        true
    }

    /// Hands out one free page and marks it as used.
    ///
    /// Only single pages are handed out: for any other `page_count` the
    /// result is `None`. The page is the lowest one that is free as a single
    /// page. Where no page is free on its own, the lowest page of the free
    /// blocks is split off and handed out. The result is `None` where no page
    /// is free.
    pub fn allocate(&mut self, page_count: usize) -> (r: Option<u64>)
        requires
            old(self).wf(),
        ensures
            r is None <==> page_count != 1 || old(self)@.free == Set::<int>::empty(),
            r is None ==> *final(self) == *old(self),
            r matches Some(address) ==> Self::allotted(*old(self), *final(self), address),
            final(self).wf(),
    {
        if page_count != 1 {
            return None;
        }
        let mut byte_index: usize = 0;
        while byte_index < 256
            invariant
                page_count == 1,
                byte_index <= 256,
                *self == *old(self),
                self.wf(),
                forall|q: int| 0 <= q < byte_index * 8 ==> !self.free_at(0, q),
            decreases 256 - byte_index,
        {
            let byte = self.l0[byte_index];
            if byte != 0xFF {
                let mut offset: usize = byte_index * 8;
                while offset < byte_index * 8 + 8
                    invariant
                        page_count == 1,
                        byte_index < 256,
                        byte_index * 8 <= offset <= byte_index * 8 + 8,
                        *self == *old(self),
                        self.wf(),
                        forall|q: int| 0 <= q < offset ==> !self.free_at(0, q),
                    decreases byte_index * 8 + 8 - offset,
                {
                    if self.check_layer(offset, 0) {
                        let address = self.offset_to_address(offset);
                        self.mark(address, 1);
                        proof {
                            assert(old(self).page_of(address) == offset);
                            assert(Self::page_range(offset as int, 1) =~= set![offset as int]);
                            assert(old(self).free_pages().difference(set![offset as int])
                                =~= old(self).free_pages().remove(offset as int));
                            assert(old(self).free_pages().contains(offset as int));
                            assert(!Set::<int>::empty().contains(offset as int));
                        }
                        return Some(address);
                    }
                    offset += 1;
                }
            } else {
                assert forall|q: int| byte_index * 8 <= q < byte_index * 8 + 8 implies !self.free_at(
                    0,
                    q,
                ) by {
                    lemma_full_byte(slot_bit(q));
                    assert(self.bitmap(0)[q / 8] == byte);
                }
            }
            byte_index += 1;
        }
        let mut offset: usize = 0;
        while offset < PAGE_COUNT
            invariant
                page_count == 1,
                offset <= PAGE_COUNT,
                *self == *old(self),
                self.wf(),
                forall|q: int| 0 <= q < PAGE_COUNT ==> !self.free_at(0, q),
                forall|q: int| 0 <= q < offset ==> !self.page_free(q),
            decreases PAGE_COUNT - offset,
        {
            if self.check(offset) {
                let address = self.offset_to_address(offset);
                self.mark(address, 1);
                proof {
                    assert(old(self).page_of(address) == offset);
                    assert(Self::page_range(offset as int, 1) =~= set![offset as int]);
                    assert(old(self).free_pages().difference(set![offset as int]) =~= old(
                        self,
                    ).free_pages().remove(offset as int));
                    assert(old(self).free_pages().contains(offset as int));
                    assert(!Set::<int>::empty().contains(offset as int));
                }
                return Some(address);
            }
            offset += 1;
        }
        assert(self.free_pages() =~= Set::<int>::empty());
        None
    }

    /// Lists the free blocks: those of the coarsest layer first, and within a
    /// layer the lowest address first.
    pub fn free_blocks(&self) -> (blocks: Vec<FreeBlock>)
        requires
            self.placed(),
        ensures
            blocks@ == self.listing(),
    {
        let mut blocks: Vec<FreeBlock> = Vec::new();
        let mut layer: usize = 4;
        while layer > 0
            invariant
                layer <= 4,
                self.placed(),
                blocks@ == self.listing_from(layer as int),
            decreases layer,
        {
            layer -= 1;
            let slots: usize = PAGE_COUNT >> layer;
            let pages: usize = 1usize << layer;
            proof {
                lemma_layer_shift(layer);
            }
            let mut slot: usize = 0;
            while slot < slots
                invariant
                    layer <= 3,
                    slots == layer_slots(layer as int),
                    pages == block_pages(layer as int),
                    slot <= slots,
                    self.placed(),
                    blocks@ == self.listing_from(layer + 1) + self.layer_listing(
                        layer as int,
                        slot as int,
                    ),
                decreases slots - slot,
            {
                let offset = slot * pages;
                assert(layer_slot(offset as int, layer as int) == slot);
                if self.check_layer(offset, layer) {
                    let address = self.offset_to_address(offset);
                    blocks.push(FreeBlock { address, pages });
                }
                slot += 1;
            }
        }
        blocks
    }
}

/// Two maps with the same base, the same link and the same reading of every
/// slot are the same map, byte for byte.
pub proof fn lemma_same_bits(a: Buddy, b: Buddy)
    requires
        a.base() == b.base(),
        a.next_map() == b.next_map(),
        forall|l: int, s: int|
            0 <= l <= 3 && 0 <= s < layer_slots(l) ==> a.free_at(l, s) == b.free_at(l, s),
    ensures
        a == b,
{
    assert forall|l: int, i: int| 0 <= l <= 3 && 0 <= i < layer_slots(l) / 8 implies a.bitmap(l)[i]
        == b.bitmap(l)[i] by {
        let x = a.bitmap(l)[i];
        let y = b.bitmap(l)[i];
        assert forall|bit: u8| 0 <= bit < 8 implies bit_set(x, bit) == bit_set(y, bit) by {
            let s = 8 * i + (7 - bit);
            assert(s / 8 == i && slot_bit(s) == bit);
            assert(a.free_at(l, s) == b.free_at(l, s));
        }
        lemma_byte_by_bits(x, y);
    }
    assert(a.l0 =~= b.l0) by {
        assert forall|i: int| 0 <= i < 256 implies a.l0[i] == b.l0[i] by {
            assert(a.bitmap(0)[i] == b.bitmap(0)[i]);
        }
    }
    assert(a.l1 =~= b.l1) by {
        assert forall|i: int| 0 <= i < 128 implies a.l1[i] == b.l1[i] by {
            assert(a.bitmap(1)[i] == b.bitmap(1)[i]);
        }
    }
    assert(a.l2 =~= b.l2) by {
        assert forall|i: int| 0 <= i < 64 implies a.l2[i] == b.l2[i] by {
            assert(a.bitmap(2)[i] == b.bitmap(2)[i]);
        }
    }
    assert(a.l3 =~= b.l3) by {
        assert forall|i: int| 0 <= i < 32 implies a.l3[i] == b.l3[i] by {
            assert(a.bitmap(3)[i] == b.bitmap(3)[i]);
        }
    }
}

/// The bitmap of each layer holds one bit per slot: 256, 128, 64 and 32
/// bytes from the finest layer to the coarsest.
pub proof fn lemma_layer_sizes(map: Buddy)
    ensures
        map.bitmap(0).len() == 256,
        map.bitmap(1).len() == 128,
        map.bitmap(2).len() == 64,
        map.bitmap(3).len() == 32,
        forall|layer: int| 0 <= layer <= 3 ==> 8 * map.bitmap(layer).len() == layer_slots(layer),
{
}

/// The number of slots and the pages of a block, as shifts by the layer.
pub proof fn lemma_layer_shift(layer: usize)
    requires
        layer <= 3,
    ensures
        PAGE_COUNT >> layer == layer_slots(layer as int),
        1usize << layer == block_pages(layer as int),
{
    if layer == 0 {
        assert(2048usize >> 0usize == 2048 && 1usize << 0usize == 1) by (bit_vector);
    } else if layer == 1 {
        assert(2048usize >> 1usize == 1024 && 1usize << 1usize == 2) by (bit_vector);
    } else if layer == 2 {
        assert(2048usize >> 2usize == 512 && 1usize << 2usize == 4) by (bit_vector);
    } else {
        assert(2048usize >> 3usize == 256 && 1usize << 3usize == 8) by (bit_vector);
    }
}

/// Shifting a page index right by the layer gives the slot of that layer.
pub proof fn lemma_layer_slot(offset: usize, layer: usize)
    requires
        offset < PAGE_COUNT,
        layer <= 3,
    ensures
        offset >> layer == layer_slot(offset as int, layer as int),
        0 <= layer_slot(offset as int, layer as int) < layer_slots(layer as int),
        layer >= 1 ==> layer_slot(offset as int, layer as int) == layer_slot(
            offset as int,
            layer - 1,
        ) / 2,
{
    if layer == 0 {
        assert(offset >> 0usize == offset) by (bit_vector);
    } else if layer == 1 {
        assert(offset >> 1usize == offset / 2) by (bit_vector);
    } else if layer == 2 {
        assert(offset >> 2usize == offset / 4) by (bit_vector);
    } else {
        assert(offset >> 3usize == offset / 8) by (bit_vector);
    }
}

} // verus!
