use mercuros_mercurius::memory::frame::{Buddy, BuddyError, FreeBlock, PAGE_COUNT, PAGE_SIZE, SPAN};

const BASE: u64 = 0x8000_0000;

fn page(index: u64) -> u64 {
    BASE + index * PAGE_SIZE
}

fn fresh() -> Buddy {
    Buddy::new(BASE, BASE).unwrap()
}

fn free_pages(map: &Buddy) -> Vec<usize> {
    (0..PAGE_COUNT).filter(|&offset| map.check(offset)).collect()
}

#[test]
fn allocation_after_freeing_all_but_the_first_page() {
    let mut map = fresh();
    assert!(map.free(BASE + 4096, 2047));
    assert_eq!(map.allocate(1), Some(0x8000_1000));
    assert_eq!(map.allocate(1), Some(0x8000_2000));
}

#[test]
fn eight_pages_are_handed_out_once_each() {
    let mut map = fresh();
    assert!(map.free(BASE, 8));
    let mut seen = vec![false; 8];
    for _ in 0..8 {
        let address = map.allocate(1).unwrap();
        assert!(address >= BASE && address < BASE + 8 * 4096);
        assert_eq!(address % 4096, 0);
        let index = ((address - BASE) / 4096) as usize;
        assert!(!seen[index]);
        seen[index] = true;
    }
    assert!(seen.iter().all(|&taken| taken));
    assert_eq!(map.allocate(1), None);
}

#[test]
fn eight_pages_are_handed_out_in_ascending_order() {
    let mut map = fresh();
    assert!(map.free(BASE, 8));
    for index in 0..8 {
        assert_eq!(map.allocate(1), Some(page(index)));
    }
    assert_eq!(map.allocate(1), None);
}

#[test]
fn new_map_reports_no_free_page() {
    let mut map = fresh();
    assert_eq!(free_pages(&map), Vec::<usize>::new());
    for layer in 0..4 {
        for offset in 0..PAGE_COUNT {
            assert!(!map.check_layer(offset, layer));
        }
    }
    assert_eq!(map.free_blocks(), Vec::<FreeBlock>::new());
    assert_eq!(map.allocate(1), None);
}

#[test]
fn new_rejects_a_misaligned_base() {
    assert_eq!(Buddy::new(BASE + 1, BASE), Err(BuddyError::Misaligned));
    assert_eq!(Buddy::new(BASE + 2048, BASE), Err(BuddyError::Misaligned));
}

#[test]
fn new_rejects_a_misaligned_placement() {
    assert_eq!(Buddy::new(BASE, BASE + 4095), Err(BuddyError::Misaligned));
    assert_eq!(Buddy::new(BASE, 8), Err(BuddyError::Misaligned));
}

#[test]
fn new_rejects_a_span_past_the_address_space() {
    assert_eq!(Buddy::new(0xFFFF_FFFF_FF80_0000, 0), Err(BuddyError::SpanOverflow));
    assert_eq!(Buddy::new(0xFFFF_FFFF_FFFF_F000, 0), Err(BuddyError::SpanOverflow));
    assert!(Buddy::new(0xFFFF_FFFF_FF7F_F000, 0).is_ok());
    assert!(Buddy::new(0, 0).is_ok());
}

#[test]
fn misalignment_is_reported_before_the_span() {
    assert_eq!(Buddy::new(0xFFFF_FFFF_FFFF_F001, 0), Err(BuddyError::Misaligned));
}

#[test]
fn placement_may_differ_from_the_base() {
    let mut map = Buddy::new(BASE, 0x4000_0000).unwrap();
    assert!(map.free(BASE, 1));
    assert_eq!(map.allocate(1), Some(BASE));
}

#[test]
fn mark_then_free_restores_the_map() {
    let mut map = fresh();
    assert!(map.free(page(0), 8));
    assert!(map.free(page(16), 3));
    assert!(map.free(page(100), 1));
    assert!(map.free(page(2040), 8));
    let before = map.clone();
    for offset in free_pages(&before) {
        let address = page(offset as u64);
        assert!(map.mark(address, 1));
        assert_ne!(map, before);
        assert!(map.free(address, 1));
        assert_eq!(map, before);
    }
}

#[test]
fn free_then_mark_restores_the_map() {
    let mut map = fresh();
    assert!(map.free(page(0), 7));
    assert!(map.free(page(33), 2));
    let before = map.clone();
    for offset in [7u64, 8, 32, 35, 2047] {
        assert!(map.free(page(offset), 1));
        assert_ne!(map, before);
        assert!(map.mark(page(offset), 1));
        assert_eq!(map, before);
    }
}

#[test]
fn mark_then_free_of_a_used_page_frees_it() {
    let mut map = fresh();
    let before = map.clone();
    assert!(map.mark(page(3), 1));
    assert_eq!(map, before);
    assert!(map.free(page(3), 1));
    assert_eq!(free_pages(&map), vec![3]);
}

#[test]
fn two_pages_coalesce_in_either_order() {
    for low_first in [true, false] {
        let mut map = fresh();
        let (first, second) = if low_first { (6, 7) } else { (7, 6) };
        assert!(map.free(page(first), 1));
        assert!(map.check_layer(first as usize, 0));
        assert!(!map.check_layer(first as usize, 1));
        assert!(map.free(page(second), 1));
        assert!(map.check_layer(6, 1));
        assert!(!map.check_layer(6, 0));
        assert!(!map.check_layer(7, 0));
        assert!(!map.check_layer(6, 2));
        assert_eq!(free_pages(&map), vec![6, 7]);
    }
}

#[test]
fn four_pages_coalesce_in_either_order() {
    for low_first in [true, false] {
        let mut map = fresh();
        let (first, second) = if low_first { (12, 14) } else { (14, 12) };
        assert!(map.free(page(first), 2));
        assert!(map.check_layer(first as usize, 1));
        assert!(!map.check_layer(first as usize, 2));
        assert!(map.free(page(second), 2));
        assert!(map.check_layer(12, 2));
        assert!(!map.check_layer(12, 1));
        assert!(!map.check_layer(14, 1));
        assert!(!map.check_layer(12, 3));
        for offset in 12..16 {
            assert!(!map.check_layer(offset, 0));
        }
        assert_eq!(free_pages(&map), vec![12, 13, 14, 15]);
    }
}

#[test]
fn eight_pages_coalesce_in_either_order() {
    for low_first in [true, false] {
        let mut map = fresh();
        let (first, second) = if low_first { (24, 28) } else { (28, 24) };
        assert!(map.free(page(first), 4));
        assert!(map.check_layer(first as usize, 2));
        assert!(!map.check_layer(first as usize, 3));
        assert!(map.free(page(second), 4));
        assert!(map.check_layer(24, 3));
        assert!(!map.check_layer(24, 2));
        assert!(!map.check_layer(28, 2));
        assert_eq!(free_pages(&map), (24..32).collect::<Vec<usize>>());
    }
}

#[test]
fn two_free_blocks_of_two_go_on_to_join() {
    let mut map = fresh();
    assert!(map.free(page(4), 2));
    assert!(map.free(page(6), 1));
    assert!(map.free(page(7), 1));
    assert!(!map.check_layer(6, 1));
    assert!(map.check_layer(6, 2));
}

#[test]
fn one_half_alone_does_not_coalesce() {
    let mut map = fresh();
    assert!(map.free(page(8), 4));
    assert!(map.free(page(12), 3));
    assert!(!map.check_layer(8, 3));
    assert!(map.check_layer(8, 2));
    assert!(!map.check_layer(12, 2));
    assert!(map.check_layer(12, 1));
    assert!(!map.check_layer(14, 1));
    assert!(map.check_layer(14, 0));
    assert!(!map.check(15));
}

#[test]
fn marking_one_page_splits_a_block_of_eight() {
    let mut map = fresh();
    assert!(map.free(page(0), 8));
    assert!(map.check_layer(5, 3));
    assert!(map.mark(page(5), 1));
    assert!(!map.check_layer(5, 0));
    assert!(!map.check_layer(5, 1));
    assert!(!map.check_layer(5, 2));
    assert!(!map.check_layer(5, 3));
    assert!(map.check_layer(4, 0));
    assert!(map.check_layer(6, 1));
    assert!(map.check_layer(0, 2));
    for offset in [0, 1, 2, 3, 6, 7] {
        assert!(!map.check_layer(offset, 0));
    }
    assert!(!map.check_layer(0, 1));
    assert!(!map.check_layer(2, 1));
    assert_eq!(free_pages(&map), vec![0, 1, 2, 3, 4, 6, 7]);
    assert_eq!(
        map.free_blocks(),
        vec![
            FreeBlock { address: page(0), pages: 4 },
            FreeBlock { address: page(6), pages: 2 },
            FreeBlock { address: page(4), pages: 1 },
        ]
    );
}

#[test]
fn free_past_the_end_stops_at_the_end() {
    let mut map = fresh();
    assert!(map.free(page(2046), 100));
    assert_eq!(free_pages(&map), vec![2046, 2047]);
    assert_eq!(map.free_blocks(), vec![FreeBlock { address: page(2046), pages: 2 }]);
    let mut whole = fresh();
    assert!(whole.free(page(2047), usize::MAX));
    assert_eq!(free_pages(&whole), vec![2047]);
}

#[test]
fn mark_past_the_end_stops_at_the_end() {
    let mut map = fresh();
    assert!(map.free(BASE, 2048));
    assert!(map.mark(page(2045), 9));
    assert_eq!(free_pages(&map), (0..2045).collect::<Vec<usize>>());
}

#[test]
fn a_range_outside_the_span_is_refused() {
    let mut map = fresh();
    assert!(map.free(page(10), 4));
    let before = map.clone();
    assert!(!map.free(BASE - 4096, 4));
    assert!(!map.free(BASE - 1, 4));
    assert!(!map.free(BASE + SPAN, 1));
    assert!(!map.mark(BASE - 4096, 4096));
    assert!(!map.mark(BASE + SPAN, 1));
    assert!(!map.free(0, 1));
    assert!(!map.mark(u64::MAX, 1));
    assert_eq!(map, before);
}

#[test]
fn an_empty_range_changes_nothing() {
    let mut map = fresh();
    assert!(map.free(page(10), 4));
    let before = map.clone();
    assert!(map.free(page(3), 0));
    assert!(map.mark(page(10), 0));
    assert_eq!(map, before);
}

#[test]
fn freeing_twice_is_freeing_once() {
    let mut map = fresh();
    assert!(map.free(page(40), 5));
    let once = map.clone();
    assert!(map.free(page(40), 5));
    assert!(map.free(page(42), 1));
    assert_eq!(map, once);
}

#[test]
fn an_address_inside_a_page_stands_for_the_page() {
    let mut map = fresh();
    assert!(map.free(page(1) + 1, 1));
    assert_eq!(free_pages(&map), vec![1]);
    assert!(map.mark(page(1) + 4095, 1));
    assert_eq!(free_pages(&map), Vec::<usize>::new());
}

#[test]
fn allocation_is_exhausted_once_all_pages_are_marked() {
    let mut map = fresh();
    assert!(map.free(BASE, 2048));
    assert!(map.mark(BASE, 2048));
    assert_eq!(map, fresh());
    assert_eq!(map.allocate(1), None);
    assert!(map.free(page(77), 1));
    assert_eq!(map.allocate(1), Some(page(77)));
    assert_eq!(map.allocate(1), None);
    assert_eq!(map, fresh());
}

#[test]
fn only_single_pages_are_allocated() {
    let mut map = fresh();
    assert!(map.free(BASE, 64));
    let before = map.clone();
    assert_eq!(map.allocate(0), None);
    assert_eq!(map.allocate(2), None);
    assert_eq!(map.allocate(8), None);
    assert_eq!(map.allocate(usize::MAX), None);
    assert_eq!(map, before);
}

#[test]
fn a_single_free_page_is_allocated_before_a_block_is_split() {
    let mut map = fresh();
    assert!(map.free(page(0), 8));
    assert!(map.free(page(9), 1));
    assert_eq!(map.allocate(1), Some(page(9)));
    assert_eq!(map.allocate(1), Some(page(0)));
    assert_eq!(map.allocate(1), Some(page(1)));
    assert_eq!(free_pages(&map), vec![2, 3, 4, 5, 6, 7]);
}

#[test]
fn the_lowest_single_free_page_is_allocated_first() {
    let mut map = fresh();
    assert!(map.free(page(300), 1));
    assert!(map.free(page(21), 1));
    assert!(map.free(page(1000), 1));
    assert_eq!(map.allocate(1), Some(page(21)));
    assert_eq!(map.allocate(1), Some(page(300)));
    assert_eq!(map.allocate(1), Some(page(1000)));
    assert_eq!(map.allocate(1), None);
}

#[test]
fn allocation_marks_the_page_as_used() {
    let mut map = fresh();
    assert!(map.free(page(512), 2));
    let address = map.allocate(1).unwrap();
    assert_eq!(address, page(512));
    assert!(!map.check(512));
    assert!(map.check(513));
    assert!(map.check_layer(513, 0));
}

#[test]
fn free_blocks_lists_coarse_layers_first() {
    let mut map = fresh();
    assert!(map.free(BASE + 4096, 2047));
    let blocks = map.free_blocks();
    assert_eq!(blocks.len(), 258);
    assert_eq!(blocks[0], FreeBlock { address: page(8), pages: 8 });
    assert_eq!(blocks[1], FreeBlock { address: page(16), pages: 8 });
    assert_eq!(blocks[254], FreeBlock { address: page(2040), pages: 8 });
    assert_eq!(blocks[255], FreeBlock { address: page(4), pages: 4 });
    assert_eq!(blocks[256], FreeBlock { address: page(2), pages: 2 });
    assert_eq!(blocks[257], FreeBlock { address: page(1), pages: 1 });
    let total: usize = blocks.iter().map(|block| block.pages).sum();
    assert_eq!(total, 2047);
}

#[test]
fn the_whole_span_coalesces_into_blocks_of_eight() {
    let mut map = fresh();
    assert!(map.free(BASE, PAGE_COUNT));
    let blocks = map.free_blocks();
    assert_eq!(blocks.len(), 256);
    for (slot, block) in blocks.iter().enumerate() {
        assert_eq!(*block, FreeBlock { address: page(8 * slot as u64), pages: 8 });
    }
    for offset in 0..PAGE_COUNT {
        assert!(map.check(offset));
        assert!(map.check_layer(offset, 3));
        assert!(!map.check_layer(offset, 0));
    }
}

#[test]
fn addresses_and_offsets_convert_both_ways() {
    let map = fresh();
    assert_eq!(map.address_to_offset(BASE), 0);
    assert_eq!(map.address_to_offset(page(5) + 17), 5);
    assert_eq!(map.address_to_offset(BASE + SPAN - 1), 2047);
    assert_eq!(map.offset_to_address(0), BASE);
    assert_eq!(map.offset_to_address(7), 0x8000_7000);
    assert_eq!(map.offset_to_address(2048), BASE + SPAN);
}

#[test]
fn in_range_knows_the_ends_of_the_span() {
    let map = fresh();
    assert!(map.in_range(BASE));
    assert!(map.in_range(BASE + SPAN - 1));
    assert!(!map.in_range(BASE + SPAN));
    assert!(!map.in_range(BASE - 1));
    assert!(!map.in_range(0));
    assert!(!map.in_range(u64::MAX));
    let last = Buddy::new(0xFFFF_FFFF_FF7F_F000, 0).unwrap();
    assert!(last.in_range(0xFFFF_FFFF_FFFF_EFFF));
    assert!(!last.in_range(0xFFFF_FFFF_FFFF_F000));
    assert!(!last.in_range(u64::MAX));
}

#[test]
fn check_reads_every_layer() {
    let mut map = fresh();
    assert!(map.free(page(0), 1));
    assert!(map.free(page(2), 2));
    assert!(map.free(page(4), 4));
    assert!(map.free(page(8), 8));
    for offset in [0usize, 2, 3, 4, 5, 6, 7, 8, 15] {
        assert!(map.check(offset));
    }
    assert!(!map.check(1));
    assert!(!map.check(16));
    assert!(map.check_layer(0, 0));
    assert!(map.check_layer(3, 1));
    assert!(map.check_layer(7, 2));
    assert!(map.check_layer(15, 3));
}
