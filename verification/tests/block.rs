use bevy_debug_text_overlay::block::{Block, Blocks, Gap};

#[test]
fn test_gap() {
    let mut blocks: Blocks<u8, u32> = Blocks::default();
    assert_eq!(0, blocks.insert_size(1_u8, 3));
    assert_eq!(3, blocks.insert_size(2, 2));
}

#[test]
fn test_reinsertion() {
    let mut blocks: Blocks<u8, u32> = Blocks::default();
    blocks.insert_size(1_u8, 3);
    blocks.insert_size(2, 2);
    blocks.insert_size(3, 8);
    blocks.remove(2);
    assert_eq!(3, blocks.insert_size(4, 1));
    assert_eq!(3 + 1, blocks.insert_size(5, 1));
}

#[test]
fn test_reinsertion_merging() {
    let mut blocks: Blocks<u8, u32> = Blocks::default();
    blocks.insert_size(1_u8, 3);
    blocks.insert_size(2, 1);
    blocks.insert_size(3, 1);
    blocks.insert_size(4, 8);
    blocks.remove(2);
    blocks.remove(3);
    assert_eq!(3, blocks.insert_size(5, 2));
}

#[test]
fn test_fat_block() {
    let mut blocks: Blocks<u8, u32> = Blocks::default();
    blocks.insert_size(1_u8, 1);
    blocks.insert_size(2, 1);
    blocks.insert_size(3, 8);
    blocks.remove(2);
    assert_eq!(1 + 1 + 8, blocks.insert_size(4, 3));
}

#[test]
fn test_cleanup_single_block_end() {
    let mut blocks: Blocks<u8, u32> = Blocks::default();
    blocks.insert_size(1_u8, 1);
    blocks.insert_size(2, 1);
    blocks.remove(2);
    assert_eq!(1, blocks.insert_size(3, 1));
}

#[test]
fn test_cleanup_multiple_block_end() {
    let mut blocks: Blocks<u8, u32> = Blocks::default();
    blocks.insert_size(1_u8, 1);
    blocks.insert_size(2, 1);
    blocks.insert_size(3, 1);
    blocks.remove(2);
    blocks.remove(3);
    assert_eq!(1, blocks.insert_size(4, 1));
}

#[test]
fn block_size_and_owner() {
    let gap: Block<u8, u32> = Block::Gap(5);
    let full: Block<u8, u32> = Block::Full(9, 7);
    assert_eq!(5, gap.size());
    assert_eq!(7, full.size());
    assert!(full.has_id(&9));
    assert!(!full.has_id(&8));
    assert!(!gap.has_id(&9));
}

#[test]
fn first_gap_is_the_first_that_fits() {
    let mut blocks: Blocks<u8, u32> = Blocks::default();
    blocks.insert_size(1, 2);
    blocks.insert_size(2, 1);
    blocks.insert_size(3, 2);
    blocks.insert_size(4, 4);
    blocks.insert_size(5, 1);
    blocks.remove(2);
    blocks.remove(4);
    assert!(blocks.first_gap_of_size(5).is_none());
    let small = blocks.first_gap_of_size(1).unwrap();
    assert_eq!((1, 1), (small.index, small.gap_size));
    let large = blocks.first_gap_of_size(3).unwrap();
    assert_eq!((3, 4), (large.index, large.gap_size));
}

#[test]
fn replace_gap_splits_a_larger_gap() {
    let mut blocks: Blocks<u8, u32> = Blocks::default();
    blocks.insert_size(1, 2);
    blocks.insert_size(2, 6);
    blocks.insert_size(3, 1);
    blocks.remove(2);
    let gap = Gap { index: 1, gap_size: 6 };
    blocks.replace_gap(Some(&gap), 4, 4);
    let rest = blocks.first_gap_of_size(1).unwrap();
    assert_eq!((2, 2), (rest.index, rest.gap_size));
    assert!(blocks.first_gap_of_size(3).is_none());
    blocks.replace_gap(None, 5, 3);
    assert_eq!(12, blocks.insert_size(6, 3));
}

#[test]
fn cleanup_keeps_a_tidy_line() {
    let mut blocks: Blocks<u8, u32> = Blocks::default();
    blocks.insert_size(1, 2);
    blocks.insert_size(2, 3);
    blocks.insert_size(3, 4);
    blocks.remove(2);
    blocks.cleanup();
    let gap = blocks.first_gap_of_size(1).unwrap();
    assert_eq!((1, 3), (gap.index, gap.gap_size));
    assert_eq!(9, blocks.insert_size(4, 5));
}

#[test]
fn removing_what_is_absent_changes_nothing() {
    let mut blocks: Blocks<u8, u32> = Blocks::default();
    blocks.insert_size(1, 2);
    blocks.insert_size(2, 3);
    blocks.insert_size(3, 4);
    blocks.remove(2);
    blocks.remove(9);
    blocks.remove(2);
    let gap = blocks.first_gap_of_size(1).unwrap();
    assert_eq!((1, 3), (gap.index, gap.gap_size));
    assert_eq!(9, blocks.insert_size(4, 5));
}

#[test]
fn trailing_run_of_gaps_is_dropped_whole() {
    let mut blocks: Blocks<u8, u32> = Blocks::default();
    blocks.insert_size(1, 1);
    blocks.insert_size(2, 1);
    blocks.insert_size(3, 1);
    blocks.remove(2);
    blocks.remove(3);
    assert!(blocks.first_gap_of_size(0).is_none());
    assert_eq!(1, blocks.insert_size(4, 2));
}

#[test]
fn offsets_of_placed_blocks_stay() {
    let mut blocks: Blocks<u8, u64> = Blocks::default();
    assert_eq!(0, blocks.insert_size(1, 10));
    assert_eq!(10, blocks.insert_size(2, 20));
    assert_eq!(30, blocks.insert_size(3, 30));
    blocks.remove(1);
    assert_eq!(0, blocks.insert_size(4, 4));
    assert_eq!(4, blocks.insert_size(5, 6));
    blocks.remove(2);
    assert_eq!(10, blocks.insert_size(6, 20));
    assert_eq!(60, blocks.insert_size(7, 1));
}

#[test]
fn try_insert_size_refuses_what_does_not_fit() {
    let mut blocks: Blocks<u8, u8> = Blocks::default();
    assert_eq!(Some(0), blocks.try_insert_size(1, 200));
    assert_eq!(None, blocks.try_insert_size(2, 56));
    assert_eq!(Some(200), blocks.try_insert_size(3, 55));
    assert_eq!(None, blocks.try_insert_size(4, 1));
    blocks.remove(1);
    assert_eq!(Some(0), blocks.try_insert_size(5, 150));
    assert_eq!(Some(150), blocks.try_insert_size(6, 50));
}

#[test]
fn reuse_of_a_gap() {
    let mut blocks: Blocks<u8, u32> = Blocks::default();
    assert_eq!(0, blocks.insert_size(1, 3));
    assert_eq!(3, blocks.insert_size(2, 2));
    assert_eq!(5, blocks.insert_size(3, 8));
    blocks.remove(2);
    let gap = blocks.first_gap_of_size(0).unwrap();
    assert_eq!((1, 2), (gap.index, gap.gap_size));
    assert_eq!(3, blocks.insert_size(4, 1));
    let rest = blocks.first_gap_of_size(0).unwrap();
    assert_eq!((2, 1), (rest.index, rest.gap_size));
    assert_eq!(3 + 1, blocks.insert_size(5, 1));
    assert!(blocks.first_gap_of_size(0).is_none());
    assert_eq!(13, blocks.insert_size(6, 1));
}

#[test]
fn coalescing_of_gaps() {
    let mut blocks: Blocks<u8, u32> = Blocks::default();
    assert_eq!(0, blocks.insert_size(1, 3));
    assert_eq!(3, blocks.insert_size(2, 1));
    assert_eq!(4, blocks.insert_size(3, 1));
    assert_eq!(5, blocks.insert_size(4, 8));
    blocks.remove(2);
    blocks.remove(3);
    let gap = blocks.first_gap_of_size(0).unwrap();
    assert_eq!((1, 2), (gap.index, gap.gap_size));
    assert_eq!(3, blocks.insert_size(5, 2));
    assert!(blocks.first_gap_of_size(0).is_none());
}

#[test]
fn gaps_on_both_sides_join_the_new_gap() {
    let mut blocks: Blocks<u8, u32> = Blocks::default();
    blocks.insert_size(1, 1);
    blocks.insert_size(2, 2);
    blocks.insert_size(3, 3);
    blocks.insert_size(4, 4);
    blocks.insert_size(5, 5);
    blocks.remove(2);
    blocks.remove(4);
    blocks.remove(3);
    let gap = blocks.first_gap_of_size(0).unwrap();
    assert_eq!((1, 9), (gap.index, gap.gap_size));
    assert_eq!(1, blocks.insert_size(6, 9));
    assert_eq!(15, blocks.insert_size(7, 1));
}

#[test]
fn replace_gap_in_place_and_at_the_end() {
    let mut blocks: Blocks<u8, u32> = Blocks::default();
    blocks.insert_size(1, 2);
    blocks.insert_size(2, 6);
    blocks.insert_size(3, 1);
    blocks.remove(2);
    let gap = blocks.first_gap_of_size(6).unwrap();
    blocks.replace_gap(Some(&gap), 4, 6);
    assert!(blocks.first_gap_of_size(0).is_none());
    blocks.remove(4);
    let gap = blocks.first_gap_of_size(6).unwrap();
    assert_eq!((1, 6), (gap.index, gap.gap_size));
}
