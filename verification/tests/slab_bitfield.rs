use kernel_core::slab::bitfield::Bitfield;
use kernel_core::slab::layout::Layout;
use kernel_core::slab::OBJECT_PAGE_METADATA_OVERHEAD;

fn layout(size: usize, align: usize) -> Layout {
    Layout::from_size_align(size, align).unwrap()
}

#[test]
fn initialize_clears_the_relevant_bits_and_sets_the_rest() {
    let mut bits = [0u64; 8];
    bits.initialize(64, 512);
    for i in 0..8 {
        assert!(!bits.is_allocated(i));
    }
    for i in 8..512 {
        assert!(bits.is_allocated(i));
    }
    assert_eq!(bits[0], !0xffu64);
    for w in 1..8 {
        assert_eq!(bits[w], u64::MAX);
    }
}

#[test]
fn initialize_with_more_slots_than_bits_frees_every_bit() {
    let mut bits = [u64::MAX; 8];
    bits.initialize(1, 4096);
    for w in 0..8 {
        assert_eq!(bits[w], 0);
    }
}

#[test]
fn initialize_with_no_room_for_an_object_leaves_the_bitmap_full() {
    let mut bits = [0u64; 8];
    bits.initialize(64, 63);
    assert!(bits.is_full());
    assert!(bits.all_free(0));
}

#[test]
fn initialize_across_a_word_boundary() {
    let mut bits = [0u64; 8];
    bits.initialize(8, 8 * 70);
    assert_eq!(bits[0], 0);
    assert_eq!(bits[1], !0x3fu64);
    assert!(!bits.is_allocated(69));
    assert!(bits.is_allocated(70));
}

#[test]
fn initialize_works_on_a_bitmap_of_another_length() {
    let mut bits = vec![0u64; 2];
    bits.as_mut_slice().initialize(16, 16 * 200);
    assert_eq!(bits, vec![0u64, 0u64]);
    bits.as_mut_slice().initialize(16, 16 * 3);
    assert_eq!(bits, vec![!0x7u64, u64::MAX]);
}

#[test]
fn set_then_clear_reads_as_free() {
    let mut bits = [0u64; 8];
    bits.initialize(64, 512);
    bits.set_bit(5);
    assert!(bits.is_allocated(5));
    bits.clear_bit(5);
    assert!(!bits.is_allocated(5));
    assert_eq!(bits[0], !0xffu64);
}

#[test]
fn set_bit_is_idempotent() {
    let mut once = [0u64; 8];
    once.set_bit(130);
    let mut twice = [0u64; 8];
    twice.set_bit(130);
    twice.set_bit(130);
    assert_eq!(once, twice);
    assert_eq!(once[2], 1u64 << 2);
}

#[test]
fn clear_bit_is_idempotent() {
    let mut once = [u64::MAX; 8];
    once.clear_bit(63);
    let mut twice = [u64::MAX; 8];
    twice.clear_bit(63);
    twice.clear_bit(63);
    assert_eq!(once, twice);
    assert_eq!(once[0], u64::MAX >> 1);
}

#[test]
fn clearing_disjoint_bits_frees_them_and_changes_no_other() {
    let mut bits = [0u64; 8];
    let chosen = [3usize, 64, 65, 200, 511];
    for &i in chosen.iter() {
        bits.set_bit(i);
    }
    bits.set_bit(7);
    for &i in chosen.iter() {
        bits.clear_bit(i);
    }
    for i in 0..512 {
        assert_eq!(bits.is_allocated(i), i == 7);
    }
}

#[test]
fn is_full_only_when_every_word_is_all_ones() {
    let mut bits = [u64::MAX; 8];
    assert!(bits.is_full());
    bits[7] = u64::MAX - 1;
    assert!(!bits.is_full());
    bits.initialize(64, 64);
    assert!(!bits.is_full());
    bits.set_bit(0);
    assert!(bits.is_full());
}

#[test]
fn all_free_looks_at_the_bits_below_the_boundary() {
    let mut bits = [0u64; 8];
    bits.initialize(64, 64 * 70);
    assert!(bits.all_free(70));
    assert!(!bits.all_free(71));
    bits.set_bit(69);
    assert!(!bits.all_free(70));
    assert!(bits.all_free(69));
    assert!(bits.all_free(0));
    bits.clear_bit(69);
    bits.set_bit(2);
    assert!(!bits.all_free(70));
    assert!(bits.all_free(2));
    assert!(!bits.all_free(3));
}

#[test]
fn all_free_at_a_word_boundary_and_beyond_the_bitmap() {
    let mut bits = [0u64; 8];
    assert!(bits.all_free(64));
    assert!(bits.all_free(512));
    assert!(bits.all_free(10_000));
    bits.set_bit(64);
    assert!(bits.all_free(64));
    assert!(!bits.all_free(65));
    assert!(!bits.all_free(10_000));
}

#[test]
fn first_fit_returns_the_lowest_free_slot_of_the_first_word_with_one() {
    let mut bits = [0u64; 8];
    bits.initialize(64, 4096 - OBJECT_PAGE_METADATA_OVERHEAD);
    assert_eq!(bits.first_fit(0x10000, layout(64, 64), 4096), Some((0, 0x10000)));
    bits.set_bit(0);
    bits.set_bit(1);
    assert_eq!(bits.first_fit(0x10000, layout(64, 64), 4096), Some((2, 0x10000 + 128)));
}

#[test]
fn first_fit_address_is_aligned_and_inside_the_data_area() {
    let mut bits = [0u64; 8];
    bits.initialize(48, 4096 - OBJECT_PAGE_METADATA_OVERHEAD);
    for _ in 0..90 {
        match bits.first_fit(0x20000, layout(48, 16), 4096) {
            Some((idx, addr)) => {
                assert_eq!(addr, 0x20000 + idx * 48);
                assert_eq!(addr % 16, 0);
                assert!(addr >= 0x20000);
                assert!(addr <= 0x20000 + 4096 - OBJECT_PAGE_METADATA_OVERHEAD - 48);
                assert!(!bits.is_allocated(idx));
                bits.set_bit(idx);
            }
            None => {
                assert!(bits.is_full());
            }
        }
    }
    assert!(bits.is_full());
}

#[test]
fn first_fit_looks_at_one_bit_of_a_word_only() {
    // Slot 0 is taken and slot 1 is misaligned for 128 bytes, so word 0 has
    // no candidate although slot 2 would fit; word 1 is full.
    let mut bits = [u64::MAX; 8];
    bits[0] = 0b001;
    assert_eq!(bits.first_fit(0x10000, layout(64, 128), 4096), None);
    // With slot 64 free the search moves on to it.
    bits[1] = u64::MAX - 1;
    assert_eq!(bits.first_fit(0x10000, layout(64, 128), 8192), Some((64, 0x10000 + 4096)));
}

#[test]
fn first_fit_ends_at_a_candidate_beyond_the_data_area() {
    // The candidate of word 0 is slot 63 at offset 4032, which leaves no
    // room for 64 bytes before the metadata: the search ends, although
    // word 1 is free.
    let mut bits = [0u64; 8];
    bits[0] = u64::MAX >> 1;
    assert_eq!(bits.first_fit(0x10000, layout(64, 64), 4096), None);
    // The last slot that fits is slot 61, at offset 3904 <= 4096 - 80 - 64.
    bits[0] = !(1u64 << 61);
    assert_eq!(bits.first_fit(0x10000, layout(64, 64), 4096), Some((61, 0x10000 + 3904)));
    bits[0] = !(1u64 << 62);
    assert_eq!(bits.first_fit(0x10000, layout(64, 64), 4096), None);
}

#[test]
fn first_fit_on_a_full_bitmap_finds_nothing() {
    let bits = [u64::MAX; 8];
    assert_eq!(bits.first_fit(0x10000, layout(8, 8), 4096), None);
}

#[test]
fn first_fit_with_an_object_larger_than_the_page_finds_nothing() {
    let bits = [0u64; 8];
    assert_eq!(bits.first_fit(0x10000, layout(4096, 8), 4096), None);
    assert_eq!(bits.first_fit(0x10000, layout(8, 8), 64), None);
}

#[test]
fn first_fit_with_objects_of_no_size() {
    let bits = [0u64; 8];
    assert_eq!(bits.first_fit(0x10000, layout(0, 1), 4096), Some((0, 0x10000)));
}

#[test]
fn layout_takes_powers_of_two_only() {
    assert!(Layout::from_size_align(64, 64).is_ok());
    assert!(Layout::from_size_align(0, 1).is_ok());
    assert!(Layout::from_size_align(64, 0).is_err());
    assert!(Layout::from_size_align(64, 3).is_err());
    assert!(Layout::from_size_align(64, 96).is_err());
    let l = Layout::from_size_align(48, 16).unwrap();
    assert_eq!(l.size(), 48);
    assert_eq!(l.align(), 16);
}

#[test]
fn layout_size_is_bounded() {
    let max = isize::MAX as usize;
    assert!(Layout::from_size_align(max, 1).is_ok());
    assert!(Layout::from_size_align(max, 2).is_err());
    assert!(Layout::from_size_align(max - 7, 8).is_ok());
    assert!(Layout::from_size_align(max - 6, 8).is_err());
}

#[test]
fn clearing_in_any_order_gives_the_same_bitmap() {
    let slots = [3usize, 64, 65, 200, 511];
    let mut forward = [u64::MAX; 8];
    for &i in slots.iter() {
        forward.clear_bit(i);
    }
    let mut backward = [u64::MAX; 8];
    for &i in slots.iter().rev() {
        backward.clear_bit(i);
        backward.clear_bit(i);
    }
    assert_eq!(forward, backward);
    assert_eq!(forward[0], !(1u64 << 3));
    assert_eq!(forward[1], !0b11u64);
    assert_eq!(forward[3], !(1u64 << 8));
    assert_eq!(forward[7], u64::MAX >> 1);
}
