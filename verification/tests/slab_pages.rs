use kernel_core::slab::bitfield::Bitfield;
use kernel_core::slab::layout::Layout;
use kernel_core::slab::pages::AllocablePage;
use kernel_core::slab::pages::ObjectPage;
use kernel_core::slab::pages::Rawlink;
use kernel_core::slab::AllocationError;
use kernel_core::slab::OBJECT_PAGE_METADATA_OVERHEAD;
use kernel_core::slab::OBJECT_PAGE_SIZE;

fn layout(size: usize, align: usize) -> Layout {
    Layout::from_size_align(size, align).unwrap()
}

#[test]
fn a_page_lies_at_a_multiple_of_its_size() {
    assert!(ObjectPage::new(0).is_none());
    assert!(ObjectPage::new(4095).is_none());
    assert!(ObjectPage::new(4096 + 8).is_none());
    assert!(ObjectPage::new(usize::MAX - 4095).is_none());
    let page = ObjectPage::new(3 * 4096).unwrap();
    assert_eq!(page.base_addr(), 3 * 4096);
    assert_eq!(page.bitfield(), &[0u64; 8]);
    assert_eq!(page.prev_link().resolve(), None);
    assert_eq!(page.next_link().resolve(), None);
    assert_eq!(<ObjectPage as AllocablePage>::SIZE, OBJECT_PAGE_SIZE);
}

#[test]
fn eight_objects_of_64_bytes_fill_512_bytes() {
    let base = 0x40000;
    let mut page = ObjectPage::new(base).unwrap();
    page.bitfield_mut().initialize(64, 512);
    assert!(page.is_empty(8));
    assert_eq!(page.free_obj_count(), 8);
    let mut last = 0;
    for i in 0..8 {
        assert!(!page.is_full());
        let addr = page.allocate(layout(64, 64));
        assert_eq!(addr, base + 64 * i);
        assert_eq!(addr % 64, 0);
        if i > 0 {
            assert_eq!(addr, last + 64);
        }
        last = addr;
        assert_eq!(page.free_obj_count(), 7 - i);
        assert!(!page.is_empty(8));
    }
    assert!(page.is_full());
    assert_eq!(page.allocate(layout(64, 64)), 0);
    assert!(page.is_full());
}

#[test]
fn allocate_on_a_page_without_a_fitting_slot_changes_nothing() {
    let mut page = ObjectPage::new(0x40000).unwrap();
    page.bitfield_mut().initialize(64, 64);
    assert_eq!(page.allocate(layout(64, 64)), 0x40000);
    let before = *page.bitfield();
    assert_eq!(page.allocate(layout(64, 64)), 0);
    assert_eq!(*page.bitfield(), before);
}

#[test]
fn first_fit_of_a_page_uses_its_address_and_size() {
    let mut page = ObjectPage::new(0x7000).unwrap();
    page.bitfield_mut().initialize(32, OBJECT_PAGE_SIZE - OBJECT_PAGE_METADATA_OVERHEAD);
    assert_eq!(page.first_fit(layout(32, 32)), Some((0, 0x7000)));
    page.bitfield_mut().set_bit(0);
    assert_eq!(page.first_fit(layout(32, 32)), Some((1, 0x7020)));
    // First fit does not mark the slot.
    assert_eq!(page.first_fit(layout(32, 32)), Some((1, 0x7020)));
}

#[test]
fn deallocate_frees_the_slot_of_the_pointer() {
    let base = 0x40000;
    let mut page = ObjectPage::new(base).unwrap();
    page.bitfield_mut().initialize(64, 512);
    let a = page.allocate(layout(64, 64));
    let b = page.allocate(layout(64, 64));
    assert_eq!((a, b), (base, base + 64));
    assert_eq!(page.deallocate(a, layout(64, 64)), Ok(()));
    assert!(!page.bitfield().is_allocated(0));
    assert!(page.bitfield().is_allocated(1));
    assert_eq!(page.allocate(layout(64, 64)), base);
}

#[test]
fn deallocate_of_a_pointer_between_slots_is_an_error() {
    let base = 0x40000;
    let mut page = ObjectPage::new(base).unwrap();
    page.bitfield_mut().initialize(64, 512);
    let a = page.allocate(layout(64, 64));
    let before = *page.bitfield();
    assert_eq!(page.deallocate(a + 8, layout(64, 64)), Err(AllocationError::InvalidLayout));
    assert_eq!(*page.bitfield(), before);
}

#[test]
fn deallocate_of_a_free_slot_is_an_error() {
    let base = 0x40000;
    let mut page = ObjectPage::new(base).unwrap();
    page.bitfield_mut().initialize(64, 512);
    let a = page.allocate(layout(64, 64));
    assert_eq!(page.deallocate(a + 64, layout(64, 64)), Err(AllocationError::NotAllocated));
    assert_eq!(page.deallocate(a, layout(64, 64)), Ok(()));
    assert_eq!(page.deallocate(a, layout(64, 64)), Err(AllocationError::NotAllocated));
}

#[test]
fn deallocate_with_objects_of_no_size_is_an_error() {
    let mut page = ObjectPage::new(0x40000).unwrap();
    assert_eq!(page.deallocate(0x40000, layout(0, 1)), Err(AllocationError::InvalidLayout));
}

#[test]
fn deallocate_of_a_slot_beyond_the_bitmap_is_an_error() {
    let mut page = ObjectPage::new(0x40000).unwrap();
    page.bitfield_mut().initialize(1, 4016);
    assert_eq!(page.deallocate(0x40000 + 600, layout(1, 1)), Err(AllocationError::NotAllocated));
}

#[test]
fn deallocate_takes_the_offset_from_the_low_bits_of_the_pointer() {
    let mut page = ObjectPage::new(0x40000).unwrap();
    page.bitfield_mut().initialize(64, 512);
    let a = page.allocate(layout(64, 64));
    // A pointer of another page with the same offset addresses the same slot.
    assert_eq!(page.deallocate(a + 5 * 4096, layout(64, 64)), Ok(()));
    assert!(!page.bitfield().is_allocated(0));
}

#[test]
fn free_obj_count_counts_the_clear_bits() {
    let mut page = ObjectPage::new(0x40000).unwrap();
    assert_eq!(page.free_obj_count(), 512);
    page.bitfield_mut().initialize(64, 4016);
    assert_eq!(page.free_obj_count(), 62);
    page.bitfield_mut().set_bit(10);
    page.bitfield_mut().set_bit(11);
    assert_eq!(page.free_obj_count(), 60);
    page.bitfield_mut().initialize(64, 0);
    assert_eq!(page.free_obj_count(), 0);
}

#[test]
fn links_of_a_page_can_be_written() {
    let mut page = ObjectPage::new(0x40000).unwrap();
    *page.next() = Rawlink::some(4);
    *page.prev() = Rawlink::some(9);
    assert_eq!(page.next_link().resolve(), Some(4));
    assert_eq!(page.prev_link().resolve(), Some(9));
    let held = page.next().take();
    assert_eq!(held.resolve(), Some(4));
    assert_eq!(page.next_link().resolve(), None);
    assert_eq!(page.prev_link().resolve(), Some(9));
    assert_eq!(Rawlink::none().resolve(), None);
    assert_eq!(Rawlink::default().resolve(), None);
}
