use kernel_core::slab::bitfield::Bitfield;
use kernel_core::slab::list::PageList;
use kernel_core::slab::pages::AllocablePage;
use kernel_core::slab::pages::ObjectPage;

fn arena(n: usize) -> Vec<ObjectPage> {
    (0..n).map(|i| ObjectPage::new((i + 1) * 4096).unwrap()).collect()
}

fn chain(list: &PageList, pages: &[ObjectPage]) -> Vec<usize> {
    let mut it = list.iter_mut();
    let mut out = Vec::new();
    while let Some(h) = it.next(pages) {
        out.push(h);
    }
    out
}

fn links(pages: &[ObjectPage], h: usize) -> (Option<usize>, Option<usize>) {
    (pages[h].prev_link().resolve(), pages[h].next_link().resolve())
}

#[test]
fn a_new_list_is_empty() {
    let pages = arena(2);
    let list = PageList::new();
    assert_eq!(list.head(), None);
    assert_eq!(list.elements(), 0);
    assert_eq!(chain(&list, &pages), Vec::<usize>::new());
    assert!(!list.contains(&pages, 0));
}

#[test]
fn insert_pop_and_remove() {
    // Pages A, B and C have the handles 0, 1 and 2.
    let mut pages = arena(3);
    let mut list = PageList::new();
    list.insert_front(&mut pages, 0);
    list.insert_front(&mut pages, 1);
    list.insert_front(&mut pages, 2);
    assert_eq!(list.head(), Some(2));
    assert_eq!(list.elements(), 3);
    assert_eq!(chain(&list, &pages), vec![2, 1, 0]);
    assert_eq!(links(&pages, 2), (None, Some(1)));
    assert_eq!(links(&pages, 1), (Some(2), Some(0)));
    assert_eq!(links(&pages, 0), (Some(1), None));

    assert_eq!(list.pop(&mut pages), Some(2));
    assert_eq!(list.head(), Some(1));
    assert_eq!(list.elements(), 2);
    assert_eq!(links(&pages, 2), (None, None));
    assert_eq!(links(&pages, 1), (None, Some(0)));

    list.remove_from_list(&mut pages, 0);
    assert_eq!(list.head(), Some(1));
    assert_eq!(list.elements(), 1);
    assert_eq!(chain(&list, &pages), vec![1]);
    assert_eq!(links(&pages, 0), (None, None));
    assert_eq!(links(&pages, 1), (None, None));
}

#[test]
fn pop_of_an_empty_list_returns_nothing() {
    let mut pages = arena(1);
    let mut list = PageList::new();
    assert_eq!(list.pop(&mut pages), None);
    assert_eq!(list.elements(), 0);
    list.insert_front(&mut pages, 0);
    assert_eq!(list.pop(&mut pages), Some(0));
    assert_eq!(list.pop(&mut pages), None);
    assert_eq!(list.head(), None);
}

#[test]
fn remove_from_the_middle_the_head_and_the_tail() {
    let mut pages = arena(5);
    let mut list = PageList::new();
    for h in 0..5 {
        list.insert_front(&mut pages, h);
    }
    assert_eq!(chain(&list, &pages), vec![4, 3, 2, 1, 0]);
    list.remove_from_list(&mut pages, 2);
    assert_eq!(chain(&list, &pages), vec![4, 3, 1, 0]);
    assert_eq!(links(&pages, 3), (Some(4), Some(1)));
    assert_eq!(links(&pages, 1), (Some(3), Some(0)));
    assert_eq!(links(&pages, 2), (None, None));
    list.remove_from_list(&mut pages, 4);
    assert_eq!(list.head(), Some(3));
    assert_eq!(chain(&list, &pages), vec![3, 1, 0]);
    assert_eq!(links(&pages, 3), (None, Some(1)));
    list.remove_from_list(&mut pages, 0);
    assert_eq!(chain(&list, &pages), vec![3, 1]);
    assert_eq!(links(&pages, 1), (Some(3), None));
    assert_eq!(list.elements(), 2);
}

#[test]
fn contains_follows_the_chain() {
    let mut pages = arena(4);
    let mut list = PageList::new();
    list.insert_front(&mut pages, 3);
    list.insert_front(&mut pages, 1);
    assert!(list.contains(&pages, 3));
    assert!(list.contains(&pages, 1));
    assert!(!list.contains(&pages, 0));
    assert!(!list.contains(&pages, 2));
    assert!(!list.contains(&pages, 17));
    list.remove_from_list(&mut pages, 3);
    assert!(!list.contains(&pages, 3));
}

#[test]
fn an_iterator_makes_one_pass() {
    let mut pages = arena(3);
    let mut list = PageList::new();
    list.insert_front(&mut pages, 0);
    list.insert_front(&mut pages, 2);
    let mut it = list.iter_mut();
    assert_eq!(it.next(&pages), Some(2));
    assert_eq!(it.next(&pages), Some(0));
    assert_eq!(it.next(&pages), None);
    assert_eq!(it.next(&pages), None);
    // A new iterator starts from the head again.
    assert_eq!(list.iter_mut().next(&pages), Some(2));
}

#[test]
fn two_lists_of_one_arena_do_not_disturb_each_other() {
    let mut pages = arena(4);
    let mut free = PageList::new();
    let mut full = PageList::new();
    free.insert_front(&mut pages, 0);
    free.insert_front(&mut pages, 1);
    full.insert_front(&mut pages, 2);
    full.insert_front(&mut pages, 3);
    let moved = free.pop(&mut pages).unwrap();
    full.insert_front(&mut pages, moved);
    assert_eq!(chain(&free, &pages), vec![0]);
    assert_eq!(chain(&full, &pages), vec![1, 3, 2]);
    assert_eq!(free.elements(), 1);
    assert_eq!(full.elements(), 3);
}

#[test]
fn list_operations_leave_the_pages_alone() {
    let mut pages = arena(2);
    pages[0].bitfield_mut().initialize(64, 512);
    pages[0].bitfield_mut().set_bit(3);
    let bits = *pages[0].bitfield();
    let mut list = PageList::new();
    list.insert_front(&mut pages, 0);
    list.insert_front(&mut pages, 1);
    list.remove_from_list(&mut pages, 0);
    assert_eq!(*pages[0].bitfield(), bits);
    assert_eq!(pages[0].base_addr(), 4096);
}
