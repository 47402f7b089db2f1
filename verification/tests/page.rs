use bustubx::buffer::Page;
use bustubx::buffer::BUSTUBX_PAGE_SIZE;
use bustubx::buffer::INVALID_PAGE_ID;

#[test]
fn page_size_and_invalid_id() {
    assert_eq!(BUSTUBX_PAGE_SIZE, 4096);
    assert_eq!(INVALID_PAGE_ID, 0);
}

#[test]
fn new_page_is_zeroed_and_unpinned() {
    let page = Page::new(7);
    assert_eq!(page.page_id, 7);
    assert_eq!(page.data.len(), 4096);
    assert!(page.data.iter().all(|b| *b == 0));
    assert_eq!(page.pin_count, 0);
    assert!(!page.is_dirty);
}

#[test]
fn empty_page_has_invalid_id() {
    let page = Page::empty();
    assert_eq!(page.page_id, INVALID_PAGE_ID);
    assert!(page.data.iter().all(|b| *b == 0));
    assert_eq!(page.pin_count, 0);
    assert!(!page.is_dirty);
}

#[test]
fn destroy_clears_everything() {
    let mut page = Page::new(3);
    page.data[0] = 9;
    page.data[4095] = 1;
    page.pin_count = 2;
    page.is_dirty = true;
    page.destroy();
    assert_eq!(page.page_id, 0);
    assert!(page.data.iter().all(|b| *b == 0));
    assert_eq!(page.pin_count, 0);
    assert!(!page.is_dirty);
}

#[test]
fn reset_takes_new_identity() {
    let mut page = Page::new(3);
    page.data[17] = 5;
    page.pin_count = 1;
    page.is_dirty = true;
    page.reset(11);
    assert_eq!(page.page_id, 11);
    assert!(page.data.iter().all(|b| *b == 0));
    assert_eq!(page.pin_count, 0);
    assert!(!page.is_dirty);
}

#[test]
fn replace_takes_over_other_page() {
    let mut page = Page::new(1);
    let mut other = Page::new(2);
    other.data[5] = 42;
    other.pin_count = 3;
    other.is_dirty = true;
    page.replace(other);
    assert_eq!(page.page_id, 2);
    assert_eq!(page.data[5], 42);
    assert_eq!(page.data[6], 0);
    assert_eq!(page.pin_count, 3);
    assert!(page.is_dirty);
}
