use bustubx::buffer::FrameTable;

#[test]
fn fresh_table_has_only_free_frames() {
    let table = FrameTable::new(3);
    assert_eq!(table.num_frames(), 3);
    assert_eq!(table.free_count(), 3);
    assert_eq!(table.lookup(1), None);
    assert_eq!(table.peek_free(), Some(0));
}

#[test]
fn free_frames_are_taken_in_ascending_order() {
    let mut table = FrameTable::new(3);
    assert_eq!(table.take_free(), Some(0));
    assert_eq!(table.take_free(), Some(1));
    assert_eq!(table.peek_free(), Some(2));
    assert_eq!(table.take_free(), Some(2));
    assert_eq!(table.take_free(), None);
    assert_eq!(table.peek_free(), None);
    assert_eq!(table.free_count(), 0);
}

#[test]
fn lookup_finds_what_was_inserted() {
    let mut table = FrameTable::new(2);
    let a = table.take_free().unwrap();
    table.insert(7, a);
    let b = table.take_free().unwrap();
    table.insert(9, b);
    assert_eq!(table.lookup(7), Some(0));
    assert_eq!(table.lookup(9), Some(1));
    assert_eq!(table.lookup(8), None);
    assert_eq!(table.free_count(), 0);
}

#[test]
fn removed_page_leaves_its_frame_to_the_next() {
    let mut table = FrameTable::new(2);
    let a = table.take_free().unwrap();
    table.insert(7, a);
    assert_eq!(table.remove(7), Some(a));
    assert_eq!(table.lookup(7), None);
    assert_eq!(table.remove(7), None);
    table.insert(8, a);
    assert_eq!(table.lookup(8), Some(a));
    assert_eq!(table.free_count(), 1);
}

#[test]
fn frame_given_back_is_taken_first() {
    let mut table = FrameTable::new(3);
    let a = table.take_free().unwrap();
    table.insert(5, a);
    assert_eq!(table.remove(5), Some(a));
    table.give_back(a);
    assert_eq!(table.free_count(), 3);
    assert_eq!(table.peek_free(), Some(a));
    assert_eq!(table.take_free(), Some(a));
    assert_eq!(table.take_free(), Some(1));
}

#[test]
fn table_without_frames() {
    let mut table = FrameTable::new(0);
    assert_eq!(table.free_count(), 0);
    assert_eq!(table.take_free(), None);
    assert_eq!(table.lookup(1), None);
}
