use bustubx::buffer::LruKReplacer;

#[test]
fn fresh_replacer_has_nothing_to_evict() {
    let mut replacer = LruKReplacer::new(4, 2);
    assert_eq!(replacer.num_frames(), 4);
    assert_eq!(replacer.size(), 0);
    assert_eq!(replacer.peek_victim(), None);
    assert_eq!(replacer.evict(), None);
}

#[test]
fn untracked_frame_cannot_be_marked() {
    let mut replacer = LruKReplacer::new(2, 2);
    replacer.set_evictable(0, true);
    assert_eq!(replacer.size(), 0);
    assert_eq!(replacer.evict(), None);
}

#[test]
fn frame_out_of_range_is_ignored() {
    let mut replacer = LruKReplacer::new(2, 2);
    replacer.record_access(5);
    replacer.set_evictable(5, true);
    replacer.remove(5);
    assert_eq!(replacer.size(), 0);
    assert_eq!(replacer.evict(), None);
}

#[test]
fn size_counts_evictable_frames() {
    let mut replacer = LruKReplacer::new(3, 2);
    replacer.record_access(0);
    replacer.record_access(1);
    replacer.record_access(2);
    assert_eq!(replacer.size(), 0);
    replacer.set_evictable(0, true);
    replacer.set_evictable(2, true);
    assert_eq!(replacer.size(), 2);
    replacer.set_evictable(2, true);
    assert_eq!(replacer.size(), 2);
    replacer.set_evictable(0, false);
    assert_eq!(replacer.size(), 1);
    replacer.remove(2);
    assert_eq!(replacer.size(), 0);
}

#[test]
fn infinite_distance_goes_before_finite() {
    let mut replacer = LruKReplacer::new(2, 2);
    replacer.record_access(0);
    replacer.record_access(1);
    replacer.record_access(0);
    replacer.set_evictable(0, true);
    replacer.set_evictable(1, true);
    assert_eq!(replacer.peek_victim(), Some(1));
    assert_eq!(replacer.evict(), Some(1));
    assert_eq!(replacer.size(), 1);
    assert_eq!(replacer.evict(), Some(0));
    assert_eq!(replacer.evict(), None);
}

#[test]
fn among_infinite_the_earliest_access_goes_first() {
    let mut replacer = LruKReplacer::new(3, 3);
    replacer.record_access(2);
    replacer.record_access(0);
    replacer.record_access(1);
    replacer.record_access(2);
    replacer.set_evictable(0, true);
    replacer.set_evictable(1, true);
    replacer.set_evictable(2, true);
    assert_eq!(replacer.evict(), Some(2));
    assert_eq!(replacer.evict(), Some(0));
    assert_eq!(replacer.evict(), Some(1));
}

#[test]
fn among_finite_the_largest_backward_distance_goes_first() {
    let mut replacer = LruKReplacer::new(3, 2);
    // Times: frame 0 at 0 and 5, frame 1 at 1 and 3, frame 2 at 2 and 4.
    replacer.record_access(0);
    replacer.record_access(1);
    replacer.record_access(2);
    replacer.record_access(1);
    replacer.record_access(2);
    replacer.record_access(0);
    replacer.set_evictable(0, true);
    replacer.set_evictable(1, true);
    replacer.set_evictable(2, true);
    assert_eq!(replacer.evict(), Some(0));
    assert_eq!(replacer.evict(), Some(1));
    assert_eq!(replacer.evict(), Some(2));
}

#[test]
fn history_keeps_the_last_k_accesses() {
    let mut replacer = LruKReplacer::new(2, 2);
    // Frame 0 at 0, 1, 4; frame 1 at 2, 3. The last two of frame 0 are 1 and 4.
    replacer.record_access(0);
    replacer.record_access(0);
    replacer.record_access(1);
    replacer.record_access(1);
    replacer.record_access(0);
    replacer.set_evictable(0, true);
    replacer.set_evictable(1, true);
    assert_eq!(replacer.evict(), Some(0));
    assert_eq!(replacer.evict(), Some(1));
}

#[test]
fn only_evictable_frames_are_evicted() {
    let mut replacer = LruKReplacer::new(3, 2);
    replacer.record_access(0);
    replacer.record_access(1);
    replacer.record_access(2);
    replacer.set_evictable(1, true);
    assert_eq!(replacer.evict(), Some(1));
    assert_eq!(replacer.evict(), None);
}

#[test]
fn evicted_frame_starts_anew() {
    let mut replacer = LruKReplacer::new(2, 2);
    replacer.record_access(0);
    replacer.record_access(0);
    replacer.record_access(1);
    replacer.set_evictable(0, true);
    replacer.set_evictable(1, true);
    assert_eq!(replacer.evict(), Some(1));
    // Frame 1 has no history left: it cannot be marked before an access.
    replacer.set_evictable(1, true);
    assert_eq!(replacer.size(), 1);
    replacer.record_access(1);
    replacer.set_evictable(1, true);
    assert_eq!(replacer.size(), 2);
    assert_eq!(replacer.evict(), Some(1));
}

#[test]
fn remove_drops_history_and_mark() {
    let mut replacer = LruKReplacer::new(2, 2);
    replacer.record_access(0);
    replacer.record_access(1);
    replacer.set_evictable(0, true);
    replacer.set_evictable(1, true);
    replacer.remove(0);
    assert_eq!(replacer.size(), 1);
    assert_eq!(replacer.evict(), Some(1));
    assert_eq!(replacer.evict(), None);
}
