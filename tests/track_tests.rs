use chrome_trace::track::{Category, SpanTrackAssignment, TrackId, TrackIdAllocator};

#[test]
fn allocator_hands_out_smallest_first() {
    let mut a = TrackIdAllocator::new();
    assert_eq!(a.get_smallest(), Some(0));
    assert_eq!(a.get_smallest(), Some(1));
    assert_eq!(a.get_smallest(), Some(2));
}

#[test]
fn released_ordinal_is_reused_before_new_ones() {
    let mut a = TrackIdAllocator::new();
    let first = a.get_smallest().unwrap();
    let second = a.get_smallest().unwrap();
    a.mark_unused(first);
    let third = a.get_smallest().unwrap();
    assert_eq!(third, first);
    assert_ne!(third, second);
    assert_eq!(a.get_smallest(), Some(2));
}

#[test]
fn smallest_of_several_released_ordinals_comes_first() {
    let mut a = TrackIdAllocator::new();
    for _ in 0..5 {
        a.get_smallest();
    }
    a.mark_unused(3);
    a.mark_unused(1);
    a.mark_unused(4);
    assert_eq!(a.get_smallest(), Some(1));
    assert_eq!(a.get_smallest(), Some(3));
    assert_eq!(a.get_smallest(), Some(4));
    assert_eq!(a.get_smallest(), Some(5));
}

#[test]
fn releasing_an_unused_ordinal_changes_nothing() {
    let mut a = TrackIdAllocator::new();
    a.get_smallest();
    a.mark_unused(7);
    a.mark_unused(0);
    a.mark_unused(0);
    assert_eq!(a.get_smallest(), Some(0));
    assert_eq!(a.get_smallest(), Some(1));
}

#[test]
fn track_ids_render_zero_padded() {
    let t = TrackId { category: Category::CriticalPath, ordinal: 3 };
    assert_eq!(t.render(), "critical-path-03");
    let t = TrackId { category: Category::Uncategorized, ordinal: 0 };
    assert_eq!(t.render(), "uncategorized-00");
    let t = TrackId { category: Category::Uncategorized, ordinal: 42 };
    assert_eq!(t.render(), "uncategorized-42");
    let t = TrackId { category: Category::Uncategorized, ordinal: 105 };
    assert_eq!(t.render(), "uncategorized-105");
}

#[test]
fn assignment_gives_its_track() {
    let t = TrackId { category: Category::CriticalPath, ordinal: 9 };
    assert_eq!(SpanTrackAssignment::Owned(t).get_track_id(), t);
    assert_eq!(SpanTrackAssignment::Inherited(t).get_track_id(), t);
}
