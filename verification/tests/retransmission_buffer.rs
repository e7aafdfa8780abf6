//! The retransmission buffer from outside.

use iroh_moq::proto::{MoqObject, MEDIA_TYPE_INIT, MEDIA_TYPE_VIDEO};
use iroh_moq::retransmission_buffer::{
    BufferStats, RetransmissionBuffer, RetransmissionBufferConfig,
};

#[test]
fn test_basic_operations() {
    let config = RetransmissionBufferConfig {
        max_objects: 5,
        max_bytes: 1000,
        priority_eviction: false,
    };

    let mut buffer = RetransmissionBuffer::new(config);

    // Add some objects
    for i in 0..5 {
        let obj = MoqObject {
            name: format!("/test/{}", i),
            sequence: i,
            timestamp: 1000 + i,
            group_id: MEDIA_TYPE_VIDEO as u32,
            priority: 128,
            data: vec![0xFF; 100],
        };
        buffer.add(obj);
    }

    assert_eq!(buffer.stats().total_objects, 5);

    // Test retrieval
    let obj = buffer.get(2).unwrap();
    assert_eq!(obj.sequence, 2);
    assert_eq!(buffer.stats().hits, 1);

    // Test miss
    assert!(buffer.get(10).is_none());
    assert_eq!(buffer.stats().misses, 1);

    // Add another object, should evict the oldest
    let obj = MoqObject {
        name: "/test/6".to_string(),
        sequence: 6,
        timestamp: 1006,
        group_id: MEDIA_TYPE_VIDEO as u32,
        priority: 128,
        data: vec![0xFF; 100],
    };
    buffer.add(obj);

    assert_eq!(buffer.stats().total_objects, 5);
    assert_eq!(buffer.stats().evictions, 1);
    assert!(buffer.get(0).is_none()); // First object should be evicted
}

#[test]
fn test_priority_eviction() {
    let config = RetransmissionBufferConfig {
        max_objects: 3,
        max_bytes: 1000,
        priority_eviction: true,
    };

    let mut buffer = RetransmissionBuffer::new(config);

    // Add objects with different priorities
    let priorities = [100, 255, 150];
    for (i, &priority) in priorities.iter().enumerate() {
        let obj = MoqObject {
            name: format!("/test/{}", i),
            sequence: i as u64,
            timestamp: 1000 + i as u64,
            group_id: MEDIA_TYPE_VIDEO as u32,
            priority,
            data: vec![0xFF; 100],
        };
        buffer.add(obj);
    }

    // Add another object, should evict lowest priority (100)
    let obj = MoqObject {
        name: "/test/3".to_string(),
        sequence: 3,
        timestamp: 1003,
        group_id: MEDIA_TYPE_VIDEO as u32,
        priority: 200,
        data: vec![0xFF; 100],
    };
    buffer.add(obj);

    assert!(buffer.get(0).is_none()); // Lowest priority object should be evicted
    assert!(buffer.get(1).is_some()); // High priority kept
    assert!(buffer.get(2).is_some()); // Medium priority kept
}

#[test]
fn test_range_query() {
    let mut buffer = RetransmissionBuffer::new(Default::default());

    // Add objects
    for i in 0..10 {
        let obj = MoqObject {
            name: format!("/test/{}", i),
            sequence: i,
            timestamp: 1000 + i,
            group_id: MEDIA_TYPE_VIDEO as u32,
            priority: 128,
            data: vec![0xFF; 50],
        };
        buffer.add(obj);
    }

    // Get range
    let range = buffer.get_range(3, 7);
    assert_eq!(range.len(), 5);
    assert_eq!(range[0].sequence, 3);
    assert_eq!(range[4].sequence, 7);
}

#[test]
fn test_init_segment_handling() {
    let mut buffer = RetransmissionBuffer::new(Default::default());

    // Add init segment
    let init = MoqObject {
        name: "/init".to_string(),
        sequence: 0,
        timestamp: 0,
        group_id: MEDIA_TYPE_INIT as u32,
        priority: 255,
        data: vec![0xFF; 100],
    };
    buffer.add(init);

    // Init segment should always be retrievable
    assert!(buffer.get(0).is_some());

    // Clear buffer
    buffer.clear();

    // Init segment should still be there
    assert!(buffer.get(0).is_some());
}

fn object(sequence: u64, priority: u8, size: usize) -> MoqObject {
    MoqObject {
        name: "n".to_string(),
        sequence,
        timestamp: sequence,
        group_id: MEDIA_TYPE_VIDEO as u32,
        priority,
        data: vec![0xFF; size],
    }
}

fn with_limits(max_objects: usize, max_bytes: usize, priority_eviction: bool) -> RetransmissionBuffer {
    RetransmissionBuffer::new(RetransmissionBufferConfig {
        max_objects,
        max_bytes,
        priority_eviction,
    })
}

fn fixed() -> usize {
    std::mem::size_of::<MoqObject>() + 1
}

#[test]
fn default_limits() {
    let c = RetransmissionBufferConfig::default();
    assert_eq!((c.max_objects, c.max_bytes, c.priority_eviction), (100, 50 * 1024 * 1024, true));
    let s = BufferStats::default();
    assert_eq!((s.total_objects, s.total_bytes, s.evictions, s.hits, s.misses), (0, 0, 0, 0, 0));
}

#[test]
fn a_sequence_number_is_taken_once() {
    let mut b = with_limits(5, 100_000, true);
    b.add(object(1, 10, 3));
    b.add(object(1, 20, 30));
    assert_eq!(b.stats().total_objects, 1);
    assert_eq!(b.stats().total_bytes, fixed() + 3);
    assert_eq!(b.get(1).unwrap().data.len(), 3);
}

#[test]
fn the_limit_on_bytes_gives_up_the_oldest() {
    let mut b = with_limits(100, 3 * (fixed() + 10), false);
    for i in 0..5 {
        b.add(object(i, 100 + i as u8, 10));
    }
    assert_eq!(b.stats().total_objects, 3);
    assert_eq!(b.stats().total_bytes, 3 * (fixed() + 10));
    assert_eq!(b.stats().evictions, 2);
    assert_eq!(b.get_range(0, 10).iter().map(|o| o.sequence).collect::<Vec<_>>(), vec![2, 3, 4]);
}

#[test]
fn an_object_above_the_limit_is_not_kept() {
    for priority_eviction in [true, false] {
        let mut b = with_limits(100, fixed() + 10, priority_eviction);
        b.add(object(1, 1, 10));
        b.add(object(2, 2, 11));
        let s = *b.stats();
        assert_eq!((s.total_objects, s.total_bytes, s.evictions), (1, fixed() + 10, 0));
        assert!(b.get(1).is_some());
        assert!(b.get(2).is_none());
        b.add(object(3, 3, 10));
        let s = *b.stats();
        assert_eq!((s.total_objects, s.total_bytes, s.evictions), (1, fixed() + 10, 1));
        assert!(b.get(3).is_some());
    }
}

#[test]
fn the_limits_hold_after_every_addition() {
    for priority_eviction in [true, false] {
        let mut b = with_limits(4, 5_000, priority_eviction);
        for i in 0..40u64 {
            b.add(object(i, (i % 7) as u8, (i as usize * 733) % 6_000));
            assert!(b.stats().total_objects <= 4);
            assert!(b.stats().total_bytes <= 5_000);
            assert_eq!(b.get_range(0, 100).len(), b.stats().total_objects);
        }
    }
}

#[test]
fn an_initialization_segment_has_no_limit() {
    let mut b = with_limits(1, 0, true);
    let mut init = object(1, 1, 100);
    init.group_id = MEDIA_TYPE_INIT as u32;
    b.add(init);
    assert_eq!(b.get(1).unwrap().data.len(), 100);
    assert_eq!(b.stats().total_objects, 0);
}

#[test]
fn an_initialization_segment_outlives_every_other_call() {
    for priority_eviction in [true, false] {
        let mut b = with_limits(3, 100_000, priority_eviction);
        let mut init = object(7, 1, 42);
        init.group_id = MEDIA_TYPE_INIT as u32;
        b.add(init);
        for i in 0..30 {
            b.add(object(i, 200, 1));
            b.get_range(0, 30);
            if i % 11 == 10 {
                b.clear();
            }
            assert_eq!(b.get(7).unwrap().data.len(), 42);
        }
        let mut other = object(8, 1, 43);
        other.group_id = MEDIA_TYPE_INIT as u32;
        b.add(other);
        assert_eq!(b.get(8).unwrap().data.len(), 43);
        assert!(b.get(7).is_none());
    }
}

#[test]
fn an_object_of_low_priority_is_found_once_added() {
    let mut b = with_limits(2, 100_000, true);
    b.add(object(1, 200, 0));
    b.add(object(2, 200, 0));
    b.add(object(3, 0, 5));
    assert_eq!(b.get(3).unwrap().data.len(), 5);
    assert!(b.get(2).is_none());
}

#[test]
fn every_look_up_is_counted() {
    let mut b = with_limits(3, 100_000, false);
    let s = *b.stats();
    assert_eq!((s.total_objects, s.total_bytes, s.evictions, s.hits, s.misses), (0, 0, 0, 0, 0));
    let mut evictions = 0;
    for i in 0..20u64 {
        b.add(object(i, 1, 0));
        b.get(i % 5);
        b.get_range(0, 20);
        if i == 9 {
            b.clear();
        }
        let s = *b.stats();
        assert_eq!(s.hits + s.misses, i + 1);
        assert!(s.evictions >= evictions);
        evictions = s.evictions;
    }
    assert_eq!(evictions, 14);
}

#[test]
fn an_empty_buffer_has_every_range() {
    let mut b = with_limits(1, 100_000, true);
    assert_eq!(b.get_range(9, 3).len(), 0);
}

#[test]
fn the_newest_of_the_lowest_priority_goes_first() {
    let mut b = with_limits(3, 100_000, true);
    b.add(object(1, 5, 0));
    b.add(object(2, 5, 0));
    b.add(object(3, 9, 0));
    b.add(object(4, 1, 0));
    assert_eq!(b.get_range(0, 9).iter().map(|o| o.sequence).collect::<Vec<_>>(), vec![1, 3, 4]);
    b.add(object(5, 200, 0));
    assert_eq!(b.get_range(0, 9).iter().map(|o| o.sequence).collect::<Vec<_>>(), vec![1, 3, 5]);
    assert_eq!(b.stats().evictions, 2);
}

#[test]
fn ranges_are_ordered_by_number_and_count_no_hits() {
    let mut b = with_limits(10, 100_000, true);
    for i in [7, 3, 5] {
        b.add(object(i, 1, 0));
    }
    assert_eq!(b.get_range(3, 7).iter().map(|o| o.sequence).collect::<Vec<_>>(), vec![3, 5, 7]);
    assert_eq!(b.get_range(4, 4).len(), 0);
    assert_eq!(b.get_range(5, 5).len(), 1);
    assert_eq!(b.stats().hits, 0);
    assert_eq!(b.stats().misses, 0);
}

#[test]
fn clearing_keeps_the_history() {
    let mut b = with_limits(1, 100_000, false);
    b.add(object(1, 1, 0));
    b.add(object(2, 1, 0));
    assert!(b.get(2).is_some());
    assert!(b.get(1).is_none());
    b.clear();
    let s = *b.stats();
    assert_eq!((s.total_objects, s.total_bytes, s.evictions, s.hits, s.misses), (0, 0, 1, 1, 1));
    assert!(b.get(2).is_none());
    b.add(object(2, 1, 4));
    assert_eq!(b.get(2).unwrap().data.len(), 4);
}

#[test]
fn an_initialization_segment_is_looked_up_first() {
    let mut b = with_limits(5, 100_000, true);
    b.add(object(0, 1, 3));
    let mut init = object(0, 255, 9);
    init.group_id = MEDIA_TYPE_INIT as u32;
    b.add(init);
    assert_eq!(b.stats().total_objects, 1);
    assert_eq!(b.get(0).unwrap().data.len(), 9);
}

#[test]
fn a_buffer_without_places_takes_only_what_needs_none() {
    let mut b = with_limits(0, 100_000, true);
    assert!(b.can_add(&object(1, 1, 0)));
    b.add(object(1, 1, 0));
    assert_eq!((b.stats().total_objects, b.stats().evictions), (0, 0));
    assert!(b.get(1).is_none());
    let mut init = object(1, 1, 0);
    init.group_id = MEDIA_TYPE_INIT as u32;
    assert!(b.can_add(&init));
    b.add(init);
    assert!(b.get(1).is_some());
}
