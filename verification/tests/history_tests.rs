use track_queue::history::{History, TrackUserData};

fn stream(i: usize) -> TrackUserData {
    TrackUserData::HttpStream { url: format!("http://example.test/{i}") }
}

#[test]
fn ring_keeps_only_the_last_capacity_entries() {
    let mut h = History::new(3);
    for i in 0..8 {
        h.add(stream(i));
    }
    assert_eq!(h.list(), vec![stream(5), stream(6), stream(7)]);
}

#[test]
fn ring_never_exceeds_default_capacity() {
    let mut h = History::default();
    for i in 0..57 {
        h.add(stream(i));
        assert!(h.list().len() <= 50);
    }
    let listed = h.list();
    assert_eq!(listed.len(), 50);
    let expected: Vec<TrackUserData> = (7..57).map(stream).collect();
    assert_eq!(listed, expected);
}

#[test]
fn ring_with_zero_capacity_stays_empty() {
    let mut h = History::new(0);
    h.add(stream(1));
    h.add(stream(2));
    assert_eq!(h.list(), vec![]);
}

#[test]
fn remove_returns_oldest_first() {
    let mut h = History::new(10);
    h.add(stream(1));
    h.add(stream(2));
    assert_eq!(h.remove(), Some(stream(1)));
    assert_eq!(h.remove(), Some(stream(2)));
    assert_eq!(h.remove(), None);
}

#[test]
fn nth_removes_at_position() {
    let mut h = History::new(10);
    h.add(stream(0));
    h.add(stream(1));
    h.add(stream(2));
    assert_eq!(h.nth(1), Some(stream(1)));
    assert_eq!(h.list(), vec![stream(0), stream(2)]);
    assert_eq!(h.nth(5), None);
}

#[test]
fn peek_does_not_remove() {
    let mut h = History::new(10);
    h.add(stream(0));
    h.add(stream(1));
    assert_eq!(h.peek(1), Some(&stream(1)));
    assert_eq!(h.peek(2), None);
    assert_eq!(h.list().len(), 2);
}
