use track_queue::smq::{QItem, SharedMultiQueue};

#[derive(Clone, Debug, PartialEq, Eq)]
struct Song {
    title: String,
}

impl QItem<u64> for Song {}

fn song(name: &str) -> Song {
    Song { title: name.to_owned() }
}

#[test]
fn smq_reference_counts_are_independent_across_owners() {
    let mut smq: SharedMultiQueue<u64, Song, u64> = SharedMultiQueue::new();
    smq.enq(1, song("shared"), 7);
    smq.enq(2, song("shared"), 7);

    // Dequeueing from owner 1 must leave the item retrievable by owner 2.
    assert_eq!(smq.deq(1), Some(song("shared")));
    assert_eq!(smq.deq(2), Some(song("shared")));

    // Both handles gone: the item is purged from shared storage.
    assert_eq!(smq.deq(1), None);
    assert_eq!(smq.deq(2), None);
}

#[test]
fn smq_purges_and_accepts_the_identity_again() {
    let mut smq: SharedMultiQueue<u64, Song, u64> = SharedMultiQueue::new();
    smq.enq(1, song("first"), 7);
    assert_eq!(smq.deq(1), Some(song("first")));
    // The identity was purged with its last handle, so a new item may be
    // stored under it.
    smq.enq(1, song("second"), 7);
    assert_eq!(smq.deq(1), Some(song("second")));
}

#[test]
fn smq_keeps_the_first_item_for_a_reused_identity() {
    let mut smq: SharedMultiQueue<u64, Song, u64> = SharedMultiQueue::new();
    smq.enq(1, song("stored"), 7);
    // A second enqueue under the same identity only adds a handle; the item
    // handed in alongside it is not stored.
    smq.enq(2, song("ignored"), 7);
    assert_eq!(smq.deq(2), Some(song("stored")));
    assert_eq!(smq.deq(1), Some(song("stored")));
}

#[test]
fn smq_queues_are_fifo_per_owner() {
    let mut smq: SharedMultiQueue<u64, Song, u64> = SharedMultiQueue::new();
    smq.enq(1, song("a"), 10);
    smq.enq(1, song("b"), 11);
    smq.enq(1, song("c"), 12);
    smq.enq(2, song("z"), 20);
    assert_eq!(smq.deq(1), Some(song("a")));
    assert_eq!(smq.deq(1), Some(song("b")));
    assert_eq!(smq.deq(2), Some(song("z")));
    assert_eq!(smq.deq(1), Some(song("c")));
    assert_eq!(smq.deq(1), None);
}

#[test]
fn smq_unknown_owner_yields_nothing() {
    let mut smq: SharedMultiQueue<u64, Song, u64> = SharedMultiQueue::new();
    smq.enq(1, song("a"), 10);
    assert_eq!(smq.deq(99), None);
    assert_eq!(smq.deq(1), Some(song("a")));
}
