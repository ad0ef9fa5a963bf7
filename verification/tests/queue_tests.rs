use track_queue::history::TrackUserData;
use track_queue::queue::{
    preload_offset_ms, youtube_data, CompletionOutcome, TrackQueue, TrackQueueCore,
};

fn stream(i: u64) -> TrackUserData {
    TrackUserData::HttpStream { url: format!("http://example.test/{i}") }
}

fn core_with(n: u64) -> TrackQueueCore {
    let mut core = TrackQueueCore::new(50);
    for i in 0..n {
        core.add_track(i, stream(i));
    }
    core
}

#[test]
fn first_enqueued_entry_plays_later_entries_stay_paused() {
    let mut core = TrackQueueCore::new(50);
    assert!(core.add_track(0, stream(0)));
    assert!(!core.add_track(1, stream(1)));
    assert!(!core.add_track(2, stream(2)));
    let entries = core.current_queue();
    assert_eq!(entries.len(), 3);
    assert!(entries[0].playing);
    assert!(!entries[1].playing);
    assert!(!entries[2].playing);
    assert_eq!(entries[0].uuid, 0);
    assert_eq!(entries[2].uuid, 2);
}

#[test]
fn completion_scenario_with_duplicate_event() {
    let mut core = core_with(3);
    let entries = core.current_queue();
    assert!(entries[0].playing && !entries[1].playing && !entries[2].playing);

    let outcome = core.on_track_end(0);
    assert_eq!(outcome, CompletionOutcome::Activated(1));
    assert_eq!(core.history_list(), vec![stream(0)]);
    let entries = core.current_queue();
    assert_eq!(entries[0].uuid, 1);
    assert!(entries[0].playing);

    let stale = core.on_track_end(0);
    assert_eq!(stale, CompletionOutcome::Stale);
    assert_eq!(core.history_list(), vec![stream(0)]);
    let entries = core.current_queue();
    assert_eq!(entries.len(), 2);
    assert_eq!(entries[0].uuid, 1);
    assert!(entries[0].playing);
}

#[test]
fn completion_on_last_entry_finishes() {
    let mut core = core_with(1);
    assert_eq!(core.on_track_end(0), CompletionOutcome::Finished);
    assert!(core.is_empty());
    assert_eq!(core.history_list(), vec![stream(0)]);
}

#[test]
fn skip_retires_min_n_len_entries() {
    let mut core = core_with(10);
    let removed = core.skip(4);
    assert_eq!(removed.len(), 4);
    assert_eq!(core.len(), 6);
    assert_eq!(core.history_list().len(), 4);
    let entries = core.current_queue();
    assert_eq!(entries[0].uuid, 4);
    assert!(entries[0].playing);

    let removed = core.skip(100);
    assert_eq!(removed.len(), 6);
    assert_eq!(core.len(), 0);
    assert_eq!(core.history_list().len(), 10);
}

#[test]
fn skip_on_empty_queue_does_nothing() {
    let mut core = TrackQueueCore::new(50);
    let removed = core.skip(3);
    assert!(removed.is_empty());
    assert!(core.history_list().is_empty());
}

#[test]
fn shuffle() {
    let mut core = core_with(10);
    let before: Vec<u64> = core.current_queue().iter().map(|e| e.uuid).collect();
    core.shuffle();
    let after: Vec<u64> = core.current_queue().iter().map(|e| e.uuid).collect();
    assert_ne!(after, before);
}

#[test]
fn shuffle_keeps_front_and_the_set_of_entries() {
    let mut core = core_with(10);
    let before: Vec<u64> = core.current_queue().iter().map(|e| e.uuid).collect();
    core.shuffle();
    let after: Vec<u64> = core.current_queue().iter().map(|e| e.uuid).collect();
    assert_eq!(after[0], before[0]);
    let mut tail_before: Vec<u64> = before[1..].to_vec();
    let mut tail_after: Vec<u64> = after[1..].to_vec();
    tail_before.sort_unstable();
    tail_after.sort_unstable();
    assert_eq!(tail_after, tail_before);
    assert!(core.current_queue()[0].playing);
}

#[test]
fn shuffle_reaches_every_tail_permutation() {
    // A queue of four entries has a shuffled tail of three: six possible
    // orders, each of which must appear with positive probability.
    let mut seen = std::collections::HashSet::new();
    for _ in 0..2000 {
        let mut core = core_with(4);
        core.shuffle();
        let order: Vec<u64> = core.current_queue().iter().map(|e| e.uuid).collect();
        assert_eq!(order[0], 0);
        seen.insert((order[1], order[2], order[3]));
        if seen.len() == 6 {
            break;
        }
    }
    assert_eq!(seen.len(), 6);
}

#[test]
fn pause_and_resume_toggle_only_the_front() {
    let mut core = core_with(3);
    core.pause();
    let entries = core.current_queue();
    assert!(!entries[0].playing && !entries[1].playing && !entries[2].playing);
    core.resume();
    let entries = core.current_queue();
    assert!(entries[0].playing && !entries[1].playing && !entries[2].playing);
}

#[test]
fn pause_and_resume_on_empty_queue_are_noops() {
    let mut core = TrackQueueCore::new(50);
    core.pause();
    core.resume();
    assert!(core.is_empty());
}

#[test]
fn drain_aborts_without_touching_history() {
    let mut core = core_with(5);
    core.on_track_end(0);
    let removed = core.drain();
    assert_eq!(removed.len(), 4);
    assert!(core.is_empty());
    assert_eq!(core.history_list(), vec![stream(0)]);
}

#[test]
fn dequeue_removes_by_index_without_history() {
    let mut core = core_with(3);
    let removed = core.dequeue(1);
    assert_eq!(removed.map(|e| e.uuid), Some(1));
    assert_eq!(core.len(), 2);
    assert!(core.history_list().is_empty());
    assert!(core.dequeue(7).is_none());
}

#[test]
fn discard_front_skips_unusable_entries() {
    let mut core = core_with(3);
    // The front could not be activated: it is dropped without history and
    // the next entry is promoted.
    assert_eq!(core.discard_front(), Some(1));
    let entries = core.current_queue();
    assert_eq!(entries[0].uuid, 1);
    assert!(entries[0].playing);
    assert!(core.history_list().is_empty());
    assert_eq!(core.discard_front(), Some(2));
    assert_eq!(core.discard_front(), None);
    assert!(core.is_empty());
    assert_eq!(core.discard_front(), None);
}

#[test]
fn preload_candidate_is_the_second_entry() {
    let mut core = core_with(1);
    assert_eq!(core.preload_candidate(), None);
    core.add_track(1, stream(1));
    assert_eq!(core.preload_candidate(), Some(1));
    assert_eq!(core.len(), 2);
}

#[test]
fn preload_offset_is_duration_less_margin_clamped() {
    assert_eq!(preload_offset_ms(Some(12345)), Some(7345));
    assert_eq!(preload_offset_ms(Some(5000)), Some(0));
    assert_eq!(preload_offset_ms(Some(1200)), Some(0));
    assert_eq!(preload_offset_ms(None), None);
}

#[test]
fn youtube_data_fills_missing_fields() {
    let d = youtube_data(Some("A song".to_owned()), Some("http://yt.test/1".to_owned()));
    assert_eq!(
        d,
        TrackUserData::Youtube { title: "A song".to_owned(), url: "http://yt.test/1".to_owned() }
    );
    let d = youtube_data(None, None);
    assert_eq!(d, TrackUserData::Youtube { title: "Unknown track".to_owned(), url: String::new() });
}

#[test]
fn facade_runs_the_whole_lifecycle_under_its_lock() {
    let q = TrackQueue::new(50);
    assert!(q.add_track(0, stream(0)));
    assert!(!q.add_track(1, stream(1)));
    assert!(!q.add_track(2, stream(2)));
    assert_eq!(q.len(), 3);
    assert!(!q.is_empty());
    assert_eq!(q.current().map(|e| e.uuid), Some(0));
    assert_eq!(q.on_lookahead(), Some(1));

    assert_eq!(q.on_track_end(0), CompletionOutcome::Activated(1));
    assert_eq!(q.history(), vec![stream(0)]);
    assert_eq!(q.previous(0), Some(stream(0)));
    assert_eq!(q.previous(1), None);
    assert_eq!(q.on_track_end(0), CompletionOutcome::Stale);

    q.pause();
    assert!(!q.current().unwrap().playing);
    q.resume();
    assert!(q.current().unwrap().playing);

    let skipped = q.skip(1);
    assert_eq!(skipped.len(), 1);
    assert_eq!(q.current().map(|e| e.uuid), Some(2));

    q.shuffle();
    let stopped = q.stop();
    assert_eq!(stopped.len(), 1);
    assert!(q.is_empty());
    assert_eq!(q.history().len(), 2);
    assert!(q.clear().is_empty());
    assert!(q.dequeue(0).is_none());
    assert_eq!(q.discard_front(), None);
}
