use track_queue::handlers::TrackErrorHandler;

#[test]
fn error_handler_records_identities_in_order() {
    let mut h = TrackErrorHandler::new();
    assert!(h.observed_list().is_empty());
    h.observe(42);
    h.observe(7);
    h.observe(42);
    assert_eq!(h.observed_list(), vec![42, 7, 42]);
}
