use statussentinel::store::MonitorStore;
use statussentinel::model::MAX_HISTORY;

fn store_with(name: &str, url: &str) -> MonitorStore {
    let mut store = MonitorStore::new();
    store.add_service(name, url).unwrap();
    store
}

#[test]
fn add_service_normalizes_and_upserts() {
    let mut store = store_with("My Service!", "https://a.example");
    assert_eq!(store.services.len(), 1);
    assert_eq!(store.services[0].id, "my_service");
    assert_eq!(store.services[0].name, "My Service!");
    assert!(!store.services[0].is_online);
    assert!(store.services[0].response_times.is_empty());

    // Same normalized identifier: the entry is refreshed, never duplicated.
    store.add_response_time("my_service", 42);
    store.add_service("MY SERVICE", "https://b.example").unwrap();
    assert_eq!(store.services.len(), 1);
    assert_eq!(store.services[0].name, "MY SERVICE");
    assert_eq!(store.services[0].server_url, "https://b.example");
    assert_eq!(store.services[0].response_times, vec![42]);
}

#[test]
fn add_service_rejects_empty_identifier() {
    let mut store = MonitorStore::new();
    assert!(store.add_service("!!!", "https://x.example").is_err());
    assert_eq!(store.services.len(), 0);
}

#[test]
fn response_time_updates_online_flag() {
    let mut store = store_with("svc", "https://x.example");
    store.add_response_time("svc", 17);
    assert!(store.services[0].is_online);
    store.add_response_time("svc", 0);
    assert!(!store.services[0].is_online);
    assert_eq!(store.services[0].response_times, vec![17, 0]);
}

#[test]
fn response_time_for_unknown_service_changes_nothing() {
    let mut store = store_with("svc", "https://x.example");
    store.add_response_time("other", 5);
    assert!(store.services[0].response_times.is_empty());
}

#[test]
fn ring_buffer_evicts_exactly_the_oldest_at_capacity() {
    let mut store = store_with("svc", "https://x.example");
    for i in 0..MAX_HISTORY {
        store.add_response_time("svc", (i % 1000) as i32 + 1);
    }
    assert_eq!(store.services[0].response_times.len(), MAX_HISTORY);
    let second = store.services[0].response_times[1];

    store.add_response_time("svc", 777);
    let h = &store.services[0].response_times;
    assert_eq!(h.len(), MAX_HISTORY);
    assert_eq!(h[h.len() - 1], 777);
    assert_eq!(h[0], second);
}

#[test]
fn count_recent_failures_counts_zeros_in_trailing_window() {
    let mut store = store_with("svc", "https://x.example");
    for &v in [5, 0, 0, 7, 0].iter() {
        store.add_response_time("svc", v);
    }
    assert_eq!(store.count_recent_failures("svc", 5), 3);
    assert_eq!(store.count_recent_failures("svc", 2), 1);
    assert_eq!(store.count_recent_failures("svc", 1), 1);
    assert_eq!(store.count_recent_failures("svc", 100), 3);
    assert_eq!(store.count_recent_failures("missing", 5), 0);
}

#[test]
fn incidents_open_and_close() {
    let mut store = store_with("svc", "https://x.example");
    let id = store.add_incident("svc", "down", 1000).unwrap();
    assert_eq!(id, 1);
    assert_eq!(store.incidents.len(), 1);
    assert_eq!(store.incidents[0].service_id, "svc");
    assert_eq!(store.incidents[0].service_name, "svc");
    assert_eq!(store.incidents[0].start_time, 1000);
    assert_eq!(store.incidents[0].end_time, None);
    assert!(store.has_open_incident("svc"));

    store.end_incident(id, 2000);
    assert_eq!(store.incidents[0].end_time, Some(2000));
    assert!(!store.has_open_incident("svc"));

    // Closing again is a no-op: the first end time stands.
    store.end_incident(id, 3000);
    assert_eq!(store.incidents[0].end_time, Some(2000));
}

#[test]
fn add_incident_unknown_service_is_an_error() {
    let mut store = store_with("svc", "https://x.example");
    assert!(store.add_incident("ghost", "down", 5).is_err());
    assert_eq!(store.incidents.len(), 0);
}

#[test]
fn close_open_incidents_closes_only_that_service() {
    let mut store = store_with("a", "https://a.example");
    store.add_service("b", "https://b.example").unwrap();
    store.add_incident("a", "down", 10).unwrap();
    store.add_incident("b", "down", 11).unwrap();
    store.close_open_incidents("a", 99);
    assert_eq!(store.incidents[0].end_time, Some(99));
    assert_eq!(store.incidents[1].end_time, None);
}
