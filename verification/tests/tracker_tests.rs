use statussentinel::probe::ProbeOutcome;
use statussentinel::store::MonitorStore;
use statussentinel::tracker::{evaluate, tracker_step, TrackerStep};

fn store_with(name: &str) -> MonitorStore {
    let mut store = MonitorStore::new();
    store.add_service(name, "https://x.example").unwrap();
    store
}

#[test]
fn debounce_opens_one_incident_on_the_fifth_failure() {
    let mut store = store_with("svc");
    let mut flag = false;

    for _ in 0..4 {
        flag = evaluate(&mut store, flag, "svc", ProbeOutcome::Failure, "svc is down", 100);
        assert_eq!(store.incidents.len(), 0);
        assert!(!flag);
    }

    flag = evaluate(&mut store, flag, "svc", ProbeOutcome::Failure, "svc is down", 100);
    assert_eq!(store.incidents.len(), 1);
    assert!(flag);
    assert_eq!(store.incidents[0].service_id, "svc");
    assert_eq!(store.incidents[0].end_time, None);
    assert_eq!(store.incidents[0].description, "svc is down");

    flag = evaluate(&mut store, flag, "svc", ProbeOutcome::Failure, "svc is down", 100);
    assert_eq!(store.incidents.len(), 1);
    assert!(flag);
}

#[test]
fn debounce_window_needs_five_consecutive_failures() {
    let mut store = store_with("svc");
    let mut flag = false;
    for _ in 0..4 {
        flag = evaluate(&mut store, flag, "svc", ProbeOutcome::Failure, "down", 1);
    }
    // A success in between empties nothing but breaks the window.
    flag = evaluate(&mut store, flag, "svc", ProbeOutcome::Success(30), "down", 1);
    for _ in 0..4 {
        flag = evaluate(&mut store, flag, "svc", ProbeOutcome::Failure, "down", 1);
        assert_eq!(store.incidents.len(), 0);
    }
    flag = evaluate(&mut store, flag, "svc", ProbeOutcome::Failure, "down", 1);
    assert_eq!(store.incidents.len(), 1);
    assert!(flag);
}

#[test]
fn success_closes_the_open_incident_and_resets_the_flag() {
    let mut store = store_with("svc");
    store.add_incident("svc", "down", 50).unwrap();
    let flag = evaluate(&mut store, true, "svc", ProbeOutcome::Success(12), "", 60);
    assert!(!flag);
    assert_eq!(store.incidents.len(), 1);
    assert_eq!(store.incidents[0].end_time, Some(60));
    let h = &store.services[0].response_times;
    assert_eq!(h[h.len() - 1], 12);
    assert!(store.services[0].is_online);
}

#[test]
fn one_success_closes_duplicate_open_incidents() {
    let mut store = store_with("svc");
    // Stale state: two open incidents for the same service.
    store.add_incident("svc", "down", 10).unwrap();
    store.add_incident("svc", "still down", 20).unwrap();
    let flag = evaluate(&mut store, true, "svc", ProbeOutcome::Success(5), "", 99);
    assert!(!flag);
    assert_eq!(store.incidents[0].end_time, Some(99));
    assert_eq!(store.incidents[1].end_time, Some(99));
}

#[test]
fn stale_flag_resyncs_from_the_store_without_duplicating() {
    let mut store = store_with("svc");
    // The store already has an open incident, but the flag was lost.
    store.add_incident("svc", "down", 10).unwrap();
    let mut flag = false;
    for _ in 0..5 {
        flag = evaluate(&mut store, flag, "svc", ProbeOutcome::Failure, "down", 20);
    }
    // The re-check against the store prevents a duplicate open.
    assert_eq!(store.incidents.len(), 1);
    assert!(flag);
}

#[test]
fn success_without_flag_only_records_the_sample() {
    let mut store = store_with("svc");
    let flag = evaluate(&mut store, false, "svc", ProbeOutcome::Success(8), "", 1);
    assert!(!flag);
    assert_eq!(store.incidents.len(), 0);
    assert_eq!(store.services[0].response_times, vec![8]);
}

#[test]
fn tracker_step_decides_from_plain_values() {
    assert_eq!(
        tracker_step(ProbeOutcome::Failure, false, 5),
        TrackerStep::RecheckStore
    );
    assert_eq!(tracker_step(ProbeOutcome::Failure, false, 4), TrackerStep::Record);
    assert_eq!(tracker_step(ProbeOutcome::Failure, true, 9), TrackerStep::Record);
    assert_eq!(
        tracker_step(ProbeOutcome::Success(3), true, 0),
        TrackerStep::CloseIncidents
    );
    assert_eq!(tracker_step(ProbeOutcome::Success(3), false, 5), TrackerStep::Record);
}
