use statussentinel::orchestrator::{run_cycle, CycleOutcome, RuntimeStates};
use statussentinel::probe::ProbeOutcome;
use statussentinel::store::MonitorStore;

fn store_with_services(names: &[&str]) -> MonitorStore {
    let mut store = MonitorStore::new();
    for name in names {
        store.add_service(name, "https://x.example").unwrap();
    }
    store
}

fn outcome(name: &str, outcome: ProbeOutcome) -> CycleOutcome {
    CycleOutcome { name: name.to_string(), outcome, description: "down".to_string(), now: 7 }
}

#[test]
fn every_service_gains_exactly_one_sample_per_cycle() {
    let mut store = store_with_services(&["alpha", "beta", "gamma"]);
    let mut states = RuntimeStates::new();
    let outcomes = vec![
        outcome("alpha", ProbeOutcome::Success(10)),
        outcome("beta", ProbeOutcome::Failure),
        outcome("gamma", ProbeOutcome::Success(30)),
    ];
    run_cycle(&mut store, &mut states, &outcomes);
    assert_eq!(store.services[0].response_times, vec![10]);
    assert_eq!(store.services[1].response_times, vec![0]);
    assert_eq!(store.services[2].response_times, vec![30]);
    assert_eq!(states.entries.len(), 3);
}

#[test]
fn completion_order_does_not_change_the_histories() {
    let mut store_a = store_with_services(&["alpha", "beta"]);
    let mut store_b = store_with_services(&["alpha", "beta"]);
    let mut states_a = RuntimeStates::new();
    let mut states_b = RuntimeStates::new();

    let forward = vec![
        outcome("alpha", ProbeOutcome::Success(10)),
        outcome("beta", ProbeOutcome::Failure),
    ];
    let backward = vec![
        outcome("beta", ProbeOutcome::Failure),
        outcome("alpha", ProbeOutcome::Success(10)),
    ];
    run_cycle(&mut store_a, &mut states_a, &forward);
    run_cycle(&mut store_b, &mut states_b, &backward);

    for i in 0..2 {
        assert_eq!(
            store_a.services[i].response_times,
            store_b.services[i].response_times
        );
        assert_eq!(store_a.services[i].is_online, store_b.services[i].is_online);
    }
}

#[test]
fn five_failing_cycles_open_one_incident() {
    let mut store = store_with_services(&["svc"]);
    let mut states = RuntimeStates::new();
    for _ in 0..5 {
        let outcomes = vec![outcome("svc", ProbeOutcome::Failure)];
        run_cycle(&mut store, &mut states, &outcomes);
    }
    assert_eq!(store.incidents.len(), 1);
    assert_eq!(store.incidents[0].service_id, "svc");
    assert_eq!(store.incidents[0].end_time, None);

    // A later successful cycle closes it again.
    let outcomes = vec![outcome("svc", ProbeOutcome::Success(3))];
    run_cycle(&mut store, &mut states, &outcomes);
    assert_eq!(store.incidents.len(), 1);
    assert!(store.incidents[0].end_time.is_some());
}

#[test]
fn unmonitored_and_invalid_names_are_skipped() {
    let mut store = store_with_services(&["svc"]);
    let mut states = RuntimeStates::new();
    let outcomes = vec![
        outcome("!!!", ProbeOutcome::Failure),
        outcome("ghost", ProbeOutcome::Failure),
        outcome("svc", ProbeOutcome::Success(9)),
    ];
    run_cycle(&mut store, &mut states, &outcomes);
    assert_eq!(store.services.len(), 1);
    assert_eq!(store.services[0].response_times, vec![9]);
}
