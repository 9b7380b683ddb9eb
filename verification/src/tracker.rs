//! The incident tracker: the per-service state machine that turns probe
//! outcomes into incident open/close transitions.
//!
//! A failure is recorded first; when the trailing debounce window is all
//! failures and neither the runtime flag nor the store shows an open
//! incident, one incident is created. A success closes every open incident
//! of the service and clears the flag. The runtime flag is a cache of
//! storage truth: the store is re-checked before an incident is opened.

use vstd::prelude::*;
use crate::model::{
    StoreModel, DEBOUNCE_THRESHOLD, MAX_HISTORY, has_service, service_index, services_wf,
    lemma_service_index_unique, ring_append, count_zeros, tail_window, recent_failures,
    append_sample, has_open_incident_for, with_incident, close_incidents, fresh_incident,
    IncidentModel,
};
use crate::probe::{ProbeOutcome, outcome_sample};
use crate::store::MonitorStore;

verus! {

/// Per-service runtime state: whether the tracker believes the service has
/// an open incident. A cache of storage truth, re-synced from the store
/// whenever a transition hinges on it.
#[derive(Debug, Clone, Copy, PartialEq, Eq, Structural)]
pub struct ServiceRuntimeState {
    pub has_open_incident: bool,
}

/// The tracker's transition for one probe outcome. The sample is recorded
/// first. A failure that fills the debounce window while the flag is clear
/// re-checks the store: an incident is created only when the store shows
/// none open, and either way the flag is set. A success with the flag set
/// closes every open incident of the service and clears the flag.
pub open spec fn eval_step(
    s: StoreModel,
    flag: bool,
    id: Seq<char>,
    outcome: ProbeOutcome,
    desc: Seq<char>,
    now: i64,
) -> (StoreModel, bool) {
    let s1 = append_sample(s, id, outcome_sample(outcome));
    match outcome {
        ProbeOutcome::Failure => {
            if recent_failures(s1, id, DEBOUNCE_THRESHOLD as int) >= DEBOUNCE_THRESHOLD as int
                && !flag {
                if has_open_incident_for(s1, id) {
                    (s1, true)
                } else {
                    (with_incident(s1, id, desc, now), true)
                }
            } else {
                (s1, flag)
            }
        },
        ProbeOutcome::Success(_) => {
            if flag {
                (close_incidents(s1, id, now), false)
            } else {
                (s1, false)
            }
        },
    }
}

/// The tracker's next move after the sample is recorded, decided from the
/// outcome, the runtime flag and the recent-failure count alone.
#[derive(Debug, Clone, Copy, PartialEq, Eq, Structural)]
pub enum TrackerStep {
    /// The debounce window is full of failures while the flag is clear:
    /// re-check the store, open an incident only if it shows none, and set
    /// the flag either way.
    RecheckStore,
    /// A success while the flag is set: close every open incident of the
    /// service and clear the flag.
    CloseIncidents,
    /// Nothing beyond the recorded sample; the flag keeps its value.
    Record,
}

/// The decision `tracker_step` takes.
pub open spec fn tracker_step_spec(outcome: ProbeOutcome, flag: bool, recent_failures: int) -> TrackerStep {
    match outcome {
        ProbeOutcome::Failure => if recent_failures >= DEBOUNCE_THRESHOLD as int && !flag {
            TrackerStep::RecheckStore
        } else {
            TrackerStep::Record
        },
        ProbeOutcome::Success(_) => if flag {
            TrackerStep::CloseIncidents
        } else {
            TrackerStep::Record
        },
    }
}

/// The decision kernel of the tracker: what to do once a probe outcome's
/// sample is recorded, given the runtime flag and the recent-failure count.
/// `evaluate` drives the in-memory store with it; the surrounding process
/// drives its durable store with the same calls.
pub fn tracker_step(outcome: ProbeOutcome, has_open_incident: bool, recent_failures: usize) -> (r:
    TrackerStep)
    ensures
        r == tracker_step_spec(outcome, has_open_incident, recent_failures as int),
{
    match outcome {
        ProbeOutcome::Failure => {
            if recent_failures >= DEBOUNCE_THRESHOLD && !has_open_incident {
                TrackerStep::RecheckStore
            } else {
                TrackerStep::Record
            }
        },
        ProbeOutcome::Success(_) => {
            if has_open_incident {
                TrackerStep::CloseIncidents
            } else {
                TrackerStep::Record
            }
        },
    }
}

/// Feeds one probe outcome through the incident state machine: records the
/// sample and performs exactly the transition `eval_step` describes,
/// returning the new runtime flag.
pub fn evaluate(
    store: &mut MonitorStore,
    has_open_incident: bool,
    service_id: &str,
    outcome: ProbeOutcome,
    description: &str,
    now: i64,
) -> (new_flag: bool)
    requires
        old(store).wf(),
        old(store)@.next_incident_id < i32::MAX as int,
    ensures
        final(store).wf(),
        (final(store)@, new_flag) == eval_step(
            old(store)@,
            has_open_incident,
            service_id@,
            outcome,
            description@,
            now,
        ),
{
    let sample: i32 = match outcome {
        ProbeOutcome::Success(ms) => ms,
        ProbeOutcome::Failure => 0,
    };
    store.add_response_time(service_id, sample);
    let failures = store.count_recent_failures(service_id, DEBOUNCE_THRESHOLD);
    match tracker_step(outcome, has_open_incident, failures) {
        TrackerStep::RecheckStore => {
            if store.has_open_incident(service_id) {
                true
            } else {
                let created = store.add_incident(service_id, description, now);
                proof {
                    if created is Err {
                        assert(!has_service(store@.services, service_id@));
                    }
                }
                true
            }
        },
        TrackerStep::CloseIncidents => {
            store.close_open_incidents(service_id, now);
            false
        },
        TrackerStep::Record => has_open_incident,
    }
}

/// Recording a sample leaves the incidents, the next incident id, the set of
/// services and their names untouched; only the addressed service's history
/// and online flag move, and its position stays.
proof fn lemma_append_sample_effects(s: StoreModel, id: Seq<char>, x: i32)
    requires
        s.wf(),
        has_service(s.services, id),
    ensures
        append_sample(s, id, x).wf(),
        append_sample(s, id, x).incidents == s.incidents,
        append_sample(s, id, x).next_incident_id == s.next_incident_id,
        has_service(append_sample(s, id, x).services, id),
        service_index(append_sample(s, id, x).services, id) == service_index(s.services, id),
        append_sample(s, id, x).services[service_index(s.services, id)].response_times
            == ring_append(s.services[service_index(s.services, id)].response_times, x),
        append_sample(s, id, x).services[service_index(s.services, id)].name
            == s.services[service_index(s.services, id)].name,
{
    let j = service_index(s.services, id);
    let s2 = append_sample(s, id, x);
    assert(s2.services[j].id == id);
    lemma_service_index_unique(s, id, j);
    assert forall|a: int, b: int|
        #![trigger s2.services[a].id, s2.services[b].id]
        0 <= a < b < s2.services.len() implies s2.services[a].id != s2.services[b].id by {
        assert(s.services[a].id != s.services[b].id);
    }
    assert forall|a: int|
        0 <= a < s2.services.len() implies #[trigger] s2.services[a].response_times.len()
        <= MAX_HISTORY by {
        assert(s.services[a].response_times.len() <= MAX_HISTORY);
    }
    assert(s2.wf());
    let k = service_index(s2.services, id);
    if k != j {
        assert(s2.services[j].id == s2.services[k].id);
    }
}

/// A failure count never exceeds the length counted over, and is never
/// negative.
proof fn lemma_count_zeros_le_len(s: Seq<i32>)
    ensures
        0 <= count_zeros(s) <= s.len(),
    decreases s.len(),
{
    if s.len() > 0 {
        lemma_count_zeros_le_len(s.drop_last());
    }
}

/// Appending to a bounded history shifts its trailing window: the window of
/// width `w` afterwards is the window of width `w - 1` before, then the new
/// sample.
proof fn lemma_tail_window_ring_append(h: Seq<i32>, x: i32, w: int)
    requires
        1 <= w <= MAX_HISTORY,
    ensures
        tail_window(ring_append(h, x), w) == tail_window(h, w - 1).push(x),
{
    assert(tail_window(ring_append(h, x), w) =~= tail_window(h, w - 1).push(x));
}

/// One recorded failure raises the trailing-window failure count by one,
/// against the one-narrower window before it.
proof fn lemma_ring_append_failure_count(h: Seq<i32>, w: int)
    requires
        1 <= w <= MAX_HISTORY,
    ensures
        count_zeros(tail_window(ring_append(h, 0), w)) == count_zeros(tail_window(h, w - 1)) + 1,
{
    lemma_tail_window_ring_append(h, 0, w);
    assert(tail_window(h, w - 1).push(0).drop_last() =~= tail_window(h, w - 1));
}

/// A history whose latest sample is not a failure fills no window of
/// failures: the count over a window of width `m` stays below `m`.
proof fn lemma_tail_window_bound(h: Seq<i32>, m: int)
    requires
        0 <= m,
        h.len() == 0 || h.last() != 0,
    ensures
        count_zeros(tail_window(h, m)) <= if m >= 1 && h.len() >= 1 {
            m - 1
        } else {
            m
        },
{
    let tw = tail_window(h, m);
    if m == 0 || h.len() == 0 {
        assert(tw =~= Seq::<i32>::empty());
        lemma_count_zeros_le_len(tw);
    } else {
        assert(tw.last() == h.last());
        assert(count_zeros(tw) == count_zeros(tw.drop_last()));
        lemma_count_zeros_le_len(tw.drop_last());
    }
}

/// One tracker transition moves only the probed service's history: the
/// service list keeps its length, identifiers and well-formedness, the
/// probed service gains exactly the outcome's sample, and every other
/// history is untouched. Only the service list's own well-formedness is
/// needed.
pub proof fn lemma_eval_step_frame(
    s: StoreModel,
    flag: bool,
    id: Seq<char>,
    outcome: ProbeOutcome,
    desc: Seq<char>,
    now: i64,
)
    requires
        services_wf(s.services),
    ensures
        ({
            let (s2, f2) = eval_step(s, flag, id, outcome, desc, now);
            &&& services_wf(s2.services)
            &&& s2.services.len() == s.services.len()
            &&& forall|si: int|
                0 <= si < s.services.len() ==> #[trigger] s2.services[si].id == s.services[si].id
            &&& forall|si: int|
                0 <= si < s.services.len() && s.services[si].id == id
                    ==> #[trigger] s2.services[si].response_times == ring_append(
                    s.services[si].response_times,
                    outcome_sample(outcome),
                )
            &&& forall|si: int|
                0 <= si < s.services.len() && s.services[si].id != id
                    ==> #[trigger] s2.services[si].response_times
                    == s.services[si].response_times
        }),
{
    let x = outcome_sample(outcome);
    let s1 = append_sample(s, id, x);
    if has_service(s.services, id) {
        let j = service_index(s.services, id);
        assert forall|si: int|
            0 <= si < s.services.len() && s.services[si].id == id implies #[trigger] s1.services[si].response_times
            == ring_append(s.services[si].response_times, x) by {
            lemma_service_index_unique(s, id, si);
        }
        assert forall|a: int, b: int|
            #![trigger s1.services[a].id, s1.services[b].id]
            0 <= a < b < s1.services.len() implies s1.services[a].id != s1.services[b].id by {
            assert(s.services[a].id != s.services[b].id);
        }
        assert forall|a: int|
            0 <= a < s1.services.len() implies #[trigger] s1.services[a].response_times.len()
            <= MAX_HISTORY by {
            assert(s.services[a].response_times.len() <= MAX_HISTORY);
        }
    }
    let (s2, f2) = eval_step(s, flag, id, outcome, desc, now);
    // Neither opening nor closing incidents touches the service list.
    assert(s2.services == s1.services);
}

/// Law: a success for a service whose runtime flag is set closes every open
/// incident of that service at that moment — all of them, so duplicates from
/// stale state go too — leaves every other incident untouched, and clears
/// the flag. The recorded sample still lands in the history first.
pub proof fn lemma_success_closes_incidents(
    s: StoreModel,
    id: Seq<char>,
    ms: i32,
    desc: Seq<char>,
    now: i64,
)
    requires
        s.wf(),
    ensures
        ({
            let (s2, flag2) = eval_step(s, true, id, ProbeOutcome::Success(ms), desc, now);
            &&& flag2 == false
            &&& s2.incidents.len() == s.incidents.len()
            &&& forall|j: int|
                0 <= j < s.incidents.len() && s.incidents[j].service_id == id
                    && s.incidents[j].end_time is None ==> #[trigger] s2.incidents[j]
                    == IncidentModel { end_time: Some(now), ..s.incidents[j] }
            &&& forall|j: int|
                0 <= j < s.incidents.len() && !(s.incidents[j].service_id == id
                    && s.incidents[j].end_time is None) ==> #[trigger] s2.incidents[j]
                    == s.incidents[j]
            &&& !has_open_incident_for(s2, id)
        }),
{
    let s1 = append_sample(s, id, ms);
    let s2 = close_incidents(s1, id, now);
    assert(s1.incidents == s.incidents);
    assert forall|j: int|
        0 <= j < s2.incidents.len() && #[trigger] s2.incidents[j].service_id == id implies !(
    s2.incidents[j].end_time is None) by {
        assert(s2.incidents[j] == (if s.incidents[j].service_id == id && s.incidents[j].end_time is None {
            IncidentModel { end_time: Some(now), ..s.incidents[j] }
        } else {
            s.incidents[j]
        }));
    }
}

/// Law: when stale state has left several open incidents for one service,
/// a single success evaluation closes them all; here stated for any two.
pub proof fn lemma_duplicate_incidents_both_closed(
    s: StoreModel,
    id: Seq<char>,
    a: int,
    b: int,
    ms: i32,
    desc: Seq<char>,
    now: i64,
)
    requires
        s.wf(),
        0 <= a < b < s.incidents.len(),
        s.incidents[a].service_id == id,
        s.incidents[b].service_id == id,
        s.incidents[a].end_time is None,
        s.incidents[b].end_time is None,
    ensures
        ({
            let (s2, flag2) = eval_step(s, true, id, ProbeOutcome::Success(ms), desc, now);
            &&& s2.incidents[a].end_time == Some(now)
            &&& s2.incidents[b].end_time == Some(now)
            &&& flag2 == false
        }),
{
    lemma_success_closes_incidents(s, id, ms, desc, now);
}

/// Law: the failure debounce. For a service whose latest sample (if any) is
/// not a failure, with no open incident and a clear flag, four consecutive
/// failures open nothing; the fifth opens exactly one incident — appended
/// last, open, owned by the service — and sets the flag; a sixth failure
/// opens no second one.
pub proof fn lemma_incident_debounce(s: StoreModel, id: Seq<char>, desc: Seq<char>, now: i64)
    requires
        s.wf(),
        has_service(s.services, id),
        ({
            let h = s.services[service_index(s.services, id)].response_times;
            h.len() == 0 || h.last() != 0
        }),
        !has_open_incident_for(s, id),
    ensures
        ({
            let (s1, f1) = eval_step(s, false, id, ProbeOutcome::Failure, desc, now);
            let (s2, f2) = eval_step(s1, f1, id, ProbeOutcome::Failure, desc, now);
            let (s3, f3) = eval_step(s2, f2, id, ProbeOutcome::Failure, desc, now);
            let (s4, f4) = eval_step(s3, f3, id, ProbeOutcome::Failure, desc, now);
            let (s5, f5) = eval_step(s4, f4, id, ProbeOutcome::Failure, desc, now);
            let (s6, f6) = eval_step(s5, f5, id, ProbeOutcome::Failure, desc, now);
            &&& s4.incidents == s.incidents && !f4
            &&& s5.incidents.len() == s.incidents.len() + 1
            &&& s5.incidents.take(s.incidents.len() as int) == s.incidents
            &&& s5.incidents.last().service_id == id
            &&& s5.incidents.last().end_time is None
            &&& f5
            &&& s6.incidents == s5.incidents && f6
        }),
{
    let j = service_index(s.services, id);
    let h0 = s.services[j].response_times;
    let h1 = ring_append(h0, 0);
    let h2 = ring_append(h1, 0);
    let h3 = ring_append(h2, 0);
    let h4 = ring_append(h3, 0);
    let h5 = ring_append(h4, 0);

    // The failure counts over the widening chain of windows.
    lemma_tail_window_bound(h0, 4);
    lemma_tail_window_bound(h0, 3);
    lemma_tail_window_bound(h0, 2);
    lemma_tail_window_bound(h0, 1);
    lemma_tail_window_bound(h0, 0);
    lemma_ring_append_failure_count(h0, 5);
    lemma_ring_append_failure_count(h0, 4);
    lemma_ring_append_failure_count(h0, 3);
    lemma_ring_append_failure_count(h0, 2);
    lemma_ring_append_failure_count(h0, 1);
    lemma_ring_append_failure_count(h1, 5);
    lemma_ring_append_failure_count(h1, 4);
    lemma_ring_append_failure_count(h1, 3);
    lemma_ring_append_failure_count(h1, 2);
    lemma_ring_append_failure_count(h2, 5);
    lemma_ring_append_failure_count(h2, 4);
    lemma_ring_append_failure_count(h2, 3);
    lemma_ring_append_failure_count(h3, 5);
    lemma_ring_append_failure_count(h3, 4);
    lemma_ring_append_failure_count(h4, 5);
    assert(count_zeros(tail_window(h1, 5)) < 5);
    assert(count_zeros(tail_window(h2, 5)) < 5);
    assert(count_zeros(tail_window(h3, 5)) < 5);
    assert(count_zeros(tail_window(h4, 5)) < 5);
    assert(count_zeros(tail_window(h5, 5)) == 5);

    // Step one: the sample lands, the window is not yet full, nothing opens.
    lemma_append_sample_effects(s, id, 0);
    let s1 = append_sample(s, id, 0);
    assert(recent_failures(s1, id, 5) == count_zeros(tail_window(h1, 5)));
    assert(eval_step(s, false, id, ProbeOutcome::Failure, desc, now) == (s1, false));

    // Steps two to four: likewise.
    lemma_append_sample_effects(s1, id, 0);
    let s2 = append_sample(s1, id, 0);
    assert(s2.services[j].response_times == h2);
    assert(recent_failures(s2, id, 5) == count_zeros(tail_window(h2, 5)));
    assert(eval_step(s1, false, id, ProbeOutcome::Failure, desc, now) == (s2, false));

    lemma_append_sample_effects(s2, id, 0);
    let s3 = append_sample(s2, id, 0);
    assert(s3.services[j].response_times == h3);
    assert(recent_failures(s3, id, 5) == count_zeros(tail_window(h3, 5)));
    assert(eval_step(s2, false, id, ProbeOutcome::Failure, desc, now) == (s3, false));

    lemma_append_sample_effects(s3, id, 0);
    let s4 = append_sample(s3, id, 0);
    assert(s4.services[j].response_times == h4);
    assert(recent_failures(s4, id, 5) == count_zeros(tail_window(h4, 5)));
    assert(eval_step(s3, false, id, ProbeOutcome::Failure, desc, now) == (s4, false));
    assert(s4.incidents == s.incidents);

    // Step five: the window is all failures, the store shows nothing open,
    // one incident is created and the flag is set.
    lemma_append_sample_effects(s4, id, 0);
    let s5pre = append_sample(s4, id, 0);
    assert(s5pre.services[j].response_times == h5);
    assert(recent_failures(s5pre, id, 5) == 5);
    assert(s5pre.incidents == s.incidents);
    assert(!has_open_incident_for(s5pre, id));
    let s5 = with_incident(s5pre, id, desc, now);
    assert(eval_step(s4, false, id, ProbeOutcome::Failure, desc, now) == (s5, true));
    assert(s5.incidents == s.incidents.push(fresh_incident(s5pre, id, desc, now)));
    assert(s5.incidents.take(s.incidents.len() as int) =~= s.incidents);

    // Step six: the flag is already set, so nothing further opens.
    let s6 = append_sample(s5, id, 0);
    assert(eval_step(s5, true, id, ProbeOutcome::Failure, desc, now) == (s6, true));
    assert(s6.incidents == s5.incidents);
}

} // verus!
