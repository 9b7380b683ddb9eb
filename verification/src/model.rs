//! Data model of the monitor: services with their bounded response-time
//! history, incident records, and the mathematical view of the store that the
//! contracts and laws speak of.

use vstd::prelude::*;

verus! {

/// The most entries a service's response-time history may hold: a ninety-day
/// window at one probe a minute. Appending at this capacity evicts the oldest
/// entry.
pub const MAX_HISTORY: usize = 129600;

/// How many trailing samples the failure debounce looks at, and how many of
/// them must be failures before an incident is opened.
pub const DEBOUNCE_THRESHOLD: usize = 5;

/// A monitored service: its normalized identifier, its human-readable name,
/// the probe target, the bounded response-time history (milliseconds, 0 for
/// a failed probe) and whether the last probe succeeded.
#[derive(Debug)]
pub struct Service {
    pub id: String,
    pub name: String,
    pub server_url: String,
    pub response_times: Vec<i32>,
    pub is_online: bool,
}

/// The service list read at bootstrap: pairs of human-readable name and
/// probe target.
#[derive(Debug)]
pub struct Services {
    pub services: Vec<(String, String)>,
}

/// An incident record: the owning service (snapshotted at creation), when it
/// started, when it ended (still open while `None`), and a description.
/// Times are milliseconds since the epoch.
#[derive(Debug)]
pub struct Incident {
    pub id: i32,
    pub service_id: String,
    pub service_name: String,
    pub start_time: i64,
    pub end_time: Option<i64>,
    pub description: String,
}

/// The mathematical view of a service.
pub ghost struct ServiceModel {
    pub id: Seq<char>,
    pub name: Seq<char>,
    pub server_url: Seq<char>,
    pub response_times: Seq<i32>,
    pub is_online: bool,
}

/// The mathematical view of an incident.
pub ghost struct IncidentModel {
    pub id: i32,
    pub service_id: Seq<char>,
    pub service_name: Seq<char>,
    pub start_time: i64,
    pub end_time: Option<i64>,
    pub description: Seq<char>,
}

/// The mathematical view of the store: the services, the incident records,
/// and the id the next incident will get.
pub ghost struct StoreModel {
    pub services: Seq<ServiceModel>,
    pub incidents: Seq<IncidentModel>,
    pub next_incident_id: int,
}

impl View for Service {
    type V = ServiceModel;

    open spec fn view(&self) -> ServiceModel {
        ServiceModel {
            id: self.id@,
            name: self.name@,
            server_url: self.server_url@,
            response_times: self.response_times@,
            is_online: self.is_online,
        }
    }
}

impl View for Incident {
    type V = IncidentModel;

    open spec fn view(&self) -> IncidentModel {
        IncidentModel {
            id: self.id,
            service_id: self.service_id@,
            service_name: self.service_name@,
            start_time: self.start_time,
            end_time: self.end_time,
            description: self.description@,
        }
    }
}

/// Well-formedness of the service list alone: identifiers are distinct and
/// histories respect the capacity bound.
pub open spec fn services_wf(services: Seq<ServiceModel>) -> bool {
    &&& forall|j: int, k: int|
        #![trigger services[j].id, services[k].id]
        0 <= j < k < services.len() ==> services[j].id != services[k].id
    &&& forall|j: int|
        0 <= j < services.len() ==> #[trigger] services[j].response_times.len() <= MAX_HISTORY
}

impl StoreModel {
    /// Well-formedness of the store: the service list is well-formed, and
    /// incident ids are distinct and below the id the next incident will
    /// get.
    pub open spec fn wf(self) -> bool {
        &&& services_wf(self.services)
        &&& forall|j: int|
            0 <= j < self.incidents.len() ==> 1 <= #[trigger] self.incidents[j].id
                < self.next_incident_id
        &&& forall|j: int, k: int|
            #![trigger self.incidents[j].id, self.incidents[k].id]
            0 <= j < k < self.incidents.len() ==> self.incidents[j].id != self.incidents[k].id
        &&& 1 <= self.next_incident_id
    }
}

/// Whether some service in the sequence has this identifier.
pub open spec fn has_service(services: Seq<ServiceModel>, id: Seq<char>) -> bool {
    exists|j: int| 0 <= j < services.len() && #[trigger] services[j].id == id
}

/// The position of the service with this identifier; meaningful when the
/// identifiers are distinct and the service exists.
pub open spec fn service_index(services: Seq<ServiceModel>, id: Seq<char>) -> int {
    choose|j: int| 0 <= j < services.len() && #[trigger] services[j].id == id
}

/// With distinct identifiers, any position holding the identifier is the
/// position `service_index` names.
pub proof fn lemma_service_index_unique(s: StoreModel, id: Seq<char>, j: int)
    requires
        services_wf(s.services),
        0 <= j < s.services.len(),
        s.services[j].id == id,
    ensures
        has_service(s.services, id),
        service_index(s.services, id) == j,
{
    assert(has_service(s.services, id));
    let k = service_index(s.services, id);
    if k != j {
        assert(s.services[j].id != s.services[k].id);
    }
}

/// Appending to a bounded history: the new sample goes last; at capacity the
/// oldest entry is evicted first.
pub open spec fn ring_append(h: Seq<i32>, x: i32) -> Seq<i32> {
    if h.len() >= MAX_HISTORY {
        h.drop_first().push(x)
    } else {
        h.push(x)
    }
}

/// Law: appending to a history already at capacity evicts exactly the oldest
/// entry — every other entry moves one place down, the new entry becomes the
/// last, and the length stays at the maximum.
pub proof fn lemma_ring_buffer_eviction(h: Seq<i32>, x: i32)
    requires
        h.len() == MAX_HISTORY,
    ensures
        ring_append(h, x).len() == MAX_HISTORY,
        ring_append(h, x).last() == x,
        forall|j: int| 0 <= j < MAX_HISTORY - 1 ==> #[trigger] ring_append(h, x)[j] == h[j + 1],
{
}

/// How many samples of a history are failures (latency 0).
pub open spec fn count_zeros(h: Seq<i32>) -> int
    decreases h.len(),
{
    if h.len() == 0 {
        0
    } else {
        count_zeros(h.drop_last()) + if h.last() == 0 {
            1int
        } else {
            0int
        }
    }
}

/// The trailing window of a history: the last `w` samples, or all of them
/// when there are fewer.
pub open spec fn tail_window(h: Seq<i32>, w: int) -> Seq<i32> {
    if h.len() <= w {
        h
    } else {
        h.subrange(h.len() - w, h.len() as int)
    }
}

/// The recent-failure count of a service: the failures among its trailing
/// `w` samples; 0 for an unknown service.
pub open spec fn recent_failures(s: StoreModel, id: Seq<char>, w: int) -> int {
    if has_service(s.services, id) {
        count_zeros(tail_window(s.services[service_index(s.services, id)].response_times, w))
    } else {
        0
    }
}

/// The store after a sample is recorded for a service: the sample is
/// appended to that service's history with ring-buffer eviction and the
/// online flag follows the sample; an unknown service leaves the store
/// unchanged.
pub open spec fn append_sample(s: StoreModel, id: Seq<char>, sample: i32) -> StoreModel {
    if has_service(s.services, id) {
        let j = service_index(s.services, id);
        let svc = s.services[j];
        StoreModel {
            services: s.services.update(
                j,
                ServiceModel {
                    response_times: ring_append(svc.response_times, sample),
                    is_online: sample > 0,
                    ..svc
                },
            ),
            ..s
        }
    } else {
        s
    }
}

/// Whether the store holds an open incident for this service.
pub open spec fn has_open_incident_for(s: StoreModel, id: Seq<char>) -> bool {
    exists|j: int|
        0 <= j < s.incidents.len() && #[trigger] s.incidents[j].service_id == id
            && s.incidents[j].end_time is None
}

/// The incident record a creation adds: the next id, the owning service's
/// identifier and (snapshotted) name, the creation time, no end time.
pub open spec fn fresh_incident(s: StoreModel, id: Seq<char>, desc: Seq<char>, now: i64) -> IncidentModel {
    IncidentModel {
        id: s.next_incident_id as i32,
        service_id: id,
        service_name: s.services[service_index(s.services, id)].name,
        start_time: now,
        end_time: None,
        description: desc,
    }
}

/// The store after an incident is created for a service: the fresh record is
/// appended and the next id moves on; an unknown service leaves the store
/// unchanged.
pub open spec fn with_incident(s: StoreModel, id: Seq<char>, desc: Seq<char>, now: i64) -> StoreModel {
    if has_service(s.services, id) {
        StoreModel {
            incidents: s.incidents.push(fresh_incident(s, id, desc, now)),
            next_incident_id: s.next_incident_id + 1,
            ..s
        }
    } else {
        s
    }
}

/// The store after every open incident of a service is closed at `now`;
/// closed incidents and other services' incidents are untouched.
pub open spec fn close_incidents(s: StoreModel, id: Seq<char>, now: i64) -> StoreModel {
    StoreModel {
        incidents: s.incidents.map(
            |j: int, inc: IncidentModel|
                if inc.service_id == id && inc.end_time is None {
                    IncidentModel { end_time: Some(now), ..inc }
                } else {
                    inc
                },
        ),
        ..s
    }
}

/// The store after one incident, named by id, is closed at `now`; a closed
/// or unknown incident leaves the store unchanged.
pub open spec fn close_one_incident(s: StoreModel, incident_id: i32, now: i64) -> StoreModel {
    StoreModel {
        incidents: s.incidents.map(
            |j: int, inc: IncidentModel|
                if inc.id == incident_id && inc.end_time is None {
                    IncidentModel { end_time: Some(now), ..inc }
                } else {
                    inc
                },
        ),
        ..s
    }
}

/// The store after a service is created or refreshed at bootstrap: an
/// existing service keeps its history and online flag and takes the new name
/// and target; a new one starts with an empty history, offline.
pub open spec fn upsert_service(s: StoreModel, id: Seq<char>, name: Seq<char>, url: Seq<char>) -> StoreModel {
    if has_service(s.services, id) {
        let j = service_index(s.services, id);
        StoreModel {
            services: s.services.update(
                j,
                ServiceModel { name: name, server_url: url, ..s.services[j] },
            ),
            ..s
        }
    } else {
        StoreModel {
            services: s.services.push(
                ServiceModel {
                    id: id,
                    name: name,
                    server_url: url,
                    response_times: Seq::empty(),
                    is_online: false,
                },
            ),
            ..s
        }
    }
}

} // verus!
