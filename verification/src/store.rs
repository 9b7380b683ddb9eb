//! The in-memory store of services and incidents.
//!
//! The store realizes the collaborator interface the monitor needs: the
//! service list with each service's bounded response-time history, the
//! recent-failure count, and the incident records with their open/close
//! lifecycle. Every method's effect is stated against the store's
//! mathematical view.

use vstd::prelude::*;
use vstd::string::StringExecFns;
use crate::MonitoringError;
use crate::identifier::{format_service_id, service_id_of, str_eq};
use crate::model::{
    Service, Incident, ServiceModel, IncidentModel, StoreModel, MAX_HISTORY, has_service,
    service_index, lemma_service_index_unique, count_zeros, tail_window,
    recent_failures, append_sample, has_open_incident_for, with_incident, close_incidents,
    close_one_incident, upsert_service,
};

verus! {

/// The store: the monitored services, the incident records, and the id the
/// next incident will get.
#[derive(Debug)]
pub struct MonitorStore {
    pub services: Vec<Service>,
    pub incidents: Vec<Incident>,
    pub next_incident_id: i32,
}

impl View for MonitorStore {
    type V = StoreModel;

    open spec fn view(&self) -> StoreModel {
        StoreModel {
            services: self.services@.map_values(|s: Service| s@),
            incidents: self.incidents@.map_values(|i: Incident| i@),
            next_incident_id: self.next_incident_id as int,
        }
    }
}

impl MonitorStore {
    /// Well-formedness: the view is well-formed.
    pub open spec fn wf(&self) -> bool {
        self@.wf()
    }

    /// An empty store; incident ids will start at 1.
    pub fn new() -> (s: Self)
        ensures
            s.wf(),
            s@.services == Seq::<ServiceModel>::empty(),
            s@.incidents == Seq::<IncidentModel>::empty(),
            s@.next_incident_id == 1,
    {
        let s = MonitorStore { services: Vec::new(), incidents: Vec::new(), next_incident_id: 1 };
        proof {
            assert(s@.services =~= Seq::<ServiceModel>::empty());
            assert(s@.incidents =~= Seq::<IncidentModel>::empty());
        }
        s
    }

    /// The position of the service with this identifier, if any.
    fn find_service(&self, service_id: &str) -> (r: Option<usize>)
        requires
            self.wf(),
        ensures
            match r {
                Some(j) => j < self.services@.len() && self@.services[j as int].id == service_id@
                    && has_service(self@.services, service_id@) && service_index(
                    self@.services,
                    service_id@,
                ) == j as int,
                None => !has_service(self@.services, service_id@),
            },
    {
        let mut j: usize = 0;
        while j < self.services.len()
            invariant
                self.wf(),
                j <= self.services@.len(),
                forall|k: int| 0 <= k < j ==> #[trigger] self@.services[k].id != service_id@,
            decreases self.services@.len() - j,
        {
            if str_eq(self.services[j].id.as_str(), service_id) {
                proof {
                    lemma_service_index_unique(self@, service_id@, j as int);
                }
                return Some(j);
            }
            j = j + 1;
        }
        proof {
            if has_service(self@.services, service_id@) {
                let k = service_index(self@.services, service_id@);
                assert(self@.services[k].id != service_id@);
            }
        }
        None
    }

    /// Records a sample for a service: appends it to the history with
    /// ring-buffer eviction and sets the online flag from the sample. An
    /// unknown identifier changes nothing.
    pub fn add_response_time(&mut self, service_id: &str, response_time: i32)
        requires
            old(self).wf(),
        ensures
            final(self).wf(),
            final(self)@ == append_sample(old(self)@, service_id@, response_time),
    {
        let ghost pre = self@;
        match self.find_service(service_id) {
            None => {
            }
            Some(j) => {
                let svc = &mut self.services[j];
                if svc.response_times.len() >= MAX_HISTORY {
                    svc.response_times.remove(0);
                }
                svc.response_times.push(response_time);
                svc.is_online = response_time > 0;
                proof {
                    assert(self@.services =~= append_sample(pre, service_id@, response_time)
                        .services);
                    assert(self@ == append_sample(pre, service_id@, response_time));
                }
            }
        }
    }

    /// The failures among the trailing `limit` samples of a service's
    /// history; 0 for an unknown identifier.
    pub fn count_recent_failures(&self, service_id: &str, limit: usize) -> (n: usize)
        requires
            self.wf(),
        ensures
            n as int == recent_failures(self@, service_id@, limit as int),
    {
        match self.find_service(service_id) {
            None => 0,
            Some(j) => {
                let h = &self.services[j].response_times;
                let len = h.len();
                let start = if len > limit {
                    len - limit
                } else {
                    0
                };
                let ghost window = tail_window(self@.services[j as int].response_times, limit as int);
                assert(h@.subrange(start as int, len as int) =~= window);
                let mut n: usize = 0;
                let mut k = start;
                while k < len
                    invariant
                        start <= k <= len,
                        len == h@.len(),
                        n <= k - start,
                        n == count_zeros(h@.subrange(start as int, k as int)),
                    decreases len - k,
                {
                    proof {
                        assert(h@.subrange(start as int, k + 1).drop_last() =~= h@.subrange(
                            start as int,
                            k as int,
                        ));
                        assert(h@.subrange(start as int, k + 1).last() == h@[k as int]);
                    }
                    if h[k] == 0 {
                        n = n + 1;
                    }
                    k = k + 1;
                }
                n
            }
        }
    }

    /// Whether the store holds an open incident for this service.
    pub fn has_open_incident(&self, service_id: &str) -> (r: bool)
        ensures
            r == has_open_incident_for(self@, service_id@),
    {
        let mut j: usize = 0;
        while j < self.incidents.len()
            invariant
                j <= self.incidents@.len(),
                forall|k: int|
                    0 <= k < j ==> !(#[trigger] self@.incidents[k].service_id == service_id@
                        && self@.incidents[k].end_time is None),
            decreases self.incidents@.len() - j,
        {
            if str_eq(self.incidents[j].service_id.as_str(), service_id)
                && self.incidents[j].end_time.is_none() {
                proof {
                    assert(self@.incidents[j as int].service_id == service_id@);
                    assert(has_open_incident_for(self@, service_id@));
                }
                return true;
            }
            j = j + 1;
        }
        false
    }

    /// Creates an incident for a service at `now` with the given description
    /// and returns its id; an unknown identifier is an error and changes
    /// nothing.
    pub fn add_incident(&mut self, service_id: &str, description: &str, now: i64) -> (r: Result<
        i32,
        MonitoringError,
    >)
        requires
            old(self).wf(),
            old(self)@.next_incident_id < i32::MAX as int,
        ensures
            final(self).wf(),
            match r {
                Ok(id) => has_service(old(self)@.services, service_id@) && id as int == old(
                    self,
                )@.next_incident_id && final(self)@ == with_incident(
                    old(self)@,
                    service_id@,
                    description@,
                    now,
                ),
                Err(_) => !has_service(old(self)@.services, service_id@) && final(self)@ == old(
                    self,
                )@,
            },
    {
        let ghost pre = self@;
        match self.find_service(service_id) {
            None => Err(MonitoringError(String::from_str("Unknown service"))),
            Some(j) => {
                let id = self.next_incident_id;
                let inc = Incident {
                    id,
                    service_id: service_id.to_owned(),
                    service_name: self.services[j].name.clone(),
                    start_time: now,
                    end_time: None,
                    description: description.to_owned(),
                };
                self.incidents.push(inc);
                self.next_incident_id = id + 1;
                proof {
                    let post = with_incident(pre, service_id@, description@, now);
                    assert(self@.incidents =~= post.incidents);
                    assert(self@.services =~= post.services);
                    assert(self@ == post);
                    assert forall|a: int|
                        0 <= a < self@.incidents.len() implies 1 <= #[trigger] self@.incidents[a].id
                        < self@.next_incident_id by {
                        if a < pre.incidents.len() {
                            assert(pre.incidents[a].id < pre.next_incident_id);
                        }
                    }
                    assert(self.wf());
                }
                Ok(id)
            }
        }
    }

    /// Closes the incident with this id at `now`; already closed or unknown
    /// ids change nothing, so closing is idempotent.
    pub fn end_incident(&mut self, incident_id: i32, now: i64)
        requires
            old(self).wf(),
        ensures
            final(self).wf(),
            final(self)@ == close_one_incident(old(self)@, incident_id, now),
    {
        let ghost pre = self@;
        let ghost post = close_one_incident(pre, incident_id, now);
        let mut j: usize = 0;
        while j < self.incidents.len()
            invariant
                j <= self.incidents@.len(),
                self@.incidents.len() == pre.incidents.len(),
                self@.services == pre.services,
                self@.next_incident_id == pre.next_incident_id,
                post == close_one_incident(pre, incident_id, now),
                forall|k: int| 0 <= k < j ==> #[trigger] self@.incidents[k] == post.incidents[k],
                forall|k: int|
                    j <= k < pre.incidents.len() ==> #[trigger] self@.incidents[k]
                        == pre.incidents[k],
            decreases self.incidents@.len() - j,
        {
            let ghost svpre = self@;
            let ghost vpre = self.incidents@;
            if self.incidents[j].id == incident_id && self.incidents[j].end_time.is_none() {
                let inc = &mut self.incidents[j];
                inc.end_time = Some(now);
            }
            proof {
                let prev = pre.incidents[j as int];
                assert(post.incidents[j as int] == (if prev.id == incident_id
                    && prev.end_time is None {
                    IncidentModel { end_time: Some(now), ..prev }
                } else {
                    prev
                }));
                assert(svpre.incidents[j as int] == pre.incidents[j as int]);
                assert(svpre.incidents[j as int] == vpre[j as int]@);
                assert(self@.incidents[j as int] == self.incidents@[j as int]@);
                assert(self@.incidents[j as int] == post.incidents[j as int]);
                assert forall|k: int|
                    0 <= k < j + 1 implies #[trigger] self@.incidents[k] == post.incidents[k] by {
                    if k < j {
                        assert(self.incidents@[k] == vpre[k]);
                        assert(svpre.incidents[k] == post.incidents[k]);
                        assert(self@.incidents[k] == vpre[k]@);
                        assert(svpre.incidents[k] == vpre[k]@);
                    }
                }
                assert forall|k: int|
                    j + 1 <= k < pre.incidents.len() implies #[trigger] self@.incidents[k]
                    == pre.incidents[k] by {
                    assert(self.incidents@[k] == vpre[k]);
                    assert(svpre.incidents[k] == pre.incidents[k]);
                    assert(self@.incidents[k] == vpre[k]@);
                    assert(svpre.incidents[k] == vpre[k]@);
                }
            }
            j = j + 1;
        }
        proof {
            assert(self@.incidents =~= post.incidents);
            assert(self@ == post);
            assert forall|a: int|
                0 <= a < self@.incidents.len() implies 1 <= #[trigger] self@.incidents[a].id
                < self@.next_incident_id by {
                assert(pre.incidents[a].id < pre.next_incident_id);
            }
            assert(self.wf());
        }
    }

    /// Closes every open incident of a service at `now`, however many there
    /// are; closed incidents and other services' incidents are untouched.
    pub fn close_open_incidents(&mut self, service_id: &str, now: i64)
        requires
            old(self).wf(),
        ensures
            final(self).wf(),
            final(self)@ == close_incidents(old(self)@, service_id@, now),
    {
        let ghost pre = self@;
        let ghost post = close_incidents(pre, service_id@, now);
        let mut j: usize = 0;
        while j < self.incidents.len()
            invariant
                j <= self.incidents@.len(),
                self@.incidents.len() == pre.incidents.len(),
                self@.services == pre.services,
                self@.next_incident_id == pre.next_incident_id,
                post == close_incidents(pre, service_id@, now),
                forall|k: int| 0 <= k < j ==> #[trigger] self@.incidents[k] == post.incidents[k],
                forall|k: int|
                    j <= k < pre.incidents.len() ==> #[trigger] self@.incidents[k]
                        == pre.incidents[k],
            decreases self.incidents@.len() - j,
        {
            let ghost svpre = self@;
            let ghost vpre = self.incidents@;
            if str_eq(self.incidents[j].service_id.as_str(), service_id)
                && self.incidents[j].end_time.is_none() {
                let inc = &mut self.incidents[j];
                inc.end_time = Some(now);
            }
            proof {
                let prev = pre.incidents[j as int];
                assert(post.incidents[j as int] == (if prev.service_id == service_id@
                    && prev.end_time is None {
                    IncidentModel { end_time: Some(now), ..prev }
                } else {
                    prev
                }));
                assert(svpre.incidents[j as int] == pre.incidents[j as int]);
                assert(svpre.incidents[j as int] == vpre[j as int]@);
                assert(self@.incidents[j as int] == self.incidents@[j as int]@);
                assert(self@.incidents[j as int] == post.incidents[j as int]);
                assert forall|k: int|
                    0 <= k < j + 1 implies #[trigger] self@.incidents[k] == post.incidents[k] by {
                    if k < j {
                        assert(self.incidents@[k] == vpre[k]);
                        assert(svpre.incidents[k] == post.incidents[k]);
                        assert(self@.incidents[k] == vpre[k]@);
                        assert(svpre.incidents[k] == vpre[k]@);
                    }
                }
                assert forall|k: int|
                    j + 1 <= k < pre.incidents.len() implies #[trigger] self@.incidents[k]
                    == pre.incidents[k] by {
                    assert(self.incidents@[k] == vpre[k]);
                    assert(svpre.incidents[k] == pre.incidents[k]);
                    assert(self@.incidents[k] == vpre[k]@);
                    assert(svpre.incidents[k] == vpre[k]@);
                }
            }
            j = j + 1;
        }
        proof {
            assert(self@.incidents =~= post.incidents);
            assert(self@ == post);
            assert forall|a: int|
                0 <= a < self@.incidents.len() implies 1 <= #[trigger] self@.incidents[a].id
                < self@.next_incident_id by {
                assert(pre.incidents[a].id < pre.next_incident_id);
            }
            assert(self.wf());
        }
    }

    /// Creates a service from its human-readable name and probe target, or
    /// refreshes the name and target of the service already registered under
    /// the name's normalized identifier; a name that normalizes to nothing is
    /// an error and changes nothing.
    pub fn add_service(&mut self, name: &str, server_url: &str) -> (r: Result<(), MonitoringError>)
        requires
            old(self).wf(),
        ensures
            final(self).wf(),
            match r {
                Ok(_) => service_id_of(name@).len() > 0 && final(self)@ == upsert_service(
                    old(self)@,
                    service_id_of(name@).map_values(|b: u8| b as char),
                    name@,
                    server_url@,
                ),
                Err(_) => service_id_of(name@).len() == 0 && final(self)@ == old(self)@,
            },
    {
        let id = match format_service_id(name) {
            Ok(id) => id,
            Err(e) => {
                return Err(e);
            },
        };
        let ghost pre = self@;
        let ghost post = upsert_service(pre, id@, name@, server_url@);
        match self.find_service(id.as_str()) {
            Some(j) => {
                let svc = &mut self.services[j];
                svc.name = name.to_owned();
                svc.server_url = server_url.to_owned();
                proof {
                    assert(self@.services =~= post.services);
                    assert(self@ == post);
                }
            },
            None => {
                self.services.push(
                    Service {
                        id,
                        name: name.to_owned(),
                        server_url: server_url.to_owned(),
                        response_times: Vec::new(),
                        is_online: false,
                    },
                );
                proof {
                    assert(self@.services =~= post.services);
                    assert(self@ == post);
                }
            },
        }
        proof {
            assert forall|a: int, b: int|
                #![trigger self@.services[a].id, self@.services[b].id]
                0 <= a < b < self@.services.len() implies self@.services[a].id
                != self@.services[b].id by {
                if b < pre.services.len() {
                    assert(pre.services[a].id != pre.services[b].id);
                } else {
                    assert(!has_service(pre.services, id@));
                    assert(pre.services[a].id != id@);
                }
            }
            assert(self.wf());
        }
        Ok(())
    }
}

} // verus!
