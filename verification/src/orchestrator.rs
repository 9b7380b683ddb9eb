//! The probing cycle's orchestration logic.
//!
//! Each cycle probes every service once, concurrently; the outcomes arrive
//! in whatever order the probes complete. `run_cycle` consumes them in that
//! order: it keeps a lazily grown runtime-state entry per service name and
//! feeds each outcome through the incident tracker. Since the outcomes carry
//! distinct services, every probed service gains exactly one history sample
//! per cycle, whatever the completion order — the law at the end.

use vstd::prelude::*;
use vstd::string::StringExecFns;
use crate::identifier::{format_service_id, service_id_of, str_eq};
use crate::model::{StoreModel, ring_append, services_wf};
use crate::probe::{ProbeOutcome, outcome_sample};
use crate::store::MonitorStore;
use crate::tracker::{ServiceRuntimeState, eval_step, evaluate, lemma_eval_step_frame};

verus! {

/// One per-service entry of the runtime state map.
#[derive(Debug)]
pub struct StateEntry {
    pub name: String,
    pub state: ServiceRuntimeState,
}

/// The mathematical view of a runtime state entry.
pub ghost struct StateEntryModel {
    pub name: Seq<char>,
    pub has_open_incident: bool,
}

impl View for StateEntry {
    type V = StateEntryModel;

    open spec fn view(&self) -> StateEntryModel {
        StateEntryModel { name: self.name@, has_open_incident: self.state.has_open_incident }
    }
}

/// The runtime state map: one entry per service name seen, grown lazily and
/// never shrunk.
#[derive(Debug)]
pub struct RuntimeStates {
    pub entries: Vec<StateEntry>,
}

impl View for RuntimeStates {
    type V = Seq<StateEntryModel>;

    open spec fn view(&self) -> Seq<StateEntryModel> {
        self.entries@.map_values(|e: StateEntry| e@)
    }
}

/// Whether the map has an entry for this name.
pub open spec fn states_has(ss: Seq<StateEntryModel>, name: Seq<char>) -> bool {
    exists|j: int| 0 <= j < ss.len() && #[trigger] ss[j].name == name
}

/// The position of the entry for this name; meaningful when the names are
/// distinct and the entry exists.
pub open spec fn states_index(ss: Seq<StateEntryModel>, name: Seq<char>) -> int {
    choose|j: int| 0 <= j < ss.len() && #[trigger] ss[j].name == name
}

/// The flag stored for a name; clear for a name never seen.
pub open spec fn flag_of(ss: Seq<StateEntryModel>, name: Seq<char>) -> bool {
    if states_has(ss, name) {
        ss[states_index(ss, name)].has_open_incident
    } else {
        false
    }
}

/// The map with the flag of a known name replaced; an unknown name changes
/// nothing.
pub open spec fn set_flag(ss: Seq<StateEntryModel>, name: Seq<char>, flag: bool) -> Seq<
    StateEntryModel,
> {
    if states_has(ss, name) {
        ss.update(states_index(ss, name), StateEntryModel { name: name, has_open_incident: flag })
    } else {
        ss
    }
}

/// The map after a name is seen: unchanged if known, else grown by a clear
/// entry.
pub open spec fn ensure_state(ss: Seq<StateEntryModel>, name: Seq<char>) -> Seq<StateEntryModel> {
    if states_has(ss, name) {
        ss
    } else {
        ss.push(StateEntryModel { name: name, has_open_incident: false })
    }
}

impl RuntimeStates {
    /// Well-formedness: entry names are distinct.
    pub open spec fn wf(&self) -> bool {
        forall|j: int, k: int|
            #![trigger self@[j].name, self@[k].name]
            0 <= j < k < self@.len() ==> self@[j].name != self@[k].name
    }

    /// An empty map.
    pub fn new() -> (s: Self)
        ensures
            s.wf(),
            s@ == Seq::<StateEntryModel>::empty(),
    {
        let s = RuntimeStates { entries: Vec::new() };
        proof {
            assert(s@ =~= Seq::<StateEntryModel>::empty());
        }
        s
    }

    /// The position of the entry for this name, if any.
    fn find(&self, name: &str) -> (r: Option<usize>)
        requires
            self.wf(),
        ensures
            match r {
                Some(j) => j < self@.len() && self@[j as int].name == name@ && states_has(
                    self@,
                    name@,
                ) && states_index(self@, name@) == j as int,
                None => !states_has(self@, name@),
            },
    {
        let mut j: usize = 0;
        while j < self.entries.len()
            invariant
                self.wf(),
                j <= self@.len(),
                forall|k: int| 0 <= k < j ==> #[trigger] self@[k].name != name@,
            decreases self@.len() - j,
        {
            if str_eq(self.entries[j].name.as_str(), name) {
                proof {
                    assert(self@[j as int].name == name@);
                    assert(states_has(self@, name@));
                    let k = states_index(self@, name@);
                    if k != j {
                        assert(self@[k].name != self@[j as int].name);
                    }
                }
                return Some(j);
            }
            j = j + 1;
        }
        proof {
            if states_has(self@, name@) {
                let k = states_index(self@, name@);
                assert(self@[k].name != name@);
            }
        }
        None
    }

    /// Makes sure an entry exists for this name, clear when fresh.
    pub fn ensure_entry(&mut self, name: &str)
        requires
            old(self).wf(),
        ensures
            final(self).wf(),
            final(self)@ == ensure_state(old(self)@, name@),
    {
        let ghost pre = self@;
        match self.find(name) {
            Some(_) => {
            },
            None => {
                self.entries.push(
                    StateEntry {
                        name: name.to_owned(),
                        state: ServiceRuntimeState { has_open_incident: false },
                    },
                );
                proof {
                    assert(self@ =~= ensure_state(pre, name@));
                    assert forall|a: int, b: int|
                        #![trigger self@[a].name, self@[b].name]
                        0 <= a < b < self@.len() implies self@[a].name != self@[b].name by {
                        if b < pre.len() {
                            assert(pre[a].name != pre[b].name);
                        } else {
                            assert(!states_has(pre, name@));
                            assert(pre[a].name != name@);
                        }
                    }
                }
            },
        }
    }

    /// The flag stored for this name; clear for a name never seen.
    pub fn get_flag(&self, name: &str) -> (r: bool)
        requires
            self.wf(),
        ensures
            r == flag_of(self@, name@),
    {
        match self.find(name) {
            Some(j) => self.entries[j].state.has_open_incident,
            None => false,
        }
    }

    /// Stores the flag for a known name; an unknown name changes nothing.
    pub fn put_flag(&mut self, name: &str, flag: bool)
        requires
            old(self).wf(),
        ensures
            final(self).wf(),
            final(self)@ == set_flag(old(self)@, name@, flag),
    {
        let ghost pre = self@;
        match self.find(name) {
            None => {
            },
            Some(j) => {
                let e = &mut self.entries[j];
                e.state = ServiceRuntimeState { has_open_incident: flag };
                proof {
                    assert(self@ =~= set_flag(pre, name@, flag));
                    assert forall|a: int, b: int|
                        #![trigger self@[a].name, self@[b].name]
                        0 <= a < b < self@.len() implies self@[a].name != self@[b].name by {
                        assert(pre[a].name != pre[b].name);
                    }
                }
            },
        }
    }
}

/// What one completed probe hands the orchestrator: the service's name, the
/// outcome, the description an incident would carry, and the completion
/// time (milliseconds since the epoch).
#[derive(Debug)]
pub struct CycleOutcome {
    pub name: String,
    pub outcome: ProbeOutcome,
    pub description: String,
    pub now: i64,
}

/// The mathematical view of a completed probe.
pub ghost struct CycleOutcomeModel {
    pub name: Seq<char>,
    pub outcome: ProbeOutcome,
    pub description: Seq<char>,
    pub now: i64,
}

impl View for CycleOutcome {
    type V = CycleOutcomeModel;

    open spec fn view(&self) -> CycleOutcomeModel {
        CycleOutcomeModel {
            name: self.name@,
            outcome: self.outcome,
            description: self.description@,
            now: self.now,
        }
    }
}

/// The normalized identifier of a service name given as characters.
pub open spec fn normalized_name_id(name: Seq<char>) -> Seq<char> {
    service_id_of(name).map_values(|b: u8| b as char)
}

/// The effect of one completed probe on the store and the runtime states: a
/// name that normalizes to nothing is skipped; otherwise its entry is
/// ensured, the tracker's transition runs against the stored flag, and the
/// new flag is stored back.
pub open spec fn cycle_eval(
    s: StoreModel,
    ss: Seq<StateEntryModel>,
    o: CycleOutcomeModel,
) -> (StoreModel, Seq<StateEntryModel>) {
    let id = normalized_name_id(o.name);
    if id.len() == 0 {
        (s, ss)
    } else {
        let ss1 = ensure_state(ss, o.name);
        let flag = flag_of(ss1, o.name);
        let (s2, flag2) = eval_step(s, flag, id, o.outcome, o.description, o.now);
        (s2, set_flag(ss1, o.name, flag2))
    }
}

/// The effect of a whole cycle: the completed probes folded in the order
/// they arrived.
pub open spec fn cycle_fold(
    s: StoreModel,
    ss: Seq<StateEntryModel>,
    outs: Seq<CycleOutcomeModel>,
) -> (StoreModel, Seq<StateEntryModel>)
    decreases outs.len(),
{
    if outs.len() == 0 {
        (s, ss)
    } else {
        let r = cycle_eval(s, ss, outs[0]);
        cycle_fold(r.0, r.1, outs.drop_first())
    }
}

/// Runs one cycle over the completed probes, in the order they arrived:
/// exactly the fold of the tracker's transition.
pub fn run_cycle(store: &mut MonitorStore, states: &mut RuntimeStates, outcomes: &Vec<CycleOutcome>)
    requires
        old(store).wf(),
        old(states).wf(),
        old(store)@.next_incident_id + outcomes@.len() <= i32::MAX as int,
    ensures
        final(store).wf(),
        final(states).wf(),
        (final(store)@, final(states)@) == cycle_fold(
            old(store)@,
            old(states)@,
            outcomes@.map_values(|o: CycleOutcome| o@),
        ),
{
    let ghost outs = outcomes@.map_values(|o: CycleOutcome| o@);
    proof {
        assert(outs.skip(0) =~= outs);
    }
    let mut k: usize = 0;
    while k < outcomes.len()
        invariant
            k <= outs.len(),
            outs == outcomes@.map_values(|o: CycleOutcome| o@),
            outs.len() == outcomes@.len(),
            store.wf(),
            states.wf(),
            store@.next_incident_id <= old(store)@.next_incident_id + k,
            old(store)@.next_incident_id + outs.len() <= i32::MAX as int,
            cycle_fold(old(store)@, old(states)@, outs) == cycle_fold(
                store@,
                states@,
                outs.skip(k as int),
            ),
        decreases outs.len() - k,
    {
        let ghost spre = store@;
        let ghost sspre = states@;
        let o = &outcomes[k];
        proof {
            assert(outs.skip(k as int)[0] == o@);
            assert(outs.skip(k as int).drop_first() =~= outs.skip(k + 1));
        }
        match format_service_id(o.name.as_str()) {
            Err(_) => {
                proof {
                    assert(cycle_eval(spre, sspre, o@) == (spre, sspre));
                }
            },
            Ok(id) => {
                states.ensure_entry(o.name.as_str());
                let flag = states.get_flag(o.name.as_str());
                let new_flag = evaluate(
                    store,
                    flag,
                    id.as_str(),
                    o.outcome,
                    o.description.as_str(),
                    o.now,
                );
                states.put_flag(o.name.as_str(), new_flag);
                proof {
                    assert((store@, states@) == cycle_eval(spre, sspre, o@));
                    assert(store@.next_incident_id <= spre.next_incident_id + 1);
                }
            },
        }
        k = k + 1;
    }
    proof {
        assert(outs.skip(outs.len() as int) =~= Seq::<CycleOutcomeModel>::empty());
    }
}

/// A cycle whose outcomes name other services leaves a service's identifier
/// and history untouched.
proof fn lemma_cycle_untouched(
    s: StoreModel,
    ss: Seq<StateEntryModel>,
    outs: Seq<CycleOutcomeModel>,
    si: int,
)
    requires
        services_wf(s.services),
        0 <= si < s.services.len(),
        forall|a: int|
            0 <= a < outs.len() ==> #[trigger] normalized_name_id(outs[a].name)
                != s.services[si].id,
    ensures
        ({
            let r = cycle_fold(s, ss, outs);
            &&& services_wf(r.0.services)
            &&& r.0.services.len() == s.services.len()
            &&& r.0.services[si].id == s.services[si].id
            &&& r.0.services[si].response_times == s.services[si].response_times
        }),
    decreases outs.len(),
{
    if outs.len() > 0 {
        let o = outs[0];
        let id = normalized_name_id(o.name);
        let r1 = cycle_eval(s, ss, o);
        if id.len() == 0 {
            lemma_cycle_untouched(s, ss, outs.drop_first(), si);
        } else {
            let ss1 = ensure_state(ss, o.name);
            let flag = flag_of(ss1, o.name);
            lemma_eval_step_frame(s, flag, id, o.outcome, o.description, o.now);
            lemma_cycle_untouched(r1.0, r1.1, outs.drop_first(), si);
        }
    }
}

/// Law: in one cycle over concurrently completed probes of distinct
/// services, a probed service gains exactly one history sample — the one its
/// outcome carries — whatever order the outcomes arrived in; its identifier
/// and every other service's history stay as they were.
pub proof fn lemma_cycle_one_sample_each(
    s: StoreModel,
    ss: Seq<StateEntryModel>,
    outs: Seq<CycleOutcomeModel>,
    si: int,
    a: int,
)
    requires
        services_wf(s.services),
        0 <= si < s.services.len(),
        s.services[si].id.len() > 0,
        0 <= a < outs.len(),
        normalized_name_id(outs[a].name) == s.services[si].id,
        forall|x: int, y: int|
            #![trigger outs[x].name, outs[y].name]
            0 <= x < y < outs.len() ==> normalized_name_id(outs[x].name) != normalized_name_id(
                outs[y].name,
            ),
    ensures
        ({
            let r = cycle_fold(s, ss, outs);
            &&& services_wf(r.0.services)
            &&& r.0.services.len() == s.services.len()
            &&& r.0.services[si].id == s.services[si].id
            &&& r.0.services[si].response_times == ring_append(
                s.services[si].response_times,
                outcome_sample(outs[a].outcome),
            )
        }),
    decreases outs.len(),
{
    let o = outs[0];
    let id = normalized_name_id(o.name);
    let r1 = cycle_eval(s, ss, o);
    if a == 0 {
        // This outcome is the service's own: the step appends its sample,
        // and no later outcome names the same service again.
        let ss1 = ensure_state(ss, o.name);
        let flag = flag_of(ss1, o.name);
        lemma_eval_step_frame(s, flag, id, o.outcome, o.description, o.now);
        assert forall|x: int|
            0 <= x < outs.drop_first().len() implies #[trigger] normalized_name_id(
            outs.drop_first()[x].name,
        ) != r1.0.services[si].id by {
            assert(outs.drop_first()[x] == outs[x + 1]);
            assert(normalized_name_id(outs[0].name) != normalized_name_id(outs[x + 1].name));
        }
        lemma_cycle_untouched(r1.0, r1.1, outs.drop_first(), si);
    } else {
        // Another service's outcome: this step leaves the service alone, and
        // the rest of the cycle carries its own sample in.
        assert(normalized_name_id(outs[0].name) != normalized_name_id(outs[a].name));
        if id.len() == 0 {
            assert(outs.drop_first()[a - 1] == outs[a]);
            lemma_cycle_one_sample_each(s, ss, outs.drop_first(), si, a - 1);
        } else {
            let ss1 = ensure_state(ss, o.name);
            let flag = flag_of(ss1, o.name);
            lemma_eval_step_frame(s, flag, id, o.outcome, o.description, o.now);
            assert(outs.drop_first()[a - 1] == outs[a]);
            assert(r1.0.services[si].id == s.services[si].id);
            lemma_cycle_one_sample_each(r1.0, r1.1, outs.drop_first(), si, a - 1);
        }
    }
}

} // verus!
