//! The state of each library's background scan: starting one while another
//! runs is refused, and the end of a scan records its counts or its error.
use vstd::prelude::*;

use std::collections::HashMap;

use crate::error::{ApiError, STATUS_CONFLICT};
use crate::scanner::ScanStats;

verus! {

broadcast use {vstd::string::group_string_axioms, vstd::std_specs::hash::group_hash_axioms};

/// The counts of a finished scan, as served.
#[derive(Clone, Copy)]
pub struct ScanStatsView {
    pub seen: u64,
    pub inserted: u64,
    pub updated: u64,
    pub unchanged: u64,
    pub removed: u64,
    pub failed: u64,
}

impl ScanStatsView {
    /// The counts of `s`.
    pub fn from_stats(s: &ScanStats) -> (v: ScanStatsView)
        ensures
            v.seen == s.seen && v.inserted == s.inserted && v.updated == s.updated && v.unchanged
                == s.unchanged && v.removed == s.removed && v.failed == s.failed,
    {
        ScanStatsView {
            seen: s.seen,
            inserted: s.inserted,
            updated: s.updated,
            unchanged: s.unchanged,
            removed: s.removed,
            failed: s.failed,
        }
    }
}

/// The scan state of one library.
pub struct ScanState {
    pub running: bool,
    pub started_at: Option<i64>,
    pub finished_at: Option<i64>,
    pub last_stats: Option<ScanStatsView>,
    pub last_error: Option<String>,
}

/// The state of a library that was never scanned.
pub open spec fn idle_state() -> ScanState {
    ScanState {
        running: false,
        started_at: None,
        finished_at: None,
        last_stats: None,
        last_error: None,
    }
}

impl Default for ScanState {
    fn default() -> (s: Self)
        ensures
            s == idle_state(),
    {
        ScanState {
            running: false,
            started_at: None,
            finished_at: None,
            last_stats: None,
            last_error: None,
        }
    }
}

impl Clone for ScanState {
    fn clone(&self) -> (r: Self)
        ensures
            r == *self,
    {
        ScanState {
            running: self.running,
            started_at: self.started_at,
            finished_at: self.finished_at,
            last_stats: self.last_stats,
            last_error: match &self.last_error {
                Some(e) => Some(e.clone()),
                None => None,
            },
        }
    }
}

/// A scan started at `now` from state `s`: running, with no finish time and
/// no error; the last counts are kept.
pub open spec fn started(s: ScanState, now: i64) -> ScanState {
    ScanState {
        running: true,
        started_at: Some(now),
        finished_at: None,
        last_error: None,
        ..s
    }
}

/// A scan that ended at `now` with `outcome`: no longer running; its counts
/// or its error are recorded, and the other one is kept.
pub open spec fn finished(s: ScanState, now: i64, outcome: Result<ScanStatsView, String>) -> ScanState {
    match outcome {
        Ok(v) => ScanState { running: false, finished_at: Some(now), last_stats: Some(v), ..s },
        Err(e) => ScanState { running: false, finished_at: Some(now), last_error: Some(e), ..s },
    }
}

/// What starting a scan of library `id` at `now` does to the states: `None`
/// (refused) while one runs, else the states with that library started.
pub open spec fn begin_step(m: Map<i64, ScanState>, id: i64, now: i64) -> Option<Map<i64, ScanState>> {
    if state_of(m, id).running {
        None
    } else {
        Some(m.insert(id, started(state_of(m, id), now)))
    }
}

/// Start attempts for library `id` at the given times, one after another
/// (as the lock that guards the states orders them), with no scan finishing
/// in between: the final states and, for each attempt, whether it was accepted.
pub open spec fn run_begins(m: Map<i64, ScanState>, id: i64, times: Seq<i64>) -> (Map<i64, ScanState>, Seq<bool>)
    decreases times.len(),
{
    if times.len() == 0 {
        (m, Seq::empty())
    } else {
        let (m1, acc) = run_begins(m, id, times.drop_last());
        match begin_step(m1, id, times.last()) {
            Some(m2) => (m2, acc.push(true)),
            None => (m1, acc.push(false)),
        }
    }
}

/// Only one scan of a library runs at a time: of any number of start
/// attempts with no scan finishing in between, at most the first is
/// accepted (exactly the first when the library was idle), and the library
/// then runs the scan started at that attempt's time.
pub proof fn lemma_one_scan_at_a_time(m: Map<i64, ScanState>, id: i64, times: Seq<i64>)
    ensures
        ({
            let (m2, accepted) = run_begins(m, id, times);
            &&& accepted.len() == times.len()
            &&& forall|i: int| 1 <= i < accepted.len() ==> !(#[trigger] accepted[i])
            &&& times.len() > 0 ==> (accepted[0] == !state_of(m, id).running)
            &&& times.len() > 0 ==> state_of(m2, id).running
            &&& (times.len() > 0 && !state_of(m, id).running) ==> state_of(m2, id).started_at
                == Some(times[0])
            &&& times.len() > 0 ==> m2 == run_begins(m, id, times.take(1)).0
            &&& forall|other: i64| other != id ==> state_of(m2, other) == state_of(m, other)
        }),
    decreases times.len(),
{
    if times.len() > 0 {
        let t = times.drop_last();
        lemma_one_scan_at_a_time(m, id, t);
        let (m1, acc) = run_begins(m, id, t);
        if t.len() == 0 {
            assert(times.take(1) =~= times);
        } else {
            assert(t.take(1) =~= times.take(1));
            assert(t[0] == times[0]);
        }
    }
}

/// The scan state of every library, by library id.
pub struct ScanStates {
    pub states: HashMap<i64, ScanState>,
}

/// The state of library `id`: the stored one, or the idle state.
pub open spec fn state_of(m: Map<i64, ScanState>, id: i64) -> ScanState {
    if m.contains_key(id) {
        m[id]
    } else {
        idle_state()
    }
}

impl ScanStates {
    pub open spec fn view(&self) -> Map<i64, ScanState> {
        self.states@
    }

    pub fn new() -> (s: ScanStates)
        ensures
            s.view() == Map::<i64, ScanState>::empty(),
    {
        ScanStates { states: HashMap::new() }
    }

    /// A copy of the state of library `id`.
    pub fn status(&self, id: i64) -> (s: ScanState)
        ensures
            s == state_of(self.view(), id),
    {
        match self.states.get(&id) {
            Some(s) => s.clone(),
            None => ScanState::default(),
        }
    }

    /// Starts a scan of library `id` at `now`, answering the new state; 409
    /// "scan already running" (and nothing changes) while one runs.
    pub fn begin(&mut self, id: i64, now: i64) -> (r: Result<ScanState, ApiError>)
        ensures
            match begin_step(old(self).view(), id, now) {
                None => {
                    &&& r matches Err(e) && e.status == STATUS_CONFLICT && e.message@
                        == "scan already running"@
                    &&& final(self).view() == old(self).view()
                },
                Some(m) => {
                    &&& r == Ok::<ScanState, ApiError>(started(state_of(old(self).view(), id), now))
                    &&& final(self).view() == m
                },
            },
    {
        let s = self.status(id);
        if s.running {
            return Err(
                ApiError { status: STATUS_CONFLICT, message: String::from_str("scan already running") },
            );
        }
        let next = ScanState {
            running: true,
            started_at: Some(now),
            finished_at: None,
            last_stats: s.last_stats,
            last_error: None,
        };
        self.states.insert(id, next.clone());
        Ok(next)
    }

    /// Records the end of the scan of library `id` at `now`.
    pub fn finish(&mut self, id: i64, now: i64, outcome: Result<ScanStatsView, String>)
        ensures
            final(self).view() == old(self).view().insert(
                id,
                finished(state_of(old(self).view(), id), now, outcome),
            ),
    {
        let s = self.status(id);
        let next = match outcome {
            Ok(v) => ScanState {
                running: false,
                started_at: s.started_at,
                finished_at: Some(now),
                last_stats: Some(v),
                last_error: s.last_error,
            },
            Err(e) => ScanState {
                running: false,
                started_at: s.started_at,
                finished_at: Some(now),
                last_stats: s.last_stats,
                last_error: Some(e),
            },
        };
        self.states.insert(id, next);
    }
}

/// A started scan refuses a second start until it finishes; finishing it
/// records when it started and ended and how it went, makes the library
/// startable again, and leaves the other libraries as they were.
pub proof fn lemma_scan_cycle(
    m: Map<i64, ScanState>,
    id: i64,
    other: i64,
    t1: i64,
    t2: i64,
    outcome: Result<ScanStatsView, String>,
)
    requires
        !state_of(m, id).running,
        other != id,
    ensures
        ({
            let m1 = m.insert(id, started(state_of(m, id), t1));
            let m2 = m1.insert(id, finished(state_of(m1, id), t2, outcome));
            &&& state_of(m1, id).running
            &&& state_of(m1, other) == state_of(m, other)
            &&& !state_of(m2, id).running
            &&& state_of(m2, id).started_at == Some(t1)
            &&& state_of(m2, id).finished_at == Some(t2)
            &&& state_of(m2, other) == state_of(m, other)
            &&& match outcome {
                Ok(v) => state_of(m2, id).last_stats == Some(v) && state_of(m2, id).last_error
                    is None,
                Err(e) => state_of(m2, id).last_error == Some(e) && state_of(m2, id).last_stats
                    == state_of(m, id).last_stats,
            }
        }),
{
}

} // verus!
