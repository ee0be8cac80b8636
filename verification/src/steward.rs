//! The process steward: the registry of named process states, the broadcast
//! shutdown signal, and the poll that confirms every worker has drained.

use vstd::prelude::*;
use vstd::string::StringExecFns;

use crate::log::{ProcessStatus, ProcessStatusView};

verus! {

/// Lifecycle state of one process: `START -> READY -> CLOSED`, monotonic.
#[derive(Clone, Copy, Debug, PartialEq, Eq, Structural)]
pub enum ProcessState {
    START,
    READY,
    CLOSED,
}

impl ProcessState {
    pub open spec fn spec_str(self) -> Seq<char> {
        match self {
            ProcessState::START => "START"@,
            ProcessState::READY => "READY"@,
            ProcessState::CLOSED => "CLOSED"@,
        }
    }

    pub fn to_string(&self) -> (r: String)
        ensures
            r@ == self.spec_str(),
    {
        match self {
            ProcessState::START => String::from_str("START"),
            ProcessState::READY => String::from_str("READY"),
            ProcessState::CLOSED => String::from_str("CLOSED"),
        }
    }
}

impl Default for ProcessState {
    fn default() -> (r: Self)
        ensures
            r == ProcessState::START,
    {
        ProcessState::START
    }
}

/// Mathematical content of the registry: the map from process names to
/// their recorded state strings.
pub open spec fn status_map(s: Seq<ProcessStatusView>) -> Map<Seq<char>, Seq<char>>
    decreases s.len(),
{
    if s.len() == 0 {
        Map::<Seq<char>, Seq<char>>::empty()
    } else {
        status_map(s.drop_last()).insert(s.last().process_id, s.last().state)
    }
}

/// No two records name the same process.
pub open spec fn distinct_process_ids(s: Seq<ProcessStatusView>) -> bool {
    forall|i: int, j: int|
        0 <= i < j < s.len() ==> (#[trigger] s[i]).process_id != (#[trigger] s[j]).process_id
}

pub proof fn lemma_status_map_contains(s: Seq<ProcessStatusView>, k: Seq<char>)
    ensures
        status_map(s).dom().contains(k) <==> exists|i: int|
            0 <= i < s.len() && (#[trigger] s[i]).process_id == k,
    decreases s.len(),
{
    if s.len() > 0 {
        lemma_status_map_contains(s.drop_last(), k);
        if status_map(s).dom().contains(k) {
            if s.last().process_id != k {
                let i = choose|i: int|
                    0 <= i < s.drop_last().len() && (#[trigger] s.drop_last()[i]).process_id == k;
                assert(s[i].process_id == k);
            } else {
                assert(s[s.len() - 1].process_id == k);
            }
        } else {
            assert(forall|i: int|
                0 <= i < s.len() - 1 ==> (#[trigger] s[i]).process_id == s.drop_last()[
                    i
                ].process_id);
        }
    }
}

pub proof fn lemma_status_map_value(s: Seq<ProcessStatusView>, i: int)
    requires
        distinct_process_ids(s),
        0 <= i < s.len(),
    ensures
        status_map(s).dom().contains(s[i].process_id),
        status_map(s)[s[i].process_id] == s[i].state,
    decreases s.len(),
{
    if i == s.len() - 1 {
        assert(status_map(s) == status_map(s.drop_last()).insert(
            s.last().process_id,
            s.last().state,
        ));
    } else {
        assert(s.drop_last()[i] == s[i]);
        lemma_status_map_value(s.drop_last(), i);
        assert(s[i].process_id != s.last().process_id);
    }
}

pub proof fn lemma_status_map_update(s: Seq<ProcessStatusView>, i: int, r: ProcessStatusView)
    requires
        distinct_process_ids(s),
        0 <= i < s.len(),
        r.process_id == s[i].process_id,
    ensures
        status_map(s.update(i, r)) =~= status_map(s).insert(r.process_id, r.state),
        distinct_process_ids(s.update(i, r)),
    decreases s.len(),
{
    let t = s.update(i, r);
    assert(forall|j: int| 0 <= j < s.len() && j != i ==> t[j] == s[j]);
    if i == s.len() - 1 {
        assert(t.drop_last() =~= s.drop_last());
        assert(status_map(t) == status_map(s.drop_last()).insert(r.process_id, r.state));
        assert(status_map(s) == status_map(s.drop_last()).insert(
            s.last().process_id,
            s.last().state,
        ));
        assert(status_map(t) =~= status_map(s).insert(r.process_id, r.state));
    } else {
        assert(t.drop_last() =~= s.drop_last().update(i, r));
        assert(s.drop_last()[i] == s[i]);
        lemma_status_map_update(s.drop_last(), i, r);
        assert(s.last().process_id != r.process_id);
        assert(status_map(t) == status_map(s.drop_last()).insert(r.process_id, r.state).insert(
            s.last().process_id,
            s.last().state,
        ));
        assert(status_map(t) =~= status_map(s).insert(r.process_id, r.state));
    }
}

pub proof fn lemma_status_map_push(s: Seq<ProcessStatusView>, r: ProcessStatusView)
    ensures
        status_map(s.push(r)) =~= status_map(s).insert(r.process_id, r.state),
{
    assert(s.push(r).drop_last() =~= s);
    assert(s.push(r).last() == r);
}

/// The single source of truth for whether the system may be considered
/// stopped: the status registry plus the broadcast shutdown signal.
pub struct Steward {
    process_status_table: Vec<ProcessStatus>,
    shutdown_requested: bool,
}

impl Steward {
    /// The map from process names to their recorded state strings.
    pub closed spec fn view(&self) -> Map<Seq<char>, Seq<char>> {
        status_map(self.process_status_table.deep_view())
    }

    pub closed spec fn wf(&self) -> bool {
        distinct_process_ids(self.process_status_table.deep_view())
    }

    /// Whether the broadcast shutdown signal has been raised.
    pub closed spec fn shutdown_signalled(&self) -> bool {
        self.shutdown_requested
    }

    pub fn new() -> (r: Self)
        ensures
            r.wf(),
            r.view() =~= Map::<Seq<char>, Seq<char>>::empty(),
            !r.shutdown_signalled(),
    {
        Steward { process_status_table: Vec::new(), shutdown_requested: false }
    }

    /// The recorded state of `pid`, or `NOT_FOUND` for an unregistered
    /// process.
    pub fn get_process_state(&self, pid: String) -> (r: String)
        requires
            self.wf(),
        ensures
            self.view().dom().contains(pid@) ==> r@ == self.view()[pid@],
            !self.view().dom().contains(pid@) ==> r@ == "NOT_FOUND"@,
    {
        let ghost tv = self.process_status_table.deep_view();
        let n = self.process_status_table.len();
        let mut i: usize = 0;
        while i < n
            invariant
                n == self.process_status_table.len(),
                tv == self.process_status_table.deep_view(),
                i <= n,
                self.wf(),
                forall|j: int| 0 <= j < i ==> (#[trigger] tv[j]).process_id != pid@,
            decreases n - i,
        {
            if self.process_status_table[i].process_id == pid {
                proof {
                    lemma_status_map_value(tv, i as int);
                }
                return self.process_status_table[i].state.clone();
            }
            i += 1;
        }
        proof {
            lemma_status_map_contains(tv, pid@);
        }
        String::from_str("NOT_FOUND")
    }

    /// Upsert the record for `pid` to `state`; no other record changes and
    /// the shutdown signal is untouched.
    fn upsert(&mut self, pid: String, state: ProcessState)
        requires
            old(self).wf(),
        ensures
            final(self).wf(),
            final(self).view() =~= old(self).view().insert(pid@, state.spec_str()),
            final(self).shutdown_signalled() == old(self).shutdown_signalled(),
    {
        let ghost tv = old(self).process_status_table.deep_view();
        let record = ProcessStatus::new(pid.clone(), state);
        let ghost rv = record@;
        let n = self.process_status_table.len();
        let mut i: usize = 0;
        while i < n
            invariant
                n == self.process_status_table.len(),
                tv == old(self).process_status_table.deep_view(),
                self.process_status_table.deep_view() == tv,
                self.shutdown_requested == old(self).shutdown_requested,
                i <= n,
                self.wf(),
                rv.process_id == pid@,
                rv.state == state.spec_str(),
                record@ == rv,
                forall|j: int| 0 <= j < i ==> (#[trigger] tv[j]).process_id != pid@,
            decreases n - i,
        {
            if self.process_status_table[i].process_id == pid {
                proof {
                    lemma_status_map_update(tv, i as int, rv);
                }
                self.process_status_table.set(i, record);
                proof {
                    assert(self.process_status_table.deep_view() =~= tv.update(i as int, rv));
                }
                return ;
            }
            i += 1;
        }
        proof {
            lemma_status_map_contains(tv, pid@);
            lemma_status_map_push(tv, rv);
            assert forall|a: int, b: int| 0 <= a < b < tv.push(rv).len() implies (#[trigger] tv.push(
                rv,
            )[a]).process_id != (#[trigger] tv.push(rv)[b]).process_id by {
                if b == tv.len() {
                    assert(tv.push(rv)[a] == tv[a]);
                    assert(tv.push(rv)[b] == rv);
                } else {
                    assert(tv.push(rv)[a] == tv[a]);
                    assert(tv.push(rv)[b] == tv[b]);
                }
            }
        }
        self.process_status_table.push(record);
        proof {
            assert(self.process_status_table.deep_view() =~= tv.push(rv));
        }
    }

    /// Register that `pid` has been spawned. Idempotent.
    pub fn process_start(&mut self, pid: String)
        requires
            old(self).wf(),
        ensures
            final(self).wf(),
            final(self).view() =~= old(self).view().insert(pid@, ProcessState::START.spec_str()),
            final(self).shutdown_signalled() == old(self).shutdown_signalled(),
    {
        self.upsert(pid, ProcessState::START);
    }

    /// Register that `pid` has finished its one-time setup and entered its
    /// main loop.
    pub fn process_ready(&mut self, pid: String)
        requires
            old(self).wf(),
        ensures
            final(self).wf(),
            final(self).view() =~= old(self).view().insert(pid@, ProcessState::READY.spec_str()),
            final(self).shutdown_signalled() == old(self).shutdown_signalled(),
    {
        self.upsert(pid, ProcessState::READY);
    }

    /// Register that `pid` has observed the shutdown signal and exited.
    pub fn process_stop(&mut self, pid: String)
        requires
            old(self).wf(),
        ensures
            final(self).wf(),
            final(self).view() =~= old(self).view().insert(pid@, ProcessState::CLOSED.spec_str()),
            final(self).shutdown_signalled() == old(self).shutdown_signalled(),
    {
        self.upsert(pid, ProcessState::CLOSED);
    }

    /// Raise the broadcast shutdown signal; does not block or wait, and
    /// touches no status record.
    pub fn safe_shutdown(&mut self)
        requires
            old(self).wf(),
        ensures
            final(self).wf(),
            final(self).view() == old(self).view(),
            final(self).shutdown_signalled(),
    {
        self.shutdown_requested = true;
    }

    /// Whether a shutdown has been requested; every worker's cooperative
    /// loop polls this.
    pub fn is_shutdown_requested(&self) -> (r: bool)
        ensures
            r == self.shutdown_signalled(),
    {
        self.shutdown_requested
    }

    /// Every record whose process has not reached `CLOSED`: the poll the
    /// shutdown-confirmation routine repeats until it comes back empty.
    #[verifier::rlimit(30)]
    pub fn check_shutdown_status(&self) -> (r: Vec<ProcessStatus>)
        requires
            self.wf(),
        ensures
            forall|k: int|
                0 <= k < r.deep_view().len() ==> (#[trigger] r.deep_view()[k]).state
                    != "CLOSED"@,
            forall|k: int|
                0 <= k < r.deep_view().len() ==> self.view().dom().contains(
                    (#[trigger] r.deep_view()[k]).process_id,
                ) && self.view()[r.deep_view()[k].process_id] == r.deep_view()[k].state,
            forall|pid: Seq<char>|
                self.view().dom().contains(pid) && #[trigger] self.view()[pid] != "CLOSED"@
                    ==> exists|k: int|
                    0 <= k < r.deep_view().len() && (#[trigger] r.deep_view()[k]).process_id
                        == pid,
    {
        let ghost tv = self.process_status_table.deep_view();
        let closed = ProcessState::CLOSED.to_string();
        let n = self.process_status_table.len();
        let mut r: Vec<ProcessStatus> = Vec::new();
        let mut i: usize = 0;
        while i < n
            invariant
                n == self.process_status_table.len(),
                tv == self.process_status_table.deep_view(),
                i <= n,
                self.wf(),
                closed@ == "CLOSED"@,
                forall|k: int|
                    0 <= k < r.deep_view().len() ==> (#[trigger] r.deep_view()[k]).state
                        != "CLOSED"@,
                forall|k: int|
                    0 <= k < r.deep_view().len() ==> exists|j: int|
                        0 <= j < i && tv[j] == #[trigger] r.deep_view()[k],
                forall|j: int|
                    0 <= j < i && (#[trigger] tv[j]).state != "CLOSED"@ ==> exists|k: int|
                        0 <= k < r.deep_view().len() && #[trigger] r.deep_view()[k] == tv[j],
            decreases n - i,
        {
            let matches_closed = self.process_status_table[i].state == closed;
            if !matches_closed {
                let ghost pre = r.deep_view();
                r.push(self.process_status_table[i].clone());
                proof {
                    assert(r.deep_view().len() == pre.len() + 1);
                    assert(forall|k: int| 0 <= k < pre.len() ==> r.deep_view()[k] == pre[k]);
                    assert(r.deep_view()[pre.len() as int] == tv[i as int]);
                    assert(tv[i as int].state != "CLOSED"@);
                    assert forall|k: int| 0 <= k < r.deep_view().len() implies (
                    #[trigger] r.deep_view()[k]).state != "CLOSED"@ by {
                        if k < pre.len() {
                            assert(r.deep_view()[k] == pre[k]);
                        } else {
                            assert(r.deep_view()[k] == tv[i as int]);
                        }
                    }
                    assert forall|k: int| 0 <= k < r.deep_view().len() implies exists|j: int|
                        0 <= j < i + 1 && tv[j] == #[trigger] r.deep_view()[k] by {
                        if k < pre.len() {
                            assert(pre[k] == r.deep_view()[k]);
                            let j = choose|j: int| 0 <= j < i && tv[j] == pre[k];
                            assert(tv[j] == r.deep_view()[k]);
                        } else {
                            assert(tv[i as int] == r.deep_view()[k]);
                        }
                    }
                    assert forall|j: int|
                        0 <= j < i + 1 && (#[trigger] tv[j]).state != "CLOSED"@ implies exists|
                        k: int,
                    |
                        0 <= k < r.deep_view().len() && #[trigger] r.deep_view()[k] == tv[j] by {
                        if j < i {
                            let k = choose|k: int|
                                0 <= k < pre.len() && #[trigger] pre[k] == tv[j];
                            assert(r.deep_view()[k] == tv[j]);
                        } else {
                            assert(r.deep_view()[pre.len() as int] == tv[j]);
                        }
                    }
                }
            } else {
                proof {
                    assert(tv[i as int].state == "CLOSED"@);
                }
            }
            i += 1;
        }
        proof {
            assert forall|k: int| 0 <= k < r.deep_view().len() implies self.view().dom().contains(
                (#[trigger] r.deep_view()[k]).process_id,
            ) && self.view()[r.deep_view()[k].process_id] == r.deep_view()[k].state by {
                let e = r.deep_view()[k];
                let j = choose|j: int| 0 <= j < tv.len() && tv[j] == #[trigger] r.deep_view()[k];
                lemma_status_map_value(tv, j);
            }
            assert forall|pid: Seq<char>|
                self.view().dom().contains(pid) && #[trigger] self.view()[pid]
                    != "CLOSED"@ implies exists|k: int|
                0 <= k < r.deep_view().len() && (#[trigger] r.deep_view()[k]).process_id
                    == pid by {
                lemma_status_map_contains(tv, pid);
                let j = choose|j: int| 0 <= j < tv.len() && (#[trigger] tv[j]).process_id == pid;
                lemma_status_map_value(tv, j);
                assert(tv[j].state != "CLOSED"@);
                let k = choose|k: int|
                    0 <= k < r.deep_view().len() && #[trigger] r.deep_view()[k] == tv[j];
                assert(r.deep_view()[k].process_id == pid);
            }
        }
        r
    }
}

/// Shutdown drains: any poll result meeting `check_shutdown_status`'s
/// contract is empty exactly when every registered process has reached
/// `CLOSED` — so the confirmation loop can stop precisely when the whole
/// cohort has stopped, and never earlier.
pub proof fn lemma_shutdown_drains(m: Map<Seq<char>, Seq<char>>, r: Seq<ProcessStatusView>)
    requires
        forall|k: int| 0 <= k < r.len() ==> (#[trigger] r[k]).state != "CLOSED"@,
        forall|k: int|
            0 <= k < r.len() ==> m.dom().contains((#[trigger] r[k]).process_id) && m[r[
                k
            ].process_id] == r[k].state,
        forall|pid: Seq<char>|
            m.dom().contains(pid) && #[trigger] m[pid] != "CLOSED"@ ==> exists|k: int|
                0 <= k < r.len() && (#[trigger] r[k]).process_id == pid,
    ensures
        r.len() == 0 <==> (forall|pid: Seq<char>|
            m.dom().contains(pid) ==> #[trigger] m[pid] == "CLOSED"@),
{
    if r.len() == 0 {
        assert forall|pid: Seq<char>| m.dom().contains(pid) implies #[trigger] m[pid]
            == "CLOSED"@ by {
            if m[pid] != "CLOSED"@ {
                let k = choose|k: int| 0 <= k < r.len() && (#[trigger] r[k]).process_id == pid;
                assert(false);
            }
        }
    } else {
        let e = r[0];
        assert(m.dom().contains(e.process_id) && m[e.process_id] != "CLOSED"@);
    }
}

} // verus!
