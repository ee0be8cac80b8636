//! The durable task queue: priority-ordered, deferred-eligible delivery of
//! tasks within named queues, completion with callback continuation, and
//! in-place rescheduling. The store is modelled as a map from queue names to
//! task sequences; every operation's contract says exactly how it transforms
//! that map.

use vstd::prelude::*;

use crate::clock::now_millis;
use crate::ids::fresh_uuid;

verus! {

/// Task priority; a lower numeric rank is served first.
#[derive(Clone, Copy, Debug, PartialEq, Eq, Hash, Structural)]
pub enum TaskPriority {
    Low,
    Normal,
    High,
    ASAP,
}

impl TaskPriority {
    /// The numeric rank the dequeue order sorts by (ASAP first).
    pub open spec fn rank(self) -> int {
        match self {
            TaskPriority::ASAP => 1,
            TaskPriority::High => 2,
            TaskPriority::Normal => 3,
            TaskPriority::Low => 4,
        }
    }

    pub fn rank_value(&self) -> (r: u8)
        ensures
            r as int == self.rank(),
    {
        match self {
            TaskPriority::ASAP => 1,
            TaskPriority::High => 2,
            TaskPriority::Normal => 3,
            TaskPriority::Low => 4,
        }
    }
}

impl Default for TaskPriority {
    fn default() -> (r: Self)
        ensures
            r == TaskPriority::Normal,
    {
        TaskPriority::Normal
    }
}

/// Mathematical content of a callback descriptor.
pub ghost struct CallbackView {
    pub queue_name: Seq<char>,
    pub priority: TaskPriority,
    pub only_run_after: Option<i64>,
    pub command: Seq<char>,
    pub parameters: Seq<(Seq<char>, Seq<char>)>,
}

/// Mathematical content of a task record.
pub ghost struct TaskView {
    pub uuid: u128,
    pub priority: TaskPriority,
    pub timestamp: i64,
    pub only_run_after: Option<i64>,
    pub command: Seq<char>,
    pub parameters: Seq<(Seq<char>, Seq<char>)>,
    pub callback: Option<CallbackView>,
}

/// A serializable template for a follow-up task: enough to build and submit
/// a continuation from the store alone, never a closure or live reference.
pub struct CallbackTaskBuilder {
    queue_name: String,
    priority: TaskPriority,
    only_run_after: Option<i64>,
    command: String,
    parameters: Vec<(String, String)>,
}

impl View for CallbackTaskBuilder {
    type V = CallbackView;

    closed spec fn view(&self) -> CallbackView {
        CallbackView {
            queue_name: self.queue_name@,
            priority: self.priority,
            only_run_after: self.only_run_after,
            command: self.command@,
            parameters: self.parameters.deep_view(),
        }
    }
}

impl DeepView for CallbackTaskBuilder {
    type V = CallbackView;

    open spec fn deep_view(&self) -> CallbackView {
        self.view()
    }
}

/// One persisted unit of work.
pub struct Task {
    pub uuid: u128,
    pub priority: TaskPriority,
    pub timestamp: i64,
    pub only_run_after: Option<i64>,
    pub command: String,
    pub parameters: Vec<(String, String)>,
    pub callback: Option<CallbackTaskBuilder>,
}

impl View for Task {
    type V = TaskView;

    open spec fn view(&self) -> TaskView {
        TaskView {
            uuid: self.uuid,
            priority: self.priority,
            timestamp: self.timestamp,
            only_run_after: self.only_run_after,
            command: self.command@,
            parameters: self.parameters.deep_view(),
            callback: self.callback.deep_view(),
        }
    }
}

impl DeepView for Task {
    type V = TaskView;

    open spec fn deep_view(&self) -> TaskView {
        self.view()
    }
}

/// Clone a parameter list, preserving its content.
fn clone_params(v: &Vec<(String, String)>) -> (r: Vec<(String, String)>)
    ensures
        r.deep_view() =~= v.deep_view(),
{
    let n = v.len();
    let mut r: Vec<(String, String)> = Vec::new();
    let mut i: usize = 0;
    while i < n
        invariant
            n == v.len(),
            i <= n,
            r.deep_view() =~= v.deep_view().subrange(0, i as int),
        decreases n - i,
    {
        let p = (v[i].0.clone(), v[i].1.clone());
        proof {
            assert(p.deep_view() == (p.0@, p.1@));
            assert(p.0 == v@[i as int].0);
            assert(p == v@[i as int]);
            assert(p.deep_view() == v.deep_view()[i as int]);
        }
        let ghost pre = r.deep_view();
        r.push(p);
        proof {
            assert(r.deep_view().len() == pre.len() + 1);
            assert(forall|k: int| 0 <= k < pre.len() ==> r.deep_view()[k] == pre[k]);
            assert(r.deep_view()[pre.len() as int] == p.deep_view());
            assert(r.deep_view() =~= v.deep_view().subrange(0, i as int + 1));
        }
        i += 1;
    }
    proof {
        assert(v.deep_view().subrange(0, n as int) =~= v.deep_view());
    }
    r
}

impl Clone for CallbackTaskBuilder {
    fn clone(&self) -> (r: Self)
        ensures
            r@ == self@,
    {
        CallbackTaskBuilder {
            queue_name: self.queue_name.clone(),
            priority: self.priority,
            only_run_after: self.only_run_after,
            command: self.command.clone(),
            parameters: clone_params(&self.parameters),
        }
    }
}

impl Clone for Task {
    fn clone(&self) -> (r: Self)
        ensures
            r@ == self@,
    {
        Task {
            uuid: self.uuid,
            priority: self.priority,
            timestamp: self.timestamp,
            only_run_after: self.only_run_after,
            command: self.command.clone(),
            parameters: clone_params(&self.parameters),
            callback: match &self.callback {
                Some(cb) => Some(cb.clone()),
                None => None,
            },
        }
    }
}

/// A freshly built task carries the descriptor's payload, no callback of its
/// own, and a new identity and creation time.
pub open spec fn built_from(t: TaskView, b: CallbackView) -> bool {
    &&& t.priority == b.priority
    &&& t.only_run_after == b.only_run_after
    &&& t.command == b.command
    &&& t.parameters == b.parameters
    &&& t.callback is None
}

impl CallbackTaskBuilder {
    pub fn new(
        queue_name: String,
        priority: TaskPriority,
        only_run_after: Option<i64>,
        command: String,
        parameters: Vec<(String, String)>,
    ) -> (r: Self)
        ensures
            r@ == (CallbackView {
                queue_name: queue_name@,
                priority: priority,
                only_run_after: only_run_after,
                command: command@,
                parameters: parameters.deep_view(),
            }),
    {
        CallbackTaskBuilder { queue_name, priority, only_run_after, command, parameters }
    }

    pub fn get_queue_name(&self) -> (r: String)
        ensures
            r@ == self@.queue_name,
    {
        self.queue_name.clone()
    }

    /// Instantiate the follow-up task this descriptor describes.
    pub fn build(&self) -> (r: Task)
        ensures
            built_from(r@, self@),
    {
        Task::new(
            self.priority,
            self.only_run_after,
            self.command.clone(),
            clone_params(&self.parameters),
            None,
        )
    }
}

impl Task {
    /// A new task with the given payload; its identity is freshly generated
    /// and its creation time is read from the clock, so nothing is promised
    /// of either.
    pub fn new(
        priority: TaskPriority,
        only_run_after: Option<i64>,
        command: String,
        parameters: Vec<(String, String)>,
        callback: Option<CallbackTaskBuilder>,
    ) -> (r: Self)
        ensures
            r@.priority == priority,
            r@.only_run_after == only_run_after,
            r@.command == command@,
            r@.parameters == parameters.deep_view(),
            r@.callback == callback.deep_view(),
    {
        Task {
            uuid: fresh_uuid(),
            priority,
            timestamp: now_millis(),
            only_run_after,
            command,
            parameters,
            callback,
        }
    }

    /// The value recorded for `key`, if any: the first entry with that key.
    pub fn get_parameter(&self, key: &String) -> (r: Option<&String>)
        ensures
            match r {
                Some(v) => exists|i: int|
                    {
                        &&& 0 <= i < self@.parameters.len()
                        &&& #[trigger] self@.parameters[i].0 == key@
                        &&& self@.parameters[i].1 == v@
                        &&& forall|j: int| 0 <= j < i ==> #[trigger] self@.parameters[j].0 != key@
                    },
                None => forall|j: int|
                    0 <= j < self@.parameters.len() ==> #[trigger] self@.parameters[j].0 != key@,
            },
    {
        let n = self.parameters.len();
        let mut i: usize = 0;
        while i < n
            invariant
                n == self.parameters.len(),
                i <= n,
                forall|j: int| 0 <= j < i ==> #[trigger] self.parameters.deep_view()[j].0 != key@,
            decreases n - i,
        {
            if self.parameters[i].0 == *key {
                proof {
                    assert(self@.parameters[i as int] == self.parameters@[i as int].deep_view());
                    assert(self@.parameters[i as int].0 == key@);
                }
                return Some(&self.parameters[i].1);
            }
            i += 1;
        }
        None
    }
}

/// One named queue's backing collection.
pub struct NamedQueue {
    pub name: String,
    pub tasks: Vec<Task>,
}

/// Mathematical content of a collection of named queues: the map from queue
/// names to the sequences of task records they hold.
pub open spec fn queues_map(s: Seq<NamedQueue>) -> Map<Seq<char>, Seq<TaskView>>
    decreases s.len(),
{
    if s.len() == 0 {
        Map::<Seq<char>, Seq<TaskView>>::empty()
    } else {
        queues_map(s.drop_last()).insert(s.last().name@, s.last().tasks.deep_view())
    }
}

/// No two queues share a name, so the collection represents its map
/// faithfully.
pub open spec fn distinct_queue_names(s: Seq<NamedQueue>) -> bool {
    forall|i: int, j: int| 0 <= i < j < s.len() ==> #[trigger] s[i].name@ != #[trigger] s[j].name@
}

pub proof fn lemma_queues_map_contains(s: Seq<NamedQueue>, k: Seq<char>)
    ensures
        queues_map(s).dom().contains(k) <==> exists|i: int|
            0 <= i < s.len() && #[trigger] s[i].name@ == k,
    decreases s.len(),
{
    if s.len() > 0 {
        lemma_queues_map_contains(s.drop_last(), k);
        if queues_map(s).dom().contains(k) {
            if s.last().name@ != k {
                let i = choose|i: int|
                    0 <= i < s.drop_last().len() && #[trigger] s.drop_last()[i].name@ == k;
                assert(s[i].name@ == k);
            } else {
                assert(s[s.len() - 1].name@ == k);
            }
        } else {
            assert(forall|i: int|
                0 <= i < s.len() - 1 ==> #[trigger] s[i].name@ == s.drop_last()[i].name@);
        }
    }
}

pub proof fn lemma_queues_map_value(s: Seq<NamedQueue>, i: int)
    requires
        distinct_queue_names(s),
        0 <= i < s.len(),
    ensures
        queues_map(s).dom().contains(s[i].name@),
        queues_map(s)[s[i].name@] == s[i].tasks.deep_view(),
    decreases s.len(),
{
    if i == s.len() - 1 {
        assert(queues_map(s) == queues_map(s.drop_last()).insert(
            s.last().name@,
            s.last().tasks.deep_view(),
        ));
    } else {
        assert(s.drop_last()[i] == s[i]);
        lemma_queues_map_value(s.drop_last(), i);
        assert(s[i].name@ != s.last().name@);
    }
}

pub proof fn lemma_queues_map_update(s: Seq<NamedQueue>, i: int, nq: NamedQueue)
    requires
        distinct_queue_names(s),
        0 <= i < s.len(),
        nq.name@ == s[i].name@,
    ensures
        queues_map(s.update(i, nq)) =~= queues_map(s).insert(nq.name@, nq.tasks.deep_view()),
        distinct_queue_names(s.update(i, nq)),
    decreases s.len(),
{
    let t = s.update(i, nq);
    assert(forall|j: int| 0 <= j < s.len() && j != i ==> t[j] == s[j]);
    if i == s.len() - 1 {
        assert(t.drop_last() =~= s.drop_last());
        assert(queues_map(t) == queues_map(s.drop_last()).insert(nq.name@, nq.tasks.deep_view()));
        assert(queues_map(s) == queues_map(s.drop_last()).insert(
            s.last().name@,
            s.last().tasks.deep_view(),
        ));
        assert(queues_map(t) =~= queues_map(s).insert(nq.name@, nq.tasks.deep_view()));
    } else {
        assert(t.drop_last() =~= s.drop_last().update(i, nq));
        assert(s.drop_last()[i] == s[i]);
        lemma_queues_map_update(s.drop_last(), i, nq);
        assert(s.last().name@ != nq.name@);
        assert(queues_map(t) == queues_map(s.drop_last()).insert(nq.name@, nq.tasks.deep_view())
            .insert(s.last().name@, s.last().tasks.deep_view()));
        assert(queues_map(t) =~= queues_map(s).insert(nq.name@, nq.tasks.deep_view()));
    }
}

/// Index of the first record carrying `uuid`, if any.
pub open spec fn first_uuid_index(tasks: Seq<TaskView>, uuid: u128) -> Option<int>
    decreases tasks.len(),
{
    if tasks.len() == 0 {
        None::<int>
    } else if tasks.first().uuid == uuid {
        Some(0)
    } else {
        match first_uuid_index(tasks.drop_first(), uuid) {
            Some(i) => Some(i + 1),
            None => None,
        }
    }
}

pub proof fn lemma_first_uuid_index(tasks: Seq<TaskView>, uuid: u128)
    ensures
        match first_uuid_index(tasks, uuid) {
            Some(i) => 0 <= i < tasks.len() && tasks[i].uuid == uuid && forall|j: int|
                0 <= j < i ==> (#[trigger] tasks[j]).uuid != uuid,
            None => forall|j: int| 0 <= j < tasks.len() ==> (#[trigger] tasks[j]).uuid != uuid,
        },
    decreases tasks.len(),
{
    if tasks.len() > 0 {
        lemma_first_uuid_index(tasks.drop_first(), uuid);
        assert(forall|j: int|
            0 <= j < tasks.len() - 1 ==> #[trigger] tasks.drop_first()[j] == tasks[j + 1]);
        assert(forall|j: int|
            1 <= j < tasks.len() ==> (#[trigger] tasks[j]).uuid == tasks.drop_first()[j - 1].uuid);
        if tasks.first().uuid == uuid {
        } else {
            match first_uuid_index(tasks.drop_first(), uuid) {
                Some(i) => {
                    assert(first_uuid_index(tasks, uuid) == Some(i + 1));
                    assert(tasks[i + 1].uuid == uuid);
                    assert(forall|j: int| 1 <= j < i + 1 ==> (#[trigger] tasks[j]).uuid != uuid);
                    assert(tasks[0].uuid != uuid);
                },
                None => {
                    assert(forall|j: int|
                        1 <= j < tasks.len() ==> (#[trigger] tasks[j]).uuid != uuid);
                },
            }
        }
    }
}

/// The record unchanged but for its earliest-run time.
pub open spec fn with_run_after(t: TaskView, after: i64) -> TaskView {
    TaskView { only_run_after: Some(after), ..t }
}

/// What deferring does to a queue's records: only the earliest-run time of
/// the first record carrying `uuid` changes; a missing record changes
/// nothing.
pub open spec fn defer_seq(tasks: Seq<TaskView>, uuid: u128, after: i64) -> Seq<TaskView> {
    match first_uuid_index(tasks, uuid) {
        Some(i) => tasks.update(i, with_run_after(tasks[i], after)),
        None => tasks,
    }
}

/// What deleting does to a queue's records: the first record carrying
/// `uuid` leaves; a missing record changes nothing.
pub open spec fn remove_first_uuid(tasks: Seq<TaskView>, uuid: u128) -> Seq<TaskView> {
    match first_uuid_index(tasks, uuid) {
        Some(i) => tasks.remove(i),
        None => tasks,
    }
}

/// A task is eligible for dequeue once its earliest-run time, if any, has
/// passed.
pub open spec fn eligible(t: TaskView, now: i64) -> bool {
    match t.only_run_after {
        Some(m) => m <= now,
        None => true,
    }
}

/// Strictly earlier in dequeue order: a lower priority rank, or the same
/// rank and an earlier creation time.
pub open spec fn before(a: TaskView, b: TaskView) -> bool {
    ||| a.priority.rank() < b.priority.rank()
    ||| (a.priority.rank() == b.priority.rank() && a.timestamp < b.timestamp)
}

/// What dequeue returns on a queue's records: the eligible record that is
/// earliest in (priority, creation) order, the earliest-stored one among
/// ties; nothing if no record is eligible.
pub open spec fn dequeue_spec(tasks: Seq<TaskView>, now: i64) -> Option<TaskView>
    decreases tasks.len(),
{
    if tasks.len() == 0 {
        None::<TaskView>
    } else {
        let prev = dequeue_spec(tasks.drop_last(), now);
        let t = tasks.last();
        if !eligible(t, now) {
            prev
        } else {
            match prev {
                None => Some(t),
                Some(m) => if before(t, m) {
                    Some(t)
                } else {
                    Some(m)
                },
            }
        }
    }
}

/// Every record carries a distinct identity.
pub open spec fn unique_uuids(tasks: Seq<TaskView>) -> bool {
    forall|i: int, j: int|
        0 <= i < j < tasks.len() ==> (#[trigger] tasks[i]).uuid != (#[trigger] tasks[j]).uuid
}

/// What dequeue returns is an eligible record none of whose eligible
/// companions comes earlier in (priority, creation) order; nothing comes
/// back only when nothing is eligible.
pub proof fn lemma_dequeue_spec_min(tasks: Seq<TaskView>, now: i64)
    ensures
        match dequeue_spec(tasks, now) {
            Some(m) => eligible(m, now) && (exists|i: int|
                0 <= i < tasks.len() && tasks[i] == m) && forall|j: int|
                0 <= j < tasks.len() && eligible(#[trigger] tasks[j], now) ==> !before(tasks[j], m),
            None => forall|j: int| 0 <= j < tasks.len() ==> !eligible(#[trigger] tasks[j], now),
        },
    decreases tasks.len(),
{
    if tasks.len() > 0 {
        lemma_dequeue_spec_min(tasks.drop_last(), now);
        assert(forall|j: int|
            0 <= j < tasks.len() - 1 ==> #[trigger] tasks.drop_last()[j] == tasks[j]);
        assert(forall|j: int|
            0 <= j < tasks.len() - 1 ==> eligible(#[trigger] tasks[j], now) == eligible(
                tasks.drop_last()[j],
                now,
            ));
        let t = tasks.last();
        assert(tasks[tasks.len() - 1] == t);
        match dequeue_spec(tasks.drop_last(), now) {
            Some(m) => {
                let i = choose|i: int| 0 <= i < tasks.drop_last().len() && tasks.drop_last()[i] == m;
                assert(tasks[i] == m);
                assert(forall|j: int|
                    0 <= j < tasks.len() - 1 && eligible(#[trigger] tasks[j], now) ==> !before(
                        tasks.drop_last()[j],
                        m,
                    ));
                if eligible(t, now) && before(t, m) {
                    assert(dequeue_spec(tasks, now) == Some(t));
                    assert(forall|j: int|
                        0 <= j < tasks.len() - 1 && eligible(#[trigger] tasks[j], now) ==> !before(
                            tasks[j],
                            t,
                        ));
                } else if eligible(t, now) {
                    assert(dequeue_spec(tasks, now) == Some(m));
                    assert(!before(t, m));
                } else {
                    assert(dequeue_spec(tasks, now) == Some(m));
                }
            },
            None => {
                assert(forall|j: int|
                    0 <= j < tasks.len() - 1 ==> !eligible(#[trigger] tasks[j], now));
                if eligible(t, now) {
                    assert(dequeue_spec(tasks, now) == Some(t));
                } else {
                    assert(dequeue_spec(tasks, now) is None);
                }
            },
        }
    }
}

/// Priority ordering: among eligible tasks with pairwise distinct
/// priorities, dequeue returns the task whose priority rank is lowest, and
/// once that task is finished the next dequeue returns one of strictly
/// higher rank — repeated dequeues drain the queue in ascending priority
/// order.
pub proof fn lemma_priority_ordering(tasks: Seq<TaskView>, now: i64)
    requires
        tasks.len() > 0,
        forall|i: int| 0 <= i < tasks.len() ==> (#[trigger] tasks[i]).only_run_after is None,
        forall|i: int, j: int|
            0 <= i < j < tasks.len() ==> (#[trigger] tasks[i]).priority.rank() != (
            #[trigger] tasks[j]).priority.rank(),
        unique_uuids(tasks),
    ensures
        dequeue_spec(tasks, now) is Some,
        dequeue_spec(tasks, now) matches Some(m) ==> (forall|j: int|
            0 <= j < tasks.len() && (#[trigger] tasks[j]).uuid != m.uuid ==> m.priority.rank()
                < tasks[j].priority.rank()) && (tasks.len() > 1 ==> (dequeue_spec(
            remove_first_uuid(tasks, m.uuid),
            now,
        ) matches Some(m2) && m.priority.rank() < m2.priority.rank())),
{
    lemma_dequeue_spec_min(tasks, now);
    assert(eligible(tasks[0], now));
    let m = dequeue_spec(tasks, now)->Some_0;
    let i = choose|i: int| 0 <= i < tasks.len() && tasks[i] == m;
    assert(forall|j: int|
        0 <= j < tasks.len() && j != i ==> (#[trigger] tasks[j]).priority.rank()
            != m.priority.rank());
    assert(forall|j: int|
        0 <= j < tasks.len() && j != i ==> m.priority.rank() < (
        #[trigger] tasks[j]).priority.rank());
    assert(forall|j: int|
        0 <= j < tasks.len() && (#[trigger] tasks[j]).uuid != m.uuid ==> j != i);
    lemma_first_uuid_index(tasks, m.uuid);
    let fi = first_uuid_index(tasks, m.uuid)->Some_0;
    assert(tasks[fi].uuid == m.uuid);
    assert(fi == i);
    let rest = remove_first_uuid(tasks, m.uuid);
    assert(rest == tasks.remove(i));
    if tasks.len() > 1 {
        assert(forall|j: int|
            0 <= j < rest.len() ==> #[trigger] rest[j] == (if j < i {
                tasks[j]
            } else {
                tasks[j + 1]
            }));
        lemma_dequeue_spec_min(rest, now);
        assert(eligible(rest[0], now));
        let m2 = dequeue_spec(rest, now)->Some_0;
        let k = choose|k: int| 0 <= k < rest.len() && rest[k] == m2;
        if k < i {
            assert(m2 == tasks[k]);
        } else {
            assert(m2 == tasks[k + 1]);
        }
    }
}

/// Within one priority tier, dequeue follows creation order: among eligible
/// tasks of equal priority with distinct creation times, dequeue returns
/// the oldest, and once that task is finished the next dequeue returns a
/// strictly younger one.
pub proof fn lemma_creation_order_within_tier(tasks: Seq<TaskView>, now: i64)
    requires
        tasks.len() > 0,
        forall|i: int| 0 <= i < tasks.len() ==> (#[trigger] tasks[i]).only_run_after is None,
        forall|i: int, j: int|
            0 <= i < j < tasks.len() ==> (#[trigger] tasks[i]).priority == (
            #[trigger] tasks[j]).priority,
        forall|i: int, j: int|
            0 <= i < j < tasks.len() ==> (#[trigger] tasks[i]).timestamp != (
            #[trigger] tasks[j]).timestamp,
        unique_uuids(tasks),
    ensures
        dequeue_spec(tasks, now) is Some,
        dequeue_spec(tasks, now) matches Some(m) ==> (forall|j: int|
            0 <= j < tasks.len() && (#[trigger] tasks[j]).uuid != m.uuid ==> m.timestamp
                < tasks[j].timestamp) && (tasks.len() > 1 ==> (dequeue_spec(
            remove_first_uuid(tasks, m.uuid),
            now,
        ) matches Some(m2) && m.timestamp < m2.timestamp)),
{
    lemma_dequeue_spec_min(tasks, now);
    assert(eligible(tasks[0], now));
    let m = dequeue_spec(tasks, now)->Some_0;
    let i = choose|i: int| 0 <= i < tasks.len() && tasks[i] == m;
    assert(forall|j: int|
        0 <= j < tasks.len() && j != i ==> (#[trigger] tasks[j]).priority == m.priority);
    assert(forall|j: int|
        0 <= j < tasks.len() && j != i ==> (#[trigger] tasks[j]).timestamp != m.timestamp);
    assert(forall|j: int|
        0 <= j < tasks.len() && j != i ==> m.timestamp < (#[trigger] tasks[j]).timestamp);
    assert(forall|j: int|
        0 <= j < tasks.len() && (#[trigger] tasks[j]).uuid != m.uuid ==> j != i);
    lemma_first_uuid_index(tasks, m.uuid);
    let fi = first_uuid_index(tasks, m.uuid)->Some_0;
    assert(tasks[fi].uuid == m.uuid);
    assert(fi == i);
    let rest = remove_first_uuid(tasks, m.uuid);
    assert(rest == tasks.remove(i));
    if tasks.len() > 1 {
        assert(forall|j: int|
            0 <= j < rest.len() ==> #[trigger] rest[j] == (if j < i {
                tasks[j]
            } else {
                tasks[j + 1]
            }));
        lemma_dequeue_spec_min(rest, now);
        assert(eligible(rest[0], now));
        let m2 = dequeue_spec(rest, now)->Some_0;
        let k = choose|k: int| 0 <= k < rest.len() && rest[k] == m2;
        if k < i {
            assert(m2 == tasks[k]);
        } else {
            assert(m2 == tasks[k + 1]);
        }
    }
}

/// Deferred eligibility: a record whose earliest-run time lies in the
/// future is never the one dequeue returns; once the clock reaches that
/// time, it is returned whenever it comes first in (priority, creation)
/// order among the eligible records.
pub proof fn lemma_deferred_eligibility(tasks: Seq<TaskView>, now: i64, i: int)
    requires
        0 <= i < tasks.len(),
        unique_uuids(tasks),
        tasks[i].only_run_after is Some,
    ensures
        now < tasks[i].only_run_after->0 ==> (match dequeue_spec(tasks, now) {
            Some(r) => r.uuid != tasks[i].uuid,
            None => true,
        }),
        (now >= tasks[i].only_run_after->0 && (forall|j: int|
            0 <= j < tasks.len() && j != i && eligible(#[trigger] tasks[j], now) ==> before(
                tasks[i],
                tasks[j],
            ))) ==> dequeue_spec(tasks, now) == Some(tasks[i]),
{
    lemma_dequeue_spec_min(tasks, now);
    if now < tasks[i].only_run_after->0 {
        assert(!eligible(tasks[i], now));
        match dequeue_spec(tasks, now) {
            Some(r) => {
                let k = choose|k: int| 0 <= k < tasks.len() && tasks[k] == r;
                assert(k != i);
            },
            None => {},
        }
    }
    if now >= tasks[i].only_run_after->0 && (forall|j: int|
        0 <= j < tasks.len() && j != i && eligible(#[trigger] tasks[j], now) ==> before(
            tasks[i],
            tasks[j],
        )) {
        assert(eligible(tasks[i], now));
        match dequeue_spec(tasks, now) {
            Some(r) => {
                let k = choose|k: int| 0 <= k < tasks.len() && tasks[k] == r;
                if k != i {
                    assert(before(tasks[i], tasks[k]));
                    assert(!before(tasks[i], r));
                    assert(false);
                }
            },
            None => {
                assert(eligible(tasks[i], now));
                assert(false);
            },
        }
    }
}

/// Finishing without a callback: the record carrying the finished task's
/// identity is gone, the queue is one record shorter, every other record is
/// one that was already there, and no other queue changes (the transform
/// touches only the one key).
pub proof fn lemma_finish_without_callback(tasks: Seq<TaskView>, uuid: u128)
    requires
        unique_uuids(tasks),
        exists|i: int| 0 <= i < tasks.len() && (#[trigger] tasks[i]).uuid == uuid,
    ensures
        remove_first_uuid(tasks, uuid).len() == tasks.len() - 1,
        forall|j: int|
            0 <= j < remove_first_uuid(tasks, uuid).len() ==> (#[trigger] remove_first_uuid(
                tasks,
                uuid,
            )[j]).uuid != uuid,
        forall|j: int|
            0 <= j < remove_first_uuid(tasks, uuid).len() ==> exists|k: int|
                0 <= k < tasks.len() && tasks[k] == #[trigger] remove_first_uuid(tasks, uuid)[j],
{
    lemma_first_uuid_index(tasks, uuid);
    let wi = choose|i: int| 0 <= i < tasks.len() && (#[trigger] tasks[i]).uuid == uuid;
    let fi = first_uuid_index(tasks, uuid)->Some_0;
    let rest = remove_first_uuid(tasks, uuid);
    assert(rest == tasks.remove(fi));
    assert(forall|j: int|
        0 <= j < rest.len() ==> #[trigger] rest[j] == (if j < fi {
            tasks[j]
        } else {
            tasks[j + 1]
        }));
    assert(forall|j: int| 0 <= j < rest.len() && j < fi ==> (#[trigger] rest[j]).uuid != uuid);
    assert(forall|j: int| fi <= j < rest.len() ==> (#[trigger] rest[j]).uuid != uuid);
}

/// Finishing with a callback: the follow-up task is the only record in the
/// target queue carrying the callback's command (when none carried it
/// before), and the finished task's record is gone from its own queue.
pub proof fn lemma_finish_with_callback(
    origin: Seq<TaskView>,
    target: Seq<TaskView>,
    uuid: u128,
    t: TaskView,
    c: Seq<char>,
)
    requires
        unique_uuids(origin),
        exists|i: int| 0 <= i < origin.len() && (#[trigger] origin[i]).uuid == uuid,
        t.command == c,
        forall|j: int| 0 <= j < target.len() ==> (#[trigger] target[j]).command != c,
    ensures
        forall|j: int|
            0 <= j < target.push(t).len() ==> ((#[trigger] target.push(t)[j]).command == c <==> j
                == target.len()),
        forall|j: int|
            0 <= j < remove_first_uuid(origin, uuid).len() ==> (#[trigger] remove_first_uuid(
                origin,
                uuid,
            )[j]).uuid != uuid,
{
    lemma_finish_without_callback(origin, uuid);
    assert(target.push(t)[target.len() as int] == t);
    assert(forall|j: int| 0 <= j < target.len() ==> #[trigger] target.push(t)[j] == target[j]);
}

/// Finishing without a callback, seen on the whole store: against the
/// exact transform `finish_task` promises, the finished record's identity
/// is gone from its queue, that queue is one record shorter, and no other
/// queue changes — nothing new exists anywhere.
pub proof fn lemma_finish_no_callback_store(
    q: Map<Seq<char>, Seq<TaskView>>,
    origin_name: Seq<char>,
    uuid: u128,
)
    requires
        q.dom().contains(origin_name),
        unique_uuids(q[origin_name]),
        exists|i: int|
            0 <= i < q[origin_name].len() && (#[trigger] q[origin_name][i]).uuid == uuid,
    ensures
        ({
            let after = q.insert(origin_name, remove_first_uuid(q[origin_name], uuid));
            &&& after[origin_name].len() == q[origin_name].len() - 1
            &&& forall|j: int|
                0 <= j < after[origin_name].len() ==> (#[trigger] after[origin_name][j]).uuid
                    != uuid
            &&& forall|j: int|
                0 <= j < after[origin_name].len() ==> exists|k: int|
                    0 <= k < q[origin_name].len() && q[origin_name][k] == #[trigger] after[
                        origin_name
                    ][j]
            &&& forall|k: Seq<char>|
                q.dom().contains(k) && k != origin_name ==> #[trigger] after[k] == q[k]
        }),
{
    lemma_finish_without_callback(q[origin_name], uuid);
}

/// Finishing with a callback, seen on the whole store: against the exact
/// transform `finish_task` promises, the origin queue loses the finished
/// record's identity, the target queue gains exactly one record with the
/// callback's command (when none carried it before), and every other queue
/// is untouched.
pub proof fn lemma_finish_callback_store(
    q: Map<Seq<char>, Seq<TaskView>>,
    origin_name: Seq<char>,
    target_name: Seq<char>,
    uuid: u128,
    t: TaskView,
    c: Seq<char>,
)
    requires
        origin_name != target_name,
        q.dom().contains(origin_name),
        q.dom().contains(target_name),
        unique_uuids(q[origin_name]),
        exists|i: int|
            0 <= i < q[origin_name].len() && (#[trigger] q[origin_name][i]).uuid == uuid,
        t.command == c,
        forall|j: int|
            0 <= j < q[target_name].len() ==> (#[trigger] q[target_name][j]).command != c,
    ensures
        ({
            let mid = q.insert(target_name, q[target_name].push(t));
            let after = mid.insert(origin_name, remove_first_uuid(mid[origin_name], uuid));
            &&& after[target_name].len() == q[target_name].len() + 1
            &&& forall|j: int|
                0 <= j < after[target_name].len() ==> ((#[trigger] after[target_name][j]).command
                    == c <==> j == q[target_name].len())
            &&& forall|j: int|
                0 <= j < after[origin_name].len() ==> (#[trigger] after[origin_name][j]).uuid
                    != uuid
            &&& forall|k: Seq<char>|
                q.dom().contains(k) && k != origin_name && k != target_name
                    ==> #[trigger] after[k] == q[k]
        }),
{
    let mid = q.insert(target_name, q[target_name].push(t));
    assert(mid[origin_name] == q[origin_name]);
    lemma_finish_with_callback(q[origin_name], q[target_name], uuid, t, c);
}

/// Deferring preserves identity: after a defer, the store holds exactly one
/// record with the task's identity, identical to the original but for its
/// earliest-run time, and every other record is untouched.
pub proof fn lemma_defer_preserves_identity(tasks: Seq<TaskView>, uuid: u128, t2: i64)
    requires
        unique_uuids(tasks),
        exists|i: int| 0 <= i < tasks.len() && (#[trigger] tasks[i]).uuid == uuid,
    ensures
        defer_seq(tasks, uuid, t2).len() == tasks.len(),
        exists|i: int|
            {
                &&& 0 <= i < tasks.len()
                &&& (#[trigger] tasks[i]).uuid == uuid
                &&& defer_seq(tasks, uuid, t2)[i] == with_run_after(tasks[i], t2)
                &&& forall|j: int|
                    0 <= j < tasks.len() && j != i ==> #[trigger] defer_seq(tasks, uuid, t2)[j]
                        == tasks[j]
                &&& forall|j: int|
                    0 <= j < tasks.len() && (#[trigger] defer_seq(tasks, uuid, t2)[j]).uuid == uuid
                        ==> j == i
            },
{
    lemma_first_uuid_index(tasks, uuid);
    let wi = choose|i: int| 0 <= i < tasks.len() && (#[trigger] tasks[i]).uuid == uuid;
    let fi = first_uuid_index(tasks, uuid)->Some_0;
    let d = defer_seq(tasks, uuid, t2);
    assert(d == tasks.update(fi, with_run_after(tasks[fi], t2)));
    assert(tasks[fi].uuid == uuid);
    assert(d[fi] == with_run_after(tasks[fi], t2));
    assert(forall|j: int| 0 <= j < tasks.len() && j != fi ==> #[trigger] d[j] == tasks[j]);
    assert(forall|j: int| 0 <= j < tasks.len() && (#[trigger] d[j]).uuid == uuid ==> j == fi);
}

/// The persistent task queue: a set of named queues, one of which this
/// handle dequeues from.
pub struct DBQueue {
    queues: Vec<NamedQueue>,
    queue_name: String,
}

impl DBQueue {
    /// The map from queue names to the task records they hold.
    pub closed spec fn view(&self) -> Map<Seq<char>, Seq<TaskView>> {
        queues_map(self.queues@)
    }

    /// The name of the queue this handle dequeues from.
    pub closed spec fn queue_name_spec(&self) -> Seq<char> {
        self.queue_name@
    }

    pub closed spec fn wf(&self) -> bool {
        distinct_queue_names(self.queues@)
    }

    pub fn new(queue_collections: Vec<NamedQueue>, queue_name: String) -> (r: Self)
        requires
            distinct_queue_names(queue_collections@),
        ensures
            r.wf(),
            r.view() == queues_map(queue_collections@),
            r.queue_name_spec() == queue_name@,
    {
        DBQueue { queues: queue_collections, queue_name }
    }

    /// Index of the queue called `name`; the caller guarantees it exists.
    fn find_queue(&self, name: &String) -> (r: usize)
        requires
            self.wf(),
            self.view().dom().contains(name@),
        ensures
            r < self.queues@.len(),
            self.queues@[r as int].name@ == name@,
    {
        let n = self.queues.len();
        let mut i: usize = 0;
        while i < n
            invariant
                n == self.queues.len(),
                i <= n,
                forall|j: int| 0 <= j < i ==> #[trigger] self.queues@[j].name@ != name@,
            decreases n - i,
        {
            if self.queues[i].name == *name {
                return i;
            }
            i += 1;
        }
        proof {
            lemma_queues_map_contains(self.queues@, name@);
        }
        assert(false);
        0
    }

    /// Select, without claiming, the eligible record that dequeue order puts
    /// first, against the caller's clock.
    pub fn dequeue_eligible(&self, now: i64) -> (r: Option<Task>)
        requires
            self.wf(),
            self.view().dom().contains(self.queue_name_spec()),
        ensures
            r.deep_view() == dequeue_spec(self.view()[self.queue_name_spec()], now),
    {
        let pos = self.find_queue(&self.queue_name);
        proof {
            lemma_queues_map_value(self.queues@, pos as int);
        }
        let tasks = &self.queues[pos].tasks;
        let ghost tv = tasks.deep_view();
        let n = tasks.len();
        let mut best: usize = 0;
        let mut best_rank: u8 = 0;
        let mut best_ts: i64 = 0;
        let mut have: bool = false;
        let mut i: usize = 0;
        while i < n
            invariant
                n == tasks.len(),
                tv == tasks.deep_view(),
                i <= n,
                !have ==> dequeue_spec(tv.subrange(0, i as int), now) is None,
                have ==> best < i && i <= n && dequeue_spec(tv.subrange(0, i as int), now) == Some(
                    tv[best as int],
                ) && best_rank as int == tv[best as int].priority.rank() && best_ts == tv[
                    best as int
                ].timestamp,
            decreases n - i,
        {
            proof {
                assert(tv.subrange(0, i as int + 1).drop_last() =~= tv.subrange(0, i as int));
                assert(tv.subrange(0, i as int + 1).last() == tv[i as int]);
            }
            let t = &tasks[i];
            let elig = match t.only_run_after {
                Some(m) => m <= now,
                None => true,
            };
            if elig {
                let t_rank = t.priority.rank_value();
                if !have {
                    have = true;
                    best = i;
                    best_rank = t_rank;
                    best_ts = t.timestamp;
                } else if t_rank < best_rank || (t_rank == best_rank && t.timestamp < best_ts) {
                    best = i;
                    best_rank = t_rank;
                    best_ts = t.timestamp;
                }
            }
            i += 1;
        }
        proof {
            assert(tv.subrange(0, n as int) =~= tv);
        }
        if have {
            Some(tasks[best].clone())
        } else {
            None
        }
    }

    /// Select the first eligible record by the wall clock. The clock is read
    /// outside the program, so the result is pinned only relative to some
    /// reading.
    pub fn get_task(&self) -> (r: Option<Task>)
        requires
            self.wf(),
            self.view().dom().contains(self.queue_name_spec()),
        ensures
            exists|now: i64|
                r.deep_view() == #[trigger] dequeue_spec(
                    self.view()[self.queue_name_spec()],
                    now,
                ),
    {
        let now = now_millis();
        let r = self.dequeue_eligible(now);
        proof {
            assert(r.deep_view() == dequeue_spec(self.view()[self.queue_name_spec()], now));
        }
        r
    }

    /// Insert the task's record into the named queue.
    pub fn send_task_any_queue(&mut self, queue_name: String, task: Task)
        requires
            old(self).wf(),
            old(self).view().dom().contains(queue_name@),
        ensures
            final(self).wf(),
            final(self).view() =~= old(self).view().insert(
                queue_name@,
                old(self).view()[queue_name@].push(task@),
            ),
            final(self).queue_name_spec() == old(self).queue_name_spec(),
    {
        let pos = self.find_queue(&queue_name);
        proof {
            lemma_queues_map_value(self.queues@, pos as int);
        }
        let ghost old_qs = self.queues@;
        let mut nq = self.queues.remove(pos);
        nq.tasks.push(task);
        let ghost nq_snap = nq;
        proof {
            assert(nq_snap.tasks.deep_view() =~= old_qs[pos as int].tasks.deep_view().push(
                nq_snap.tasks.deep_view().last(),
            ));
        }
        self.queues.insert(pos, nq);
        proof {
            assert(self.queues@ =~= old_qs.update(pos as int, nq_snap));
            lemma_queues_map_update(old_qs, pos as int, nq_snap);
        }
    }

    /// Index of the first record carrying `uuid` in `tasks`, if any.
    fn find_first_uuid(tasks: &Vec<Task>, uuid: u128) -> (r: Option<usize>)
        ensures
            match r {
                Some(j) => j < tasks@.len() && first_uuid_index(tasks.deep_view(), uuid) == Some(
                    j as int,
                ),
                None => first_uuid_index(tasks.deep_view(), uuid) is None,
            },
    {
        let ghost tv = tasks.deep_view();
        let n = tasks.len();
        let mut j: usize = 0;
        while j < n
            invariant
                n == tasks.len(),
                tv == tasks.deep_view(),
                j <= n,
                forall|k: int| 0 <= k < j ==> (#[trigger] tv[k]).uuid != uuid,
            decreases n - j,
        {
            if tasks[j].uuid == uuid {
                proof {
                    lemma_first_uuid_index(tv, uuid);
                    assert(tv[j as int].uuid == uuid);
                }
                return Some(j);
            }
            j += 1;
        }
        proof {
            lemma_first_uuid_index(tv, uuid);
        }
        None
    }

    /// Reschedule the record carrying the task's identity: only its
    /// earliest-run time changes, so the task keeps its place in dequeue
    /// order once eligible again.
    pub fn update_task_run_after(&mut self, task: Task, new_run_after_datetime: i64)
        requires
            old(self).wf(),
            old(self).view().dom().contains(old(self).queue_name_spec()),
        ensures
            final(self).wf(),
            final(self).view() =~= old(self).view().insert(
                old(self).queue_name_spec(),
                defer_seq(
                    old(self).view()[old(self).queue_name_spec()],
                    task@.uuid,
                    new_run_after_datetime,
                ),
            ),
            final(self).queue_name_spec() == old(self).queue_name_spec(),
    {
        let pos = self.find_queue(&self.queue_name);
        proof {
            lemma_queues_map_value(self.queues@, pos as int);
        }
        let ghost old_qs = self.queues@;
        let ghost tv = self.queues@[pos as int].tasks.deep_view();
        match Self::find_first_uuid(&self.queues[pos].tasks, task.uuid) {
            Some(j) => {
                let mut nq = self.queues.remove(pos);
                let mut t2 = nq.tasks[j].clone();
                t2.only_run_after = Some(new_run_after_datetime);
                proof {
                    assert(t2@ == with_run_after(tv[j as int], new_run_after_datetime));
                }
                let ghost t2v = t2@;
                nq.tasks.set(j, t2);
                let ghost nq_snap = nq;
                proof {
                    assert(nq_snap.tasks.deep_view() =~= tv.update(j as int, t2v));
                }
                self.queues.insert(pos, nq);
                proof {
                    assert(self.queues@ =~= old_qs.update(pos as int, nq_snap));
                    lemma_queues_map_update(old_qs, pos as int, nq_snap);
                }
            },
            None => {
                proof {
                    assert(defer_seq(tv, task@.uuid, new_run_after_datetime) == tv);
                    assert(queues_map(old_qs).insert(self.queue_name@, tv) =~= queues_map(old_qs));
                }
            },
        }
    }

    /// Remove the record carrying the task's identity from this handle's
    /// own queue.
    fn delete_task(&mut self, task: Task)
        requires
            old(self).wf(),
            old(self).view().dom().contains(old(self).queue_name_spec()),
        ensures
            final(self).wf(),
            final(self).view() =~= old(self).view().insert(
                old(self).queue_name_spec(),
                remove_first_uuid(old(self).view()[old(self).queue_name_spec()], task@.uuid),
            ),
            final(self).queue_name_spec() == old(self).queue_name_spec(),
    {
        let pos = self.find_queue(&self.queue_name);
        proof {
            lemma_queues_map_value(self.queues@, pos as int);
        }
        let ghost old_qs = self.queues@;
        let ghost tv = self.queues@[pos as int].tasks.deep_view();
        match Self::find_first_uuid(&self.queues[pos].tasks, task.uuid) {
            Some(j) => {
                let mut nq = self.queues.remove(pos);
                nq.tasks.remove(j);
                let ghost nq_snap = nq;
                proof {
                    assert(nq_snap.tasks.deep_view() =~= tv.remove(j as int));
                }
                self.queues.insert(pos, nq);
                proof {
                    assert(self.queues@ =~= old_qs.update(pos as int, nq_snap));
                    lemma_queues_map_update(old_qs, pos as int, nq_snap);
                }
            },
            None => {
                proof {
                    assert(remove_first_uuid(tv, task@.uuid) == tv);
                    assert(queues_map(old_qs).insert(self.queue_name@, tv) =~= queues_map(old_qs));
                }
            },
        }
    }

    /// Instantiate the descriptor's follow-up task and submit it to the
    /// descriptor's target queue. The new task's identity and creation time
    /// are freshly generated, so only its payload is pinned.
    pub fn send_callback(&mut self, builder: CallbackTaskBuilder)
        requires
            old(self).wf(),
            old(self).view().dom().contains(builder@.queue_name),
        ensures
            final(self).wf(),
            final(self).queue_name_spec() == old(self).queue_name_spec(),
            exists|t: TaskView|
                #[trigger] built_from(t, builder@) && final(self).view() =~= old(
                    self,
                ).view().insert(builder@.queue_name, old(self).view()[builder@.queue_name].push(t)),
    {
        let target = builder.get_queue_name();
        let ghost bv = builder@;
        let t = builder.build();
        let ghost tv = t@;
        self.send_task_any_queue(target, t);
        proof {
            assert(built_from(tv, bv));
        }
    }

    /// Complete a task: if it carries a callback descriptor, instantiate and
    /// submit the follow-up first; either way the task's own record then
    /// leaves this handle's queue. No task is left neither deleted nor
    /// continued once this returns.
    pub fn finish_task(&mut self, task: Task)
        requires
            old(self).wf(),
            old(self).view().dom().contains(old(self).queue_name_spec()),
            match task@.callback {
                Some(cb) => old(self).view().dom().contains(cb.queue_name),
                None => true,
            },
        ensures
            final(self).wf(),
            final(self).queue_name_spec() == old(self).queue_name_spec(),
            match task@.callback {
                None => final(self).view() =~= old(self).view().insert(
                    old(self).queue_name_spec(),
                    remove_first_uuid(old(self).view()[old(self).queue_name_spec()], task@.uuid),
                ),
                Some(cb) => exists|t: TaskView|
                    #[trigger] built_from(t, cb) && final(self).view() =~= old(
                        self,
                    ).view().insert(cb.queue_name, old(self).view()[cb.queue_name].push(t)).insert(
                        old(self).queue_name_spec(),
                        remove_first_uuid(
                            old(self).view().insert(
                                cb.queue_name,
                                old(self).view()[cb.queue_name].push(t),
                            )[old(self).queue_name_spec()],
                            task@.uuid,
                        ),
                    ),
            },
    {
        let cb_opt = match &task.callback {
            Some(cb) => Some(cb.clone()),
            None => None,
        };
        match cb_opt {
            Some(cb) => {
                let ghost cbv = cb@;
                let ghost pre = self.view();
                self.send_callback(cb);
                let ghost t = choose|t: TaskView|
                    #[trigger] built_from(t, cbv) && self.view() =~= pre.insert(
                        cbv.queue_name,
                        pre[cbv.queue_name].push(t),
                    );
                proof {
                    assert(self.view() == pre.insert(cbv.queue_name, pre[cbv.queue_name].push(t)));
                }
                self.delete_task(task);
            },
            None => {
                self.delete_task(task);
            },
        }
    }

    /// Insert the task's record into this handle's own queue.
    pub fn send_task(&mut self, task: Task)
        requires
            old(self).wf(),
            old(self).view().dom().contains(old(self).queue_name_spec()),
        ensures
            final(self).wf(),
            final(self).view() =~= old(self).view().insert(
                old(self).queue_name_spec(),
                old(self).view()[old(self).queue_name_spec()].push(task@),
            ),
            final(self).queue_name_spec() == old(self).queue_name_spec(),
    {
        let name = self.queue_name.clone();
        self.send_task_any_queue(name, task);
    }
}

} // verus!
