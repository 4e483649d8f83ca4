//! The shared registry at the centre of the control plane: every connected
//! worker, every known task, the task state machine, and the id generator.
//!
//! All registry mutation goes through the operations of [`Core`]; each is one
//! atomic logical step with an exact contract. Tasks move only along the
//! edges `Waiting -> Assigned -> Finished` and `Waiting -> Assigned -> Error`,
//! except for the explicit disconnect reconciliation
//! ([`Core::requeue_worker_tasks`]), which returns a lost worker's assigned
//! tasks to `Waiting`.

use crate::messages::{ComputeTaskMsg, TaskErredMsg, TaskFinishedMsg, TaskId, WorkerId};
use crate::worker::Worker;
use vstd::prelude::*;

verus! {

/// Lifecycle state of a task.
#[derive(Clone, Copy, Debug, PartialEq, Eq, Structural)]
pub enum TaskState {
    /// Initial: not yet handed to any worker.
    Waiting,
    /// Handed to its chosen worker in a dispatch batch.
    Assigned,
    /// Terminal: the worker reported success.
    Finished,
    /// Terminal: the worker reported failure.
    Error,
}

/// The legal moves of the task state machine: staying put, or one of the
/// edges `Waiting -> Assigned -> {Finished, Error}`.
pub open spec fn task_edge_ok(pre: TaskState, post: TaskState) -> bool {
    ||| pre == post
    ||| (pre is Waiting && post is Assigned)
    ||| (pre is Assigned && post is Finished)
    ||| (pre is Assigned && post is Error)
}

/// Both terminal states really are terminal, and a waiting task can never
/// jump straight to a terminal state.
pub proof fn lemma_task_state_machine(pre: TaskState, post: TaskState)
    requires
        task_edge_ok(pre, post),
    ensures
        pre is Finished ==> post is Finished,
        pre is Error ==> post is Error,
        pre is Waiting ==> !(post is Finished) && !(post is Error),
{
}

/// A task as the registry tracks it.
pub struct Task {
    /// Stable key, supplied by the task-graph source.
    pub id: TaskId,
    pub state: TaskState,
    /// The worker the scheduling authority chose for the entry; recorded
    /// before dispatch, present whenever the task has left `Waiting`.
    pub assigned_worker: Option<WorkerId>,
    /// Keys the entry needs finished before it can run.
    pub deps: Vec<TaskId>,
    /// Where the entry's result can be fetched once it finished.
    pub result_location: Option<String>,
}

impl Task {
    /// Per-task invariant: a task that has left `Waiting` has a worker, and a
    /// finished task has a result location.
    pub open spec fn wf(self) -> bool {
        &&& !(self.state is Waiting) ==> self.assigned_worker is Some
        &&& self.state is Finished ==> self.result_location is Some
    }
}

/// No two workers share an id.
pub open spec fn worker_ids_unique(ws: Seq<Worker>) -> bool {
    forall|i: int, j: int|
        #![trigger ws[i].id, ws[j].id]
        0 <= i < j < ws.len() ==> ws[i].id != ws[j].id
}

/// No two tasks share an id.
pub open spec fn task_ids_unique(ts: Seq<Task>) -> bool {
    forall|i: int, j: int|
        #![trigger ts[i].id, ts[j].id]
        0 <= i < j < ts.len() ==> ts[i].id != ts[j].id
}

/// Whether some worker in `ws` has id `id`.
pub open spec fn spec_has_worker(ws: Seq<Worker>, id: WorkerId) -> bool {
    exists|i: int| 0 <= i < ws.len() && (#[trigger] ws[i].id) == id
}

/// Whether some task in `ts` has id `id`.
pub open spec fn spec_has_task(ts: Seq<Task>, id: TaskId) -> bool {
    exists|i: int| 0 <= i < ts.len() && (#[trigger] ts[i].id) == id
}

/// The first worker in `ws` with id `id`, if any.
pub open spec fn spec_worker_of(ws: Seq<Worker>, id: WorkerId) -> Option<Worker>
    decreases ws.len(),
{
    if ws.len() == 0 {
        None
    } else if ws[0].id == id {
        Some(ws[0])
    } else {
        spec_worker_of(ws.drop_first(), id)
    }
}

/// The first task in `ts` with id `id`, if any.
pub open spec fn spec_task_of(ts: Seq<Task>, id: TaskId) -> Option<Task>
    decreases ts.len(),
{
    if ts.len() == 0 {
        None
    } else if ts[0].id == id {
        Some(ts[0])
    } else {
        spec_task_of(ts.drop_first(), id)
    }
}

/// Under unique ids, the worker found by id is the worker at its index.
pub proof fn lemma_worker_of_index(ws: Seq<Worker>, i: int)
    requires
        worker_ids_unique(ws),
        0 <= i < ws.len(),
    ensures
        spec_worker_of(ws, ws[i].id) == Some(ws[i]),
    decreases i,
{
    if i > 0 {
        let tail = ws.drop_first();
        assert(worker_ids_unique(tail)) by {
            assert(forall|a: int, b: int|
                0 <= a < b < tail.len() ==> tail[a] == ws[a + 1] && tail[b] == ws[b + 1]);
        }
        lemma_worker_of_index(tail, i - 1);
    }
}

/// A worker id that no entry carries is not found.
pub proof fn lemma_worker_of_absent(ws: Seq<Worker>, id: WorkerId)
    requires
        !spec_has_worker(ws, id),
    ensures
        spec_worker_of(ws, id) is None,
    decreases ws.len(),
{
    if ws.len() > 0 {
        let tail = ws.drop_first();
        assert(!spec_has_worker(tail, id)) by {
            assert(forall|a: int| 0 <= a < tail.len() ==> tail[a] == ws[a + 1]);
        }
        lemma_worker_of_absent(tail, id);
    }
}

/// Under unique ids, the task found by id is the task at its index.
pub proof fn lemma_task_of_index(ts: Seq<Task>, i: int)
    requires
        task_ids_unique(ts),
        0 <= i < ts.len(),
    ensures
        spec_task_of(ts, ts[i].id) == Some(ts[i]),
    decreases i,
{
    if i > 0 {
        let tail = ts.drop_first();
        assert(task_ids_unique(tail)) by {
            assert(forall|a: int, b: int|
                0 <= a < b < tail.len() ==> tail[a] == ts[a + 1] && tail[b] == ts[b + 1]);
        }
        lemma_task_of_index(tail, i - 1);
    }
}

/// A task id that no entry carries is not found.
pub proof fn lemma_task_of_absent(ts: Seq<Task>, id: TaskId)
    requires
        !spec_has_task(ts, id),
    ensures
        spec_task_of(ts, id) is None,
    decreases ts.len(),
{
    if ts.len() > 0 {
        let tail = ts.drop_first();
        assert(!spec_has_task(tail, id)) by {
            assert(forall|a: int| 0 <= a < tail.len() ==> tail[a] == ts[a + 1]);
        }
        lemma_task_of_absent(tail, id);
    }
}

/// The single shared registry: all worker entries, all task entries, and the
/// worker-id generator. Exactly one holder mutates it at a time; each public
/// operation below is one such atomic mutation.
pub struct Core {
    pub workers: Vec<Worker>,
    pub tasks: Vec<Task>,
    /// The next id `new_worker_id` will issue; ids are never reused within a
    /// process lifetime.
    pub next_worker_id: WorkerId,
}

/// A registry operation rejected an input that violates the protocol.
#[derive(Clone, Copy, Debug, PartialEq, Eq, Structural)]
pub enum CoreError {
    /// The reporting worker is not in the registry.
    UnknownWorker,
    /// The report names a task the registry does not know.
    UnknownTask,
    /// The report names a task that is not currently `Assigned`.
    TaskNotAssigned,
}

impl Core {
    /// Registry invariant: worker ids unique and below the generator, task
    /// ids unique, every task well formed.
    pub open spec fn wf(self) -> bool {
        &&& worker_ids_unique(self.workers@)
        &&& forall|i: int|
            0 <= i < self.workers@.len() ==> (#[trigger] self.workers@[i].id) < self.next_worker_id
        &&& task_ids_unique(self.tasks@)
        &&& forall|i: int| 0 <= i < self.tasks@.len() ==> (#[trigger] self.tasks@[i]).wf()
    }

    /// An empty registry that will issue worker ids starting at zero.
    pub fn new() -> (r: Core)
        ensures
            r.wf(),
            r.workers@.len() == 0,
            r.tasks@.len() == 0,
            r.next_worker_id == 0,
    {
        Core { workers: Vec::new(), tasks: Vec::new(), next_worker_id: 0 }
    }

    /// Index of the worker with id `id`, if it is registered.
    pub fn find_worker_index(&self, id: WorkerId) -> (r: Option<usize>)
        ensures
            match r {
                Some(i) => i < self.workers@.len() && self.workers@[i as int].id == id,
                None => !spec_has_worker(self.workers@, id),
            },
    {
        let mut i: usize = 0;
        while i < self.workers.len()
            invariant
                i <= self.workers@.len(),
                forall|j: int| 0 <= j < i ==> (#[trigger] self.workers@[j].id) != id,
            decreases self.workers@.len() - i,
        {
            if self.workers[i].id == id {
                return Some(i);
            }
            i = i + 1;
        }
        None
    }

    /// Index of the task with id `id`, if it is known.
    pub fn find_task_index(&self, id: TaskId) -> (r: Option<usize>)
        ensures
            match r {
                Some(i) => i < self.tasks@.len() && self.tasks@[i as int].id == id,
                None => !spec_has_task(self.tasks@, id),
            },
    {
        let mut i: usize = 0;
        while i < self.tasks.len()
            invariant
                i <= self.tasks@.len(),
                forall|j: int| 0 <= j < i ==> (#[trigger] self.tasks@[j].id) != id,
            decreases self.tasks@.len() - i,
        {
            if self.tasks[i].id == id {
                return Some(i);
            }
            i = i + 1;
        }
        None
    }

    /// Issues the next worker id. Ids increase strictly, so no two calls ever
    /// return the same id within a process lifetime, and the returned id is
    /// carried by no registered worker.
    pub fn new_worker_id(&mut self) -> (r: WorkerId)
        requires
            old(self).wf(),
            old(self).next_worker_id < WorkerId::MAX,
        ensures
            final(self).wf(),
            r == old(self).next_worker_id,
            final(self).next_worker_id == r + 1,
            final(self).workers == old(self).workers,
            final(self).tasks == old(self).tasks,
            !spec_has_worker(final(self).workers@, r),
    {
        let id = self.next_worker_id;
        self.next_worker_id = id + 1;
        id
    }

    /// Inserts a worker whose id was issued by `new_worker_id` and is not yet
    /// registered. A duplicate id would be registry corruption — a
    /// programming fault, excluded here rather than handled.
    pub fn register_worker(&mut self, worker: Worker) -> (r: WorkerId)
        requires
            old(self).wf(),
            !spec_has_worker(old(self).workers@, worker.id),
            worker.id < old(self).next_worker_id,
        ensures
            final(self).wf(),
            r == worker.id,
            final(self).workers@ == old(self).workers@.push(worker),
            final(self).workers@.len() == old(self).workers@.len() + 1,
            final(self).tasks == old(self).tasks,
            final(self).next_worker_id == old(self).next_worker_id,
            spec_has_worker(final(self).workers@, worker.id),
    {
        let id = worker.id;
        self.workers.push(worker);
        assert(spec_has_worker(self.workers@, id)) by {
            assert(self.workers@[self.workers@.len() - 1].id == id);
        }
        id
    }

    /// Removes the worker with id `id` if it is registered; removing an
    /// absent id is a no-op that leaves the registry untouched. Tasks still
    /// assigned to the worker are not touched here: callers reconcile them
    /// with `requeue_worker_tasks`.
    pub fn unregister_worker(&mut self, id: WorkerId)
        requires
            old(self).wf(),
        ensures
            final(self).wf(),
            final(self).workers@ == spec_unregister(old(self).workers@, id),
            final(self).tasks == old(self).tasks,
            final(self).next_worker_id == old(self).next_worker_id,
            !spec_has_worker(final(self).workers@, id),
            spec_has_worker(old(self).workers@, id) ==> final(self).workers@.len() == old(
                self,
            ).workers@.len() - 1,
            !spec_has_worker(old(self).workers@, id) ==> *final(self) == *old(self),
            forall|w: WorkerId|
                w != id ==> (spec_has_worker(final(self).workers@, w) <==> spec_has_worker(
                    old(self).workers@,
                    w,
                )),
            forall|w: WorkerId|
                w != id ==> spec_worker_of(final(self).workers@, w) == spec_worker_of(
                    old(self).workers@,
                    w,
                ),
    {
        let found = self.find_worker_index(id);
        match found {
            Some(i) => {
                self.workers.remove(i);
                proof {
                    lemma_unregister_at(old(self).workers@, id, i as int);
                    assert(!spec_has_worker(self.workers@, id)) by {
                        assert(forall|j: int|
                            0 <= j < self.workers@.len() ==> (#[trigger] self.workers@[j])
                                == if j < i as int {
                                old(self).workers@[j]
                            } else {
                                old(self).workers@[j + 1]
                            });
                    }
                    lemma_unregister_others(old(self).workers@, self.workers@, id, i as int);
                }
            },
            None => {
                proof {
                    lemma_unregister_absent(self.workers@, id);
                }
            },
        }
    }
}

/// The workers that remain when the first entry with id `id` is removed;
/// the whole sequence when no entry carries `id`.
pub open spec fn spec_unregister(ws: Seq<Worker>, id: WorkerId) -> Seq<Worker>
    decreases ws.len(),
{
    if ws.len() == 0 {
        ws
    } else if ws[0].id == id {
        ws.drop_first()
    } else {
        seq![ws[0]] + spec_unregister(ws.drop_first(), id)
    }
}

/// Unregistering an id that no worker carries changes nothing.
pub proof fn lemma_unregister_absent(ws: Seq<Worker>, id: WorkerId)
    requires
        !spec_has_worker(ws, id),
    ensures
        spec_unregister(ws, id) == ws,
    decreases ws.len(),
{
    if ws.len() == 0 {
        assert(spec_unregister(ws, id) =~= ws);
    } else {
        let tail = ws.drop_first();
        assert(ws[0].id != id);
        assert(!spec_has_worker(tail, id)) by {
            assert(forall|a: int| 0 <= a < tail.len() ==> tail[a] == ws[a + 1]);
        }
        lemma_unregister_absent(tail, id);
        assert(spec_unregister(ws, id) =~= ws);
    }
}

/// When the first entry with id `id` sits at index `i`, unregistering
/// removes exactly that index.
pub proof fn lemma_unregister_at(ws: Seq<Worker>, id: WorkerId, i: int)
    requires
        0 <= i < ws.len(),
        ws[i].id == id,
        forall|j: int| 0 <= j < i ==> (#[trigger] ws[j].id) != id,
    ensures
        spec_unregister(ws, id) == ws.remove(i),
    decreases i,
{
    if i == 0 {
        assert(spec_unregister(ws, id) =~= ws.remove(0));
    } else {
        let tail = ws.drop_first();
        assert(forall|a: int| 0 <= a < tail.len() ==> tail[a] == ws[a + 1]);
        lemma_unregister_at(tail, id, i - 1);
        assert(spec_unregister(ws, id) =~= ws.remove(i));
    }
}

/// Removing index `i` keeps every worker with a different id findable, with
/// the same entry.
proof fn lemma_unregister_others(ws: Seq<Worker>, after: Seq<Worker>, id: WorkerId, i: int)
    requires
        worker_ids_unique(ws),
        0 <= i < ws.len(),
        ws[i].id == id,
        after == ws.remove(i),
    ensures
        forall|w: WorkerId|
            w != id ==> (spec_has_worker(after, w) <==> spec_has_worker(ws, w)),
        forall|w: WorkerId| w != id ==> spec_worker_of(after, w) == spec_worker_of(ws, w),
{
    assert(forall|j: int|
        0 <= j < after.len() ==> (#[trigger] after[j]) == if j < i {
            ws[j]
        } else {
            ws[j + 1]
        });
    assert forall|w: WorkerId| w != id implies (spec_has_worker(after, w) <==> spec_has_worker(
        ws,
        w,
    )) by {
        if spec_has_worker(after, w) {
            let j = choose|j: int| 0 <= j < after.len() && (#[trigger] after[j].id) == w;
            if j < i {
                assert(ws[j].id == w);
            } else {
                assert(ws[j + 1].id == w);
            }
        }
        if spec_has_worker(ws, w) {
            let j = choose|j: int| 0 <= j < ws.len() && (#[trigger] ws[j].id) == w;
            assert(j != i);
            if j < i {
                assert(after[j].id == w);
            } else {
                assert(after[j - 1].id == w);
            }
        }
    }
    assert forall|w: WorkerId| w != id implies spec_worker_of(after, w) == spec_worker_of(
        ws,
        w,
    ) by {
        if spec_has_worker(ws, w) {
            let j = choose|j: int| 0 <= j < ws.len() && (#[trigger] ws[j].id) == w;
            lemma_worker_of_index(ws, j);
            assert(worker_ids_unique(after)) by {
                assert(forall|a: int, b: int|
                    #![trigger after[a].id, after[b].id]
                    0 <= a < b < after.len() ==> after[a].id != after[b].id);
            }
            if j < i {
                lemma_worker_of_index(after, j);
            } else {
                assert(after[j - 1] == ws[j]);
                lemma_worker_of_index(after, j - 1);
            }
        } else {
            assert(!spec_has_worker(after, w)) by {
                if spec_has_worker(after, w) {
                    let j = choose|j: int|
                        0 <= j < after.len() && (#[trigger] after[j].id) == w;
                    if j < i {
                        assert(ws[j].id == w);
                    } else {
                        assert(ws[j + 1].id == w);
                    }
                }
            }
            lemma_worker_of_absent(ws, w);
            lemma_worker_of_absent(after, w);
        }
    }
}

} // verus!

verus! {

/// `t` with its placement recorded.
pub open spec fn spec_placed(t: Task, w: WorkerId) -> Task {
    Task {
        id: t.id,
        state: t.state,
        assigned_worker: Some(w),
        deps: t.deps,
        result_location: t.result_location,
    }
}

/// `t` after a success report: finished, its result at `loc`.
pub open spec fn spec_finished(t: Task, loc: String) -> Task {
    Task {
        id: t.id,
        state: TaskState::Finished,
        assigned_worker: t.assigned_worker,
        deps: t.deps,
        result_location: Some(loc),
    }
}

/// `t` after a failure report.
pub open spec fn spec_erred(t: Task) -> Task {
    Task {
        id: t.id,
        state: TaskState::Error,
        assigned_worker: t.assigned_worker,
        deps: t.deps,
        result_location: t.result_location,
    }
}

/// One report-phase step as seen from outside: a task is untouched, or it
/// was `Assigned` and a report moved it to a terminal state.
pub open spec fn report_step(t0: Task, t1: Task) -> bool {
    ||| t1 == t0
    ||| (t0.state is Assigned && (t1.state is Finished || t1.state is Error) && t1.id == t0.id)
}

/// `t` returned to the waiting pool after its worker was lost.
pub open spec fn spec_requeued(t: Task) -> Task {
    Task {
        id: t.id,
        state: TaskState::Waiting,
        assigned_worker: None,
        deps: t.deps,
        result_location: t.result_location,
    }
}

/// Every key in `deps` names a task in `ts` that is `Finished`.
pub open spec fn all_deps_finished(ts: Seq<Task>, deps: Seq<TaskId>) -> bool {
    forall|k: int|
        0 <= k < deps.len() ==> ((#[trigger] spec_task_of(ts, deps[k])) matches Some(d)
            && d.state is Finished)
}

/// Whether `t` became ready to assign the moment `finished` finished: it is
/// still waiting, it depends on `finished`, and no dependency is unfinished.
pub open spec fn task_ready(ts: Seq<Task>, t: Task, finished: TaskId) -> bool {
    &&& t.state is Waiting
    &&& t.deps@.contains(finished)
    &&& all_deps_finished(ts, t.deps@)
}

/// The ids of the tasks among the first `n` of `ts` that became ready when
/// `finished` finished, in task order.
pub open spec fn spec_newly_ready_upto(ts: Seq<Task>, finished: TaskId, n: int) -> Seq<TaskId>
    decreases n,
{
    if n <= 0 {
        Seq::empty()
    } else {
        let rest = spec_newly_ready_upto(ts, finished, n - 1);
        if task_ready(ts, ts[n - 1], finished) {
            rest.push(ts[n - 1].id)
        } else {
            rest
        }
    }
}

/// The ids of all tasks in `ts` that became ready when `finished` finished,
/// in task order.
pub open spec fn spec_newly_ready(ts: Seq<Task>, finished: TaskId) -> Seq<TaskId> {
    spec_newly_ready_upto(ts, finished, ts.len() as int)
}

/// Whether `v` holds `x`.
pub fn vec_contains(v: &Vec<TaskId>, x: TaskId) -> (r: bool)
    ensures
        r == v@.contains(x),
{
    let mut i: usize = 0;
    while i < v.len()
        invariant
            i <= v@.len(),
            forall|j: int| 0 <= j < i ==> v@[j] != x,
        decreases v@.len() - i,
    {
        if v[i] == x {
            return true;
        }
        i = i + 1;
    }
    false
}

impl Core {
    /// Whether every key in `deps` names a finished task.
    fn deps_finished(&self, deps: &Vec<TaskId>) -> (r: bool)
        requires
            task_ids_unique(self.tasks@),
        ensures
            r == all_deps_finished(self.tasks@, deps@),
    {
        let mut k: usize = 0;
        while k < deps.len()
            invariant
                task_ids_unique(self.tasks@),
                k <= deps@.len(),
                forall|j: int|
                    0 <= j < k ==> ((#[trigger] spec_task_of(self.tasks@, deps@[j])) matches Some(
                        d,
                    ) && d.state is Finished),
            decreases deps@.len() - k,
        {
            let dep = deps[k];
            match self.find_task_index(dep) {
                Some(i) => {
                    proof {
                        lemma_task_of_index(self.tasks@, i as int);
                    }
                    if !(self.tasks[i].state == TaskState::Finished) {
                        return false;
                    }
                },
                None => {
                    proof {
                        lemma_task_of_absent(self.tasks@, dep);
                    }
                    return false;
                },
            }
            k = k + 1;
        }
        true
    }

    /// Records a task the task-graph source submitted: it enters `Waiting`.
    /// A task id is never registered twice (registry invariant); a duplicate
    /// submission is a caller fault, excluded rather than handled.
    pub fn add_task(&mut self, task: Task)
        requires
            old(self).wf(),
            !spec_has_task(old(self).tasks@, task.id),
            task.state is Waiting,
        ensures
            final(self).wf(),
            final(self).tasks@ == old(self).tasks@.push(task),
            final(self).workers == old(self).workers,
            final(self).next_worker_id == old(self).next_worker_id,
            spec_has_task(final(self).tasks@, task.id),
    {
        self.tasks.push(task);
        assert(spec_has_task(self.tasks@, task.id)) by {
            assert(self.tasks@[self.tasks@.len() - 1].id == task.id);
        }
    }

    /// Records the scheduling authority's placement decision on a waiting
    /// task. Returns whether anything was recorded: placement on an unknown
    /// task or on one that already left `Waiting` is refused and changes
    /// nothing.
    pub fn set_task_placement(&mut self, task: TaskId, worker: WorkerId) -> (r: bool)
        requires
            old(self).wf(),
        ensures
            final(self).wf(),
            final(self).workers == old(self).workers,
            final(self).next_worker_id == old(self).next_worker_id,
            final(self).tasks@.len() == old(self).tasks@.len(),
            r == (spec_task_of(old(self).tasks@, task) matches Some(t) && t.state is Waiting),
            forall|i: int|
                0 <= i < old(self).tasks@.len() ==> final(self).tasks@[i] == (
                if old(self).tasks@[i].id == task && old(self).tasks@[i].state is Waiting {
                    spec_placed(old(self).tasks@[i], worker)
                } else {
                    old(self).tasks@[i]
                }),
    {
        let found = self.find_task_index(task);
        match found {
            Some(i) => {
                proof {
                    lemma_task_of_index(old(self).tasks@, i as int);
                }
                if self.tasks[i].state == TaskState::Waiting {
                    self.tasks[i].assigned_worker = Some(worker);
                    assert forall|a: int, b: int|
                        #![trigger self.tasks@[a].id, self.tasks@[b].id]
                        0 <= a < b < self.tasks@.len() implies self.tasks@[a].id
                        != self.tasks@[b].id by {
                        assert(self.tasks@[a].id == old(self).tasks@[a].id);
                        assert(self.tasks@[b].id == old(self).tasks@[b].id);
                    }
                    true
                } else {
                    false
                }
            },
            None => {
                proof {
                    lemma_task_of_absent(old(self).tasks@, task);
                }
                false
            },
        }
    }
}

} // verus!

verus! {

impl Core {
    /// Applies a worker's success report: the named task becomes `Finished`
    /// and its result location is recorded as the reporting worker's address;
    /// every task that thereby became ready to assign is appended to
    /// `ready`, in task order. A report whose status is not success belongs
    /// on the error path (`on_task_erred`), never here.
    ///
    /// Reports from unregistered workers, about unknown tasks, or about tasks
    /// not currently `Assigned` violate the protocol: they are rejected and
    /// change nothing.
    pub fn on_task_finished(
        &mut self,
        worker_id: WorkerId,
        msg: &TaskFinishedMsg,
        ready: &mut Vec<TaskId>,
    ) -> (r: Result<(), CoreError>)
        requires
            old(self).wf(),
            msg.status is Success,
        ensures
            final(self).wf(),
            final(self).workers == old(self).workers,
            final(self).next_worker_id == old(self).next_worker_id,
            final(self).tasks@.len() == old(self).tasks@.len(),
            forall|i: int|
                0 <= i < old(self).tasks@.len() ==> task_edge_ok(
                    old(self).tasks@[i].state,
                    final(self).tasks@[i].state,
                ),
            forall|i: int|
                0 <= i < old(self).tasks@.len() ==> report_step(
                    old(self).tasks@[i],
                    #[trigger] final(self).tasks@[i],
                ),
            match r {
                Ok(_) => spec_has_worker(old(self).workers@, worker_id) && (spec_task_of(
                    old(self).tasks@,
                    msg.key,
                ) matches Some(t) && t.state is Assigned),
                Err(CoreError::UnknownWorker) => !spec_has_worker(old(self).workers@, worker_id),
                Err(CoreError::UnknownTask) => spec_has_worker(old(self).workers@, worker_id)
                    && !spec_has_task(old(self).tasks@, msg.key),
                Err(CoreError::TaskNotAssigned) => spec_has_worker(old(self).workers@, worker_id)
                    && (spec_task_of(old(self).tasks@, msg.key) matches Some(t) && !(
                t.state is Assigned)),
            },
            r is Err ==> *final(self) == *old(self) && final(ready)@ == old(ready)@,
            r is Ok ==> (spec_worker_of(old(self).workers@, worker_id) matches Some(w)
                && forall|i: int|
                0 <= i < old(self).tasks@.len() ==> final(self).tasks@[i] == (
                if old(self).tasks@[i].id == msg.key {
                    spec_finished(old(self).tasks@[i], w.listen_address)
                } else {
                    old(self).tasks@[i]
                })),
            r is Ok ==> final(ready)@ == old(ready)@ + spec_newly_ready(
                final(self).tasks@,
                msg.key,
            ),
    {
        let wi = match self.find_worker_index(worker_id) {
            Some(wi) => wi,
            None => {
                return Err(CoreError::UnknownWorker);
            },
        };
        proof {
            lemma_worker_of_index(self.workers@, wi as int);
        }
        let ti = match self.find_task_index(msg.key) {
            Some(ti) => ti,
            None => {
                proof {
                    lemma_task_of_absent(self.tasks@, msg.key);
                }
                return Err(CoreError::UnknownTask);
            },
        };
        proof {
            lemma_task_of_index(self.tasks@, ti as int);
        }
        if !(self.tasks[ti].state == TaskState::Assigned) {
            return Err(CoreError::TaskNotAssigned);
        }
        let addr = self.workers[wi].listen_address.clone();
        self.tasks[ti].state = TaskState::Finished;
        self.tasks[ti].result_location = Some(addr);
        assert(task_ids_unique(self.tasks@) && self.wf()) by {
            assert(forall|i: int|
                0 <= i < self.tasks@.len() ==> (#[trigger] self.tasks@[i]).id == old(
                    self,
                ).tasks@[i].id);
            assert(forall|i: int|
                0 <= i < self.tasks@.len() ==> (#[trigger] self.tasks@[i]).wf());
        }
        let ghost ts = self.tasks@;
        let mut i: usize = 0;
        while i < self.tasks.len()
            invariant
                self.wf(),
                self.tasks@ == ts,
                self.workers == old(self).workers,
                self.next_worker_id == old(self).next_worker_id,
                i <= ts.len(),
                ready@ == old(ready)@ + spec_newly_ready_upto(ts, msg.key, i as int),
            decreases ts.len() - i,
        {
            let waiting = self.tasks[i].state == TaskState::Waiting;
            let depends = vec_contains(&self.tasks[i].deps, msg.key);
            let all_done = self.deps_finished(&self.tasks[i].deps);
            if waiting && depends && all_done {
                let tid = self.tasks[i].id;
                ready.push(tid);
            }
            i = i + 1;
        }
        Ok(())
    }

    /// Applies a worker's failure report: the named task becomes `Error`.
    /// Failure is not propagated by marking dependents — they simply can
    /// never become ready, because readiness demands every dependency
    /// `Finished` (fail-fast). Rejection cases are as for `on_task_finished`.
    pub fn on_task_erred(&mut self, worker_id: WorkerId, msg: &TaskErredMsg) -> (r: Result<
        (),
        CoreError,
    >)
        requires
            old(self).wf(),
        ensures
            final(self).wf(),
            final(self).workers == old(self).workers,
            final(self).next_worker_id == old(self).next_worker_id,
            final(self).tasks@.len() == old(self).tasks@.len(),
            forall|i: int|
                0 <= i < old(self).tasks@.len() ==> task_edge_ok(
                    old(self).tasks@[i].state,
                    final(self).tasks@[i].state,
                ),
            forall|i: int|
                0 <= i < old(self).tasks@.len() ==> report_step(
                    old(self).tasks@[i],
                    #[trigger] final(self).tasks@[i],
                ),
            match r {
                Ok(_) => spec_has_worker(old(self).workers@, worker_id) && (spec_task_of(
                    old(self).tasks@,
                    msg.key,
                ) matches Some(t) && t.state is Assigned),
                Err(CoreError::UnknownWorker) => !spec_has_worker(old(self).workers@, worker_id),
                Err(CoreError::UnknownTask) => spec_has_worker(old(self).workers@, worker_id)
                    && !spec_has_task(old(self).tasks@, msg.key),
                Err(CoreError::TaskNotAssigned) => spec_has_worker(old(self).workers@, worker_id)
                    && (spec_task_of(old(self).tasks@, msg.key) matches Some(t) && !(
                t.state is Assigned)),
            },
            r is Err ==> *final(self) == *old(self),
            r is Ok ==> forall|i: int|
                0 <= i < old(self).tasks@.len() ==> final(self).tasks@[i] == (
                if old(self).tasks@[i].id == msg.key {
                    spec_erred(old(self).tasks@[i])
                } else {
                    old(self).tasks@[i]
                }),
    {
        if self.find_worker_index(worker_id).is_none() {
            return Err(CoreError::UnknownWorker);
        }
        let ti = match self.find_task_index(msg.key) {
            Some(ti) => ti,
            None => {
                proof {
                    lemma_task_of_absent(self.tasks@, msg.key);
                }
                return Err(CoreError::UnknownTask);
            },
        };
        proof {
            lemma_task_of_index(self.tasks@, ti as int);
        }
        if !(self.tasks[ti].state == TaskState::Assigned) {
            return Err(CoreError::TaskNotAssigned);
        }
        self.tasks[ti].state = TaskState::Error;
        assert(self.wf()) by {
            assert(forall|i: int|
                0 <= i < self.tasks@.len() ==> (#[trigger] self.tasks@[i]).id == old(
                    self,
                ).tasks@[i].id);
            assert(forall|i: int|
                0 <= i < self.tasks@.len() ==> (#[trigger] self.tasks@[i]).wf());
        }
        Ok(())
    }

    /// Disconnect reconciliation: every task still `Assigned` to the lost
    /// worker returns to `Waiting` with its placement cleared, so the
    /// scheduling authority can place it again. Callers run this together
    /// with `unregister_worker` when a worker's connection terminates.
    pub fn requeue_worker_tasks(&mut self, worker_id: WorkerId)
        requires
            old(self).wf(),
        ensures
            final(self).wf(),
            final(self).workers == old(self).workers,
            final(self).next_worker_id == old(self).next_worker_id,
            final(self).tasks@.len() == old(self).tasks@.len(),
            forall|i: int|
                0 <= i < old(self).tasks@.len() ==> final(self).tasks@[i] == (
                if old(self).tasks@[i].state is Assigned && old(self).tasks@[i].assigned_worker
                    == Some(worker_id) {
                    spec_requeued(old(self).tasks@[i])
                } else {
                    old(self).tasks@[i]
                }),
    {
        let mut i: usize = 0;
        while i < self.tasks.len()
            invariant
                old(self).wf(),
                self.workers == old(self).workers,
                self.next_worker_id == old(self).next_worker_id,
                self.tasks@.len() == old(self).tasks@.len(),
                i <= self.tasks@.len(),
                forall|j: int|
                    0 <= j < i ==> self.tasks@[j] == (
                    if old(self).tasks@[j].state is Assigned && old(
                        self,
                    ).tasks@[j].assigned_worker == Some(worker_id) {
                        spec_requeued(old(self).tasks@[j])
                    } else {
                        old(self).tasks@[j]
                    }),
                forall|j: int|
                    i <= j < self.tasks@.len() ==> self.tasks@[j] == old(self).tasks@[j],
            decreases self.tasks@.len() - i,
        {
            let hit = self.tasks[i].state == TaskState::Assigned && (match self
                .tasks[i]
                .assigned_worker {
                Some(w) => w == worker_id,
                None => false,
            });
            if hit {
                self.tasks[i].state = TaskState::Waiting;
                self.tasks[i].assigned_worker = None;
            }
            i = i + 1;
        }
        assert(self.wf()) by {
            assert(forall|i: int|
                0 <= i < self.tasks@.len() ==> (#[trigger] self.tasks@[i]).id == old(
                    self,
                ).tasks@[i].id);
            assert(forall|i: int|
                0 <= i < self.tasks@.len() ==> (#[trigger] self.tasks@[i]).wf());
        }
    }
}

} // verus!

verus! {

/// `t` handed to its chosen worker.
pub open spec fn spec_assigned(t: Task) -> Task {
    Task {
        id: t.id,
        state: TaskState::Assigned,
        assigned_worker: t.assigned_worker,
        deps: t.deps,
        result_location: t.result_location,
    }
}

/// The address at which `id`'s result can be fetched; empty while the task
/// is unknown or unfinished.
pub open spec fn spec_location_of(ts: Seq<Task>, id: TaskId) -> Seq<char> {
    match spec_task_of(ts, id) {
        Some(t) => match t.result_location {
            Some(l) => l@,
            None => Seq::empty(),
        },
        None => Seq::empty(),
    }
}

impl Core {
    /// The address at which `id`'s result sits; empty when unknown.
    pub fn location_of(&self, id: TaskId) -> (r: String)
        requires
            task_ids_unique(self.tasks@),
        ensures
            r@ == spec_location_of(self.tasks@, id),
    {
        match self.find_task_index(id) {
            Some(i) => {
                proof {
                    lemma_task_of_index(self.tasks@, i as int);
                }
                match &self.tasks[i].result_location {
                    Some(l) => l.clone(),
                    None => String::new(),
                }
            },
            None => {
                proof {
                    lemma_task_of_absent(self.tasks@, id);
                }
                String::new()
            },
        }
    }
}

impl Task {
    /// Builds the entry's dispatch order: its key and, for each
    /// dependency in order, the address holding that dependency's result.
    pub fn make_compute_task_msg(&self, core: &Core) -> (m: ComputeTaskMsg)
        requires
            task_ids_unique(core.tasks@),
        ensures
            m.key == self.id,
            m.who_has@.len() == self.deps@.len(),
            forall|j: int|
                0 <= j < self.deps@.len() ==> (#[trigger] m.who_has@[j]).0 == self.deps@[j]
                    && m.who_has@[j].1@ == spec_location_of(core.tasks@, self.deps@[j]),
    {
        let mut who_has: Vec<(TaskId, String)> = Vec::new();
        let mut j: usize = 0;
        while j < self.deps.len()
            invariant
                task_ids_unique(core.tasks@),
                j <= self.deps@.len(),
                who_has@.len() == j,
                forall|k: int|
                    0 <= k < j ==> (#[trigger] who_has@[k]).0 == self.deps@[k] && who_has@[k].1@
                        == spec_location_of(core.tasks@, self.deps@[k]),
            decreases self.deps@.len() - j,
        {
            let dep = self.deps[j];
            let loc = core.location_of(dep);
            who_has.push((dep, loc));
            j = j + 1;
        }
        ComputeTaskMsg { key: self.id, who_has }
    }
}

} // verus!

verus! {

/// One worker-registry operation, as `register_worker` and
/// `unregister_worker` perform it.
pub enum RegistryOp {
    Register(Worker),
    Unregister(WorkerId),
}

/// What one operation does to the worker table: exactly the `ensures` of
/// `register_worker` and `unregister_worker`.
pub open spec fn apply_op(ws: Seq<Worker>, op: RegistryOp) -> Seq<Worker> {
    match op {
        RegistryOp::Register(w) => ws.push(w),
        RegistryOp::Unregister(id) => spec_unregister(ws, id),
    }
}

/// A sequence of operations applied left to right.
pub open spec fn apply_ops(ws: Seq<Worker>, ops: Seq<RegistryOp>) -> Seq<Worker>
    decreases ops.len(),
{
    if ops.len() == 0 {
        ws
    } else {
        apply_ops(apply_op(ws, ops[0]), ops.drop_first())
    }
}

/// A well-used operation: registration brings a fresh id, unregistration
/// names a present one.
pub open spec fn op_valid(ws: Seq<Worker>, op: RegistryOp) -> bool {
    match op {
        RegistryOp::Register(w) => !spec_has_worker(ws, w.id),
        RegistryOp::Unregister(id) => spec_has_worker(ws, id),
    }
}

/// Every operation in the sequence is well used in the state it meets.
pub open spec fn ops_valid(ws: Seq<Worker>, ops: Seq<RegistryOp>) -> bool
    decreases ops.len(),
{
    ops.len() == 0 || (op_valid(ws, ops[0]) && ops_valid(apply_op(ws, ops[0]), ops.drop_first()))
}

/// Registrations minus unregistrations.
pub open spec fn count_delta(ops: Seq<RegistryOp>) -> int
    decreases ops.len(),
{
    if ops.len() == 0 {
        0
    } else {
        (match ops[0] {
            RegistryOp::Register(_) => 1int,
            RegistryOp::Unregister(_) => -1int,
        }) + count_delta(ops.drop_first())
    }
}

/// Unregistering a present id removes exactly one entry.
pub proof fn lemma_unregister_len(ws: Seq<Worker>, id: WorkerId)
    requires
        spec_has_worker(ws, id),
    ensures
        spec_unregister(ws, id).len() == ws.len() - 1,
    decreases ws.len(),
{
    if ws[0].id != id {
        let tail = ws.drop_first();
        assert(spec_has_worker(tail, id)) by {
            let j = choose|j: int| 0 <= j < ws.len() && (#[trigger] ws[j].id) == id;
            assert(tail[j - 1].id == id);
        }
        lemma_unregister_len(tail, id);
    }
}

/// For every sequence of register and unregister operations in which each
/// registration brings a fresh id and each unregistration names a present
/// worker, the worker count afterwards is the count before plus the number
/// of registrations minus the number of unregistrations.
pub proof fn lemma_worker_count(ws: Seq<Worker>, ops: Seq<RegistryOp>)
    requires
        ops_valid(ws, ops),
    ensures
        apply_ops(ws, ops).len() == ws.len() + count_delta(ops),
    decreases ops.len(),
{
    if ops.len() > 0 {
        match ops[0] {
            RegistryOp::Register(_) => {},
            RegistryOp::Unregister(id) => {
                lemma_unregister_len(ws, id);
            },
        }
        lemma_worker_count(apply_op(ws, ops[0]), ops.drop_first());
    }
}

/// Every id `new_worker_id` ever issues is unique: each call returns the
/// counter's value and strictly increases the counter, so the i-th id issued
/// after the counter stood at `start` is `start + i`, and no two differ by
/// zero.
pub proof fn lemma_issued_ids_unique(start: WorkerId, ids: Seq<WorkerId>)
    requires
        forall|i: int| 0 <= i < ids.len() ==> (#[trigger] ids[i]) == start + i,
    ensures
        forall|i: int, j: int|
            #![trigger ids[i], ids[j]]
            0 <= i < j < ids.len() ==> ids[i] != ids[j],
{
}

} // verus!
