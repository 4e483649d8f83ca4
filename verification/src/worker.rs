//! The scheduler's per-worker registry entry and the worker-connection
//! handler logic: the registration handshake, the processing of inbound
//! report batches, and the dispatch of newly-ready tasks.
//!
//! The asynchronous connection pump around this logic lives outside the
//! library; it hands decoded messages in and drains the outbound queues.

use crate::messages::{HeartbeatResponse, WorkerId, WorkerOutbound};
use crate::scheduler::WorkerInfo;
use vstd::prelude::*;

verus! {

/// How often a worker is asked to report in, in microseconds.
pub const HEARTBEAT_INTERVAL: u64 = 1_000_000;

/// The number of execution slots assumed when a worker reports none.
pub const DEFAULT_NCPUS: u32 = 1;

/// A connected worker, as the registry tracks it: identity, capacity, the
/// address it advertised, and the ordered queue of messages bound for its
/// connection.
pub struct Worker {
    pub id: WorkerId,
    pub ncpus: u32,
    pub listen_address: String,
    /// Unbounded, order-preserving outbound channel; one item per wire frame.
    pub outbound: Vec<WorkerOutbound>,
}

impl Worker {
    /// The identity the registry issued for this worker.
    pub fn id(&self) -> (r: WorkerId)
        ensures
            r == self.id,
    {
        self.id
    }

    /// The summary of this worker that the scheduling authority is told.
    pub fn make_sched_info(&self) -> (r: WorkerInfo)
        ensures
            r.id == self.id,
            r.ncpus == self.ncpus,
    {
        WorkerInfo { id: self.id, ncpus: self.ncpus }
    }

    /// Queues one message for this worker's connection. The channel is
    /// unbounded and order-preserving, so queueing never fails and never
    /// reorders.
    pub fn send_message(&mut self, msg: WorkerOutbound)
        ensures
            final(self).outbound@ == old(self).outbound@.push(msg),
            final(self).id == old(self).id,
            final(self).ncpus == old(self).ncpus,
            final(self).listen_address == old(self).listen_address,
    {
        self.outbound.push(msg);
    }

    /// Drains the outbound queue: everything queued so far, in order.
    /// The connection pump's send loop calls this to obtain the frames it
    /// must write next.
    pub fn take_outbound(&mut self) -> (r: Vec<WorkerOutbound>)
        ensures
            r@ == old(self).outbound@,
            final(self).outbound@.len() == 0,
            final(self).id == old(self).id,
            final(self).ncpus == old(self).ncpus,
            final(self).listen_address == old(self).listen_address,
    {
        let mut out: Vec<WorkerOutbound> = Vec::new();
        std::mem::swap(&mut self.outbound, &mut out);
        out
    }
}

} // verus!

verus! {

use crate::messages::{ComputeTaskMsg, FromWorkerMessage, RegisterWorkerMsg, Status, TaskErredMsg, TaskId, ToWorkerMessage};
use crate::registry::{
    lemma_task_of_absent, lemma_task_of_index, spec_assigned, spec_location_of, spec_task_of,
    task_ids_unique, Core, CoreError, Task, TaskState,
};

/// The worker on which the task with key `id` is placed, if the task is
/// known and placed.
pub open spec fn placed_worker(ts: Seq<Task>, id: TaskId) -> Option<WorkerId> {
    match spec_task_of(ts, id) {
        Some(t) => t.assigned_worker,
        None => None,
    }
}

/// Whether the task with key `id` can be handed out: it is known, still
/// waiting, and the scheduling authority has placed it on some worker.
pub open spec fn dispatchable(ts: Seq<Task>, id: TaskId) -> bool {
    spec_task_of(ts, id) matches Some(t) && t.state is Waiting && t.assigned_worker is Some
}

/// The distinct workers that the ready keys of `ready` are placed on, in
/// order of each worker's first appearance.
pub open spec fn spec_batch_workers(ts: Seq<Task>, ready: Seq<TaskId>) -> Seq<WorkerId>
    decreases ready.len(),
{
    if ready.len() == 0 {
        Seq::empty()
    } else {
        let rest = spec_batch_workers(ts, ready.drop_last());
        match placed_worker(ts, ready.last()) {
            Some(w) => if rest.contains(w) {
                rest
            } else {
                rest.push(w)
            },
            None => rest,
        }
    }
}

/// The keys of `ready` placed on worker `w`, keeping ready order.
pub open spec fn spec_tasks_for(ts: Seq<Task>, ready: Seq<TaskId>, w: WorkerId) -> Seq<TaskId>
    decreases ready.len(),
{
    if ready.len() == 0 {
        Seq::empty()
    } else {
        let rest = spec_tasks_for(ts, ready.drop_last(), w);
        if placed_worker(ts, ready.last()) == Some(w) {
            rest.push(ready.last())
        } else {
            rest
        }
    }
}

/// No worker appears twice among the batch workers.
pub proof fn lemma_batch_workers_distinct(ts: Seq<Task>, ready: Seq<TaskId>)
    ensures
        forall|a: int, b: int|
            0 <= a < b < spec_batch_workers(ts, ready).len() ==> spec_batch_workers(ts, ready)[a]
                != spec_batch_workers(ts, ready)[b],
    decreases ready.len(),
{
    if ready.len() > 0 {
        lemma_batch_workers_distinct(ts, ready.drop_last());
        let rest = spec_batch_workers(ts, ready.drop_last());
        let whole = spec_batch_workers(ts, ready);
        if whole.len() == rest.len() + 1 {
            assert forall|a: int, b: int| 0 <= a < b < whole.len() implies whole[a]
                != whole[b] by {
                if b < whole.len() - 1 {
                    assert(whole[a] == rest[a] && whole[b] == rest[b]);
                } else {
                    assert(whole[a] == rest[a]);
                    assert(!rest.contains(whole[b]));
                }
            }
        }
    }
}

/// The worker `id` is placed on, if any.
fn placed_worker_of(core: &Core, id: TaskId) -> (r: Option<WorkerId>)
    requires
        task_ids_unique(core.tasks@),
    ensures
        r == placed_worker(core.tasks@, id),
{
    match core.find_task_index(id) {
        Some(i) => {
            proof {
                lemma_task_of_index(core.tasks@, i as int);
            }
            core.tasks[i].assigned_worker
        },
        None => {
            proof {
                lemma_task_of_absent(core.tasks@, id);
            }
            None
        },
    }
}

/// The distinct workers the ready keys are placed on, first appearance
/// first.
fn collect_batch_workers(core: &Core, ready: &Vec<TaskId>) -> (ws: Vec<WorkerId>)
    requires
        task_ids_unique(core.tasks@),
    ensures
        ws@ == spec_batch_workers(core.tasks@, ready@),
{
    let ghost ts = core.tasks@;
    let mut ws: Vec<WorkerId> = Vec::new();
    let mut k: usize = 0;
    while k < ready.len()
        invariant
            task_ids_unique(core.tasks@),
            core.tasks@ == ts,
            k <= ready@.len(),
            ws@ == spec_batch_workers(ts, ready@.take(k as int)),
        decreases ready@.len() - k,
    {
        proof {
            assert(ready@.take(k + 1 as int).drop_last() =~= ready@.take(k as int));
            assert(ready@.take(k + 1 as int).last() == ready@[k as int]);
        }
        let placed = placed_worker_of(core, ready[k]);
        match placed {
            Some(w) => {
                if !crate::registry::vec_contains(&ws, w) {
                    ws.push(w);
                }
            },
            None => {},
        }
        k = k + 1;
    }
    proof {
        assert(ready@.take(ready@.len() as int) =~= ready@);
    }
    ws
}

/// The ready keys placed on `w`, keeping ready order.
fn collect_tasks_for(core: &Core, ready: &Vec<TaskId>, w: WorkerId) -> (list: Vec<TaskId>)
    requires
        task_ids_unique(core.tasks@),
    ensures
        list@ == spec_tasks_for(core.tasks@, ready@, w),
{
    let ghost ts = core.tasks@;
    let mut list: Vec<TaskId> = Vec::new();
    let mut k: usize = 0;
    while k < ready.len()
        invariant
            task_ids_unique(core.tasks@),
            core.tasks@ == ts,
            k <= ready@.len(),
            list@ == spec_tasks_for(ts, ready@.take(k as int), w),
        decreases ready@.len() - k,
    {
        proof {
            assert(ready@.take(k + 1 as int).drop_last() =~= ready@.take(k as int));
            assert(ready@.take(k + 1 as int).last() == ready@[k as int]);
        }
        let placed = placed_worker_of(core, ready[k]);
        let hit = match placed {
            Some(pw) => pw == w,
            None => false,
        };
        if hit {
            list.push(ready[k]);
        }
        k = k + 1;
    }
    proof {
        assert(ready@.take(ready@.len() as int) =~= ready@);
    }
    list
}

} // verus!

verus! {

/// Marks every ready key `Assigned`. Each key must be dispatchable and no
/// key may repeat; the keys' other fields, and everything else in the
/// registry, stay untouched.
fn mark_assigned(core: &mut Core, ready: &Vec<TaskId>)
    requires
        old(core).wf(),
        forall|k: int| 0 <= k < ready@.len() ==> dispatchable(old(core).tasks@, ready@[k]),
        forall|a: int, b: int| 0 <= a < b < ready@.len() ==> ready@[a] != ready@[b],
    ensures
        final(core).wf(),
        final(core).workers == old(core).workers,
        final(core).next_worker_id == old(core).next_worker_id,
        final(core).tasks@.len() == old(core).tasks@.len(),
        forall|i: int|
            0 <= i < old(core).tasks@.len() ==> final(core).tasks@[i] == (
            if ready@.contains(old(core).tasks@[i].id) {
                spec_assigned(old(core).tasks@[i])
            } else {
                old(core).tasks@[i]
            }),
{
    let ghost ts0 = old(core).tasks@;
    let mut k: usize = 0;
    while k < ready.len()
        invariant
            old(core).wf(),
            ts0 == old(core).tasks@,
            forall|kk: int| 0 <= kk < ready@.len() ==> dispatchable(ts0, ready@[kk]),
            forall|a: int, b: int| 0 <= a < b < ready@.len() ==> ready@[a] != ready@[b],
            core.workers == old(core).workers,
            core.next_worker_id == old(core).next_worker_id,
            core.tasks@.len() == ts0.len(),
            k <= ready@.len(),
            forall|i: int| 0 <= i < ts0.len() ==> (#[trigger] core.tasks@[i]).id == ts0[i].id,
            forall|i: int|
                0 <= i < ts0.len() ==> core.tasks@[i] == (
                if ready@.take(k as int).contains(ts0[i].id) {
                    spec_assigned(ts0[i])
                } else {
                    ts0[i]
                }),
        decreases ready@.len() - k,
    {
        let ghost pre = core.tasks@;
        assert forall|a: int, b: int|
            #![trigger core.tasks@[a].id, core.tasks@[b].id]
            0 <= a < b < core.tasks@.len() implies core.tasks@[a].id != core.tasks@[b].id by {
            assert(core.tasks@[a].id == ts0[a].id);
            assert(core.tasks@[b].id == ts0[b].id);
        }
        assert(task_ids_unique(core.tasks@));
        let tid = ready[k];
        proof {
            // the key is dispatchable, hence present in the original tasks
            assert(dispatchable(ts0, tid));
            if !crate::registry::spec_has_task(ts0, tid) {
                lemma_task_of_absent(ts0, tid);
            }
            let wit = choose|i: int| 0 <= i < ts0.len() && (#[trigger] ts0[i].id) == tid;
            assert(core.tasks@[wit].id == tid);
        }
        let ti = match core.find_task_index(tid) {
            Some(ti) => ti,
            None => {
                proof {
                    assert(crate::registry::spec_has_task(core.tasks@, tid));
                }
                vstd::pervasive::unreached()
            },
        };
        proof {
            // ready keys are distinct, so this key was not touched yet
            assert(!ready@.take(k as int).contains(ts0[ti as int].id)) by {
                assert(core.tasks@[ti as int].id == ts0[ti as int].id);
                if ready@.take(k as int).contains(ts0[ti as int].id) {
                    let j = choose|j: int|
                        0 <= j < k && ready@.take(k as int)[j] == ts0[ti as int].id;
                    assert(ready@[j] == ready@[k as int]);
                }
            }
            assert(core.tasks@[ti as int] == ts0[ti as int]);
            lemma_task_of_index(ts0, ti as int);
        }
        core.tasks[ti].state = TaskState::Assigned;
        proof {
            assert forall|i: int| 0 <= i < ts0.len() implies core.tasks@[i] == (
            if ready@.take(k + 1 as int).contains(ts0[i].id) {
                spec_assigned(ts0[i])
            } else {
                ts0[i]
            }) by {
                if i == ti as int {
                    assert(ready@.take(k + 1 as int)[k as int] == ts0[i].id);
                } else {
                    assert(core.tasks@[i] == pre[i]);
                    // the id at i differs from the id at ti, so membership in
                    // the processed prefix is unchanged by this step
                    assert(ts0[i].id != ts0[ti as int].id);
                    if ready@.take(k + 1 as int).contains(ts0[i].id) {
                        let j = choose|j: int|
                            0 <= j <= k && (#[trigger] ready@.take(k + 1 as int)[j]) == ts0[i].id;
                        assert(j != k);
                        assert(ready@.take(k as int)[j] == ts0[i].id);
                    } else {
                        if ready@.take(k as int).contains(ts0[i].id) {
                            let j = choose|j: int|
                                0 <= j < k && ready@.take(k as int)[j] == ts0[i].id;
                            assert(ready@.take(k + 1 as int)[j] == ts0[i].id);
                        }
                    }
                }
            }
        }
        k = k + 1;
    }
    proof {
        assert(ready@.take(ready@.len() as int) =~= ready@);
        assert forall|a: int, b: int|
            #![trigger core.tasks@[a].id, core.tasks@[b].id]
            0 <= a < b < core.tasks@.len() implies core.tasks@[a].id != core.tasks@[b].id by {
            assert(core.tasks@[a].id == ts0[a].id);
            assert(core.tasks@[b].id == ts0[b].id);
        }
        assert forall|i: int| 0 <= i < core.tasks@.len() implies (
        #[trigger] core.tasks@[i]).wf() by {
            if ready@.contains(ts0[i].id) {
                let j = choose|j: int| 0 <= j < ready@.len() && (#[trigger] ready@[j]) == ts0[i].id;
                assert(dispatchable(ts0, ready@[j]));
                assert(task_ids_unique(ts0));
                lemma_task_of_index(ts0, i);
            }
        }
        assert(core.wf());
    }
}

} // verus!

verus! {

/// How one dispatch order must read: it is a compute order for `id`, and —
/// when `id` is a known task — it carries that task's dependencies in order,
/// each with the address of its result.
pub open spec fn msg_matches(ts: Seq<Task>, id: TaskId, m: ToWorkerMessage) -> bool {
    &&& m matches ToWorkerMessage::ComputeTask(c)
    &&& (m matches ToWorkerMessage::ComputeTask(c) ==> c.key == id && (spec_task_of(
        ts,
        id,
    ) matches Some(t) ==> c.who_has@.len() == t.deps@.len() && (forall|d: int|
        0 <= d < t.deps@.len() ==> (#[trigger] c.who_has@[d]).0 == t.deps@[d]
            && c.who_has@[d].1@ == spec_location_of(ts, t.deps@[d]))))
}

/// How one outbound dispatch batch must read: one compute order per key of
/// `ids`, in ready order.
pub open spec fn batch_matches(ts: Seq<Task>, ids: Seq<TaskId>, out: WorkerOutbound) -> bool {
    &&& out matches WorkerOutbound::TaskBatch(b)
    &&& (out matches WorkerOutbound::TaskBatch(b) ==> b@.len() == ids.len() && (forall|j: int|
        0 <= j < ids.len() ==> msg_matches(ts, ids[j], #[trigger] b@[j])))
}

/// The dispatch step's first half: marks every ready key `Assigned` and
/// groups the keys by their placed worker.
///
/// Given N ready keys placed across K distinct workers, the result holds
/// exactly K groups, one per worker in order of first appearance, each
/// carrying exactly that worker's keys in ready order.
pub fn assign_and_group(core: &mut Core, ready: &Vec<TaskId>) -> (groups: Vec<
    (WorkerId, Vec<TaskId>),
>)
    requires
        old(core).wf(),
        forall|k: int| 0 <= k < ready@.len() ==> dispatchable(old(core).tasks@, ready@[k]),
        forall|a: int, b: int| 0 <= a < b < ready@.len() ==> ready@[a] != ready@[b],
    ensures
        final(core).wf(),
        final(core).workers == old(core).workers,
        final(core).next_worker_id == old(core).next_worker_id,
        final(core).tasks@.len() == old(core).tasks@.len(),
        forall|i: int|
            0 <= i < old(core).tasks@.len() ==> final(core).tasks@[i] == (
            if ready@.contains(old(core).tasks@[i].id) {
                spec_assigned(old(core).tasks@[i])
            } else {
                old(core).tasks@[i]
            }),
        forall|i: int|
            0 <= i < old(core).tasks@.len() ==> crate::registry::task_edge_ok(
                old(core).tasks@[i].state,
                final(core).tasks@[i].state,
            ),
        groups@.len() == spec_batch_workers(old(core).tasks@, ready@).len(),
        forall|g: int|
            0 <= g < groups@.len() ==> (#[trigger] groups@[g]).0 == spec_batch_workers(
                old(core).tasks@,
                ready@,
            )[g] && groups@[g].1@ == spec_tasks_for(old(core).tasks@, ready@, groups@[g].0),
        forall|a: int, b: int| 0 <= a < b < groups@.len() ==> groups@[a].0 != groups@[b].0,
{
    let ghost ts0 = old(core).tasks@;
    let ws = collect_batch_workers(core, ready);
    let mut groups: Vec<(WorkerId, Vec<TaskId>)> = Vec::new();
    let mut g: usize = 0;
    while g < ws.len()
        invariant
            old(core).wf(),
            ts0 == old(core).tasks@,
            *core == *old(core),
            ws@ == spec_batch_workers(ts0, ready@),
            g <= ws@.len(),
            groups@.len() == g,
            forall|gg: int|
                0 <= gg < g ==> (#[trigger] groups@[gg]).0 == ws@[gg] && groups@[gg].1@
                    == spec_tasks_for(ts0, ready@, ws@[gg]),
        decreases ws@.len() - g,
    {
        let w = ws[g];
        let list = collect_tasks_for(core, ready, w);
        groups.push((w, list));
        g = g + 1;
    }
    proof {
        lemma_batch_workers_distinct(ts0, ready@);
    }
    mark_assigned(core, ready);
    proof {
        assert forall|i: int| 0 <= i < ts0.len() implies crate::registry::task_edge_ok(
            ts0[i].state,
            core.tasks@[i].state,
        ) by {
            if ready@.contains(ts0[i].id) {
                let j = choose|j: int|
                    0 <= j < ready@.len() && (#[trigger] ready@[j]) == ts0[i].id;
                assert(dispatchable(ts0, ready@[j]));
                assert(task_ids_unique(ts0));
                lemma_task_of_index(ts0, i);
            }
        }
    }
    groups
}

/// The dispatch step's second half: for each group, one batch message
/// holding a compute order per key, in ready order, pushed onto that
/// worker's outbound channel — exactly one outbound message per grouped
/// worker. A group whose worker has left the registry is skipped, and
/// dispatch to the remaining workers goes on unhindered.
pub fn send_tasks_to_workers(core: &mut Core, groups: &Vec<(WorkerId, Vec<TaskId>)>)
    requires
        old(core).wf(),
        forall|a: int, b: int| 0 <= a < b < groups@.len() ==> groups@[a].0 != groups@[b].0,
    ensures
        final(core).wf(),
        final(core).tasks == old(core).tasks,
        final(core).next_worker_id == old(core).next_worker_id,
        final(core).workers@.len() == old(core).workers@.len(),
        forall|i: int|
            #![trigger final(core).workers@[i]]
            0 <= i < old(core).workers@.len() ==> {
                let w0 = old(core).workers@[i];
                let w1 = final(core).workers@[i];
                &&& w1.id == w0.id
                &&& w1.ncpus == w0.ncpus
                &&& w1.listen_address == w0.listen_address
                &&& (forall|g: int|
                    0 <= g < groups@.len() && (#[trigger] groups@[g]).0 == w0.id
                        ==> w1.outbound@.len() == w0.outbound@.len() + 1 && w1.outbound@.take(
                        w0.outbound@.len() as int,
                    ) == w0.outbound@ && batch_matches(
                        old(core).tasks@,
                        groups@[g].1@,
                        w1.outbound@.last(),
                    ))
                &&& ((forall|g: int| 0 <= g < groups@.len() ==> (#[trigger] groups@[g]).0
                    != w0.id) ==> w1 == w0)
            },
{
    let ghost ws0 = old(core).workers@;
    let ghost ts0 = old(core).tasks@;
    let mut g: usize = 0;
    while g < groups.len()
        invariant
            old(core).wf(),
            ws0 == old(core).workers@,
            ts0 == old(core).tasks@,
            forall|a: int, b: int| 0 <= a < b < groups@.len() ==> groups@[a].0 != groups@[b].0,
            core.tasks == old(core).tasks,
            core.next_worker_id == old(core).next_worker_id,
            core.workers@.len() == ws0.len(),
            g <= groups@.len(),
            forall|i: int|
                #![trigger core.workers@[i]]
                0 <= i < ws0.len() ==> {
                    let w0 = ws0[i];
                    let w1 = core.workers@[i];
                    &&& w1.id == w0.id
                    &&& w1.ncpus == w0.ncpus
                    &&& w1.listen_address == w0.listen_address
                    &&& (forall|gg: int|
                        0 <= gg < g && (#[trigger] groups@[gg]).0 == w0.id ==> w1.outbound@.len()
                            == w0.outbound@.len() + 1 && w1.outbound@.take(
                            w0.outbound@.len() as int,
                        ) == w0.outbound@ && batch_matches(ts0, groups@[gg].1@, w1.outbound@.last()))
                    &&& ((forall|gg: int| 0 <= gg < g ==> (#[trigger] groups@[gg]).0 != w0.id)
                        ==> w1 == w0)
                },
        decreases groups@.len() - g,
    {
        let ghost wpre = core.workers@;
        assert(core.wf()) by {
            assert forall|a: int, b: int|
                #![trigger core.workers@[a].id, core.workers@[b].id]
                0 <= a < b < core.workers@.len() implies core.workers@[a].id
                != core.workers@[b].id by {
                assert(core.workers@[a].id == ws0[a].id);
                assert(core.workers@[b].id == ws0[b].id);
            }
            assert(forall|i: int|
                0 <= i < core.workers@.len() ==> (#[trigger] core.workers@[i]).id == ws0[i].id
                    && ws0[i].id < core.next_worker_id);
        }
        let wid = groups[g].0;
        match core.find_worker_index(wid) {
            Some(wi) => {
                let list = &groups[g].1;
                let mut msgs: Vec<ToWorkerMessage> = Vec::new();
                let mut j: usize = 0;
                while j < list.len()
                    invariant
                        task_ids_unique(core.tasks@),
                        core.tasks@ == ts0,
                        core.workers@ == wpre,
                        core.next_worker_id == old(core).next_worker_id,
                        j <= list@.len(),
                        msgs@.len() == j,
                        forall|jj: int|
                            0 <= jj < j ==> msg_matches(ts0, list@[jj], #[trigger] msgs@[jj]),
                    decreases list@.len() - j,
                {
                    let tid = list[j];
                    match core.find_task_index(tid) {
                        Some(ti) => {
                            proof {
                                lemma_task_of_index(core.tasks@, ti as int);
                            }
                            let t = &core.tasks[ti];
                            let m = t.make_compute_task_msg(core);
                            msgs.push(ToWorkerMessage::ComputeTask(m));
                        },
                        None => {
                            proof {
                                lemma_task_of_absent(core.tasks@, tid);
                            }
                            let empty: Vec<(TaskId, String)> = Vec::new();
                            msgs.push(
                                ToWorkerMessage::ComputeTask(
                                    ComputeTaskMsg { key: tid, who_has: empty },
                                ),
                            );
                        },
                    }
                    j = j + 1;
                }
                core.workers[wi].outbound.push(WorkerOutbound::TaskBatch(msgs));
                proof {
                    assert forall|i: int| #![trigger core.workers@[i]] 0 <= i < ws0.len() implies {
                        let w0 = ws0[i];
                        let w1 = core.workers@[i];
                        &&& w1.id == w0.id
                        &&& w1.ncpus == w0.ncpus
                        &&& w1.listen_address == w0.listen_address
                        &&& (forall|gg: int|
                            0 <= gg < g + 1 && (#[trigger] groups@[gg]).0 == w0.id
                                ==> w1.outbound@.len() == w0.outbound@.len() + 1
                                && w1.outbound@.take(w0.outbound@.len() as int) == w0.outbound@
                                && batch_matches(ts0, groups@[gg].1@, w1.outbound@.last()))
                        &&& ((forall|gg: int| 0 <= gg < g + 1 ==> (#[trigger] groups@[gg]).0
                            != w0.id) ==> w1 == w0)
                    } by {
                        if i == wi as int {
                            // this worker had seen no batch yet: every earlier
                            // group names a different worker
                            assert(wpre[i].id == ws0[i].id);
                            assert(forall|gg: int|
                                0 <= gg < g ==> (#[trigger] groups@[gg]).0 != ws0[i].id);
                            assert(wpre[i] == ws0[i]);
                            assert(core.workers@[i].outbound@ == ws0[i].outbound@.push(
                                WorkerOutbound::TaskBatch(msgs),
                            ));
                            assert(core.workers@[i].outbound@.take(ws0[i].outbound@.len() as int)
                                =~= ws0[i].outbound@);
                        } else {
                            assert(core.workers@[i] == wpre[i]);
                        }
                    }
                }
            },
            None => {
                proof {
                    assert forall|i: int| 0 <= i < ws0.len() implies (#[trigger] groups@[g as int]).0
                        != ws0[i].id by {
                        assert(core.workers@[i].id == ws0[i].id);
                    }
                }
            },
        }
        g = g + 1;
    }
}

} // verus!

verus! {

use crate::registry::{
    report_step, spec_erred, spec_finished, spec_has_worker, spec_requeued, spec_unregister,
    spec_worker_of, task_edge_ok,
};

/// Registration handshake: allocates a fresh worker id, registers the worker
/// with its reported capacity (defaulted when absent) and advertised address,
/// and queues the immediate acknowledgement — so the heartbeat response is
/// the first thing on the new worker's channel, before any task is
/// dispatched.
pub fn handshake(core: &mut Core, msg: RegisterWorkerMsg) -> (r: WorkerId)
    requires
        old(core).wf(),
        old(core).next_worker_id < u64::MAX,
    ensures
        final(core).wf(),
        r == old(core).next_worker_id,
        final(core).next_worker_id == r + 1,
        final(core).tasks == old(core).tasks,
        final(core).workers@.len() == old(core).workers@.len() + 1,
        forall|i: int|
            0 <= i < old(core).workers@.len() ==> final(core).workers@[i] == old(core).workers@[i],
        spec_has_worker(final(core).workers@, r),
        ({
            let w = final(core).workers@.last();
            &&& w.id == r
            &&& w.ncpus == (match msg.ncpus {
                Some(n) => n,
                None => DEFAULT_NCPUS,
            })
            &&& w.listen_address == msg.address
            &&& w.outbound@.len() == 1
            &&& (w.outbound@[0] matches WorkerOutbound::Heartbeat(hb) && hb.status is Success
                && hb.time == 0 && hb.heartbeat_interval == HEARTBEAT_INTERVAL
                && hb.worker_plugins@.len() == 0)
        }),
{
    let hb = HeartbeatResponse {
        status: Status::Success,
        time: 0,
        heartbeat_interval: HEARTBEAT_INTERVAL,
        worker_plugins: Vec::new(),
    };
    let mut outbound: Vec<WorkerOutbound> = Vec::new();
    outbound.push(WorkerOutbound::Heartbeat(hb));
    let id = core.new_worker_id();
    let ncpus = match msg.ncpus {
        Some(n) => n,
        None => DEFAULT_NCPUS,
    };
    let w = Worker { id, ncpus, listen_address: msg.address, outbound };
    core.register_worker(w)
}

/// Tears a worker's presence down after its connection pump terminated, for
/// any reason: its still-assigned tasks return to `Waiting` for fresh
/// placement, and the worker leaves the registry. Every other worker and
/// every other task is untouched.
pub fn on_worker_disconnect(core: &mut Core, worker_id: WorkerId)
    requires
        old(core).wf(),
    ensures
        final(core).wf(),
        final(core).next_worker_id == old(core).next_worker_id,
        final(core).workers@ == spec_unregister(old(core).workers@, worker_id),
        !spec_has_worker(final(core).workers@, worker_id),
        final(core).tasks@.len() == old(core).tasks@.len(),
        forall|i: int|
            0 <= i < old(core).tasks@.len() ==> final(core).tasks@[i] == (
            if old(core).tasks@[i].state is Assigned && old(core).tasks@[i].assigned_worker
                == Some(worker_id) {
                spec_requeued(old(core).tasks@[i])
            } else {
                old(core).tasks@[i]
            }),
{
    core.requeue_worker_tasks(worker_id);
    core.unregister_worker(worker_id);
}

} // verus!

verus! {

/// Whether the task with key `id` can be dispatched right now.
fn is_dispatchable(core: &Core, id: TaskId) -> (r: bool)
    requires
        task_ids_unique(core.tasks@),
    ensures
        r == dispatchable(core.tasks@, id),
{
    match core.find_task_index(id) {
        Some(i) => {
            proof {
                lemma_task_of_index(core.tasks@, i as int);
            }
            core.tasks[i].state == TaskState::Waiting && core.tasks[i].assigned_worker.is_some()
        },
        None => {
            proof {
                lemma_task_of_absent(core.tasks@, id);
            }
            false
        },
    }
}

/// The task table after the handler applies one inbound message: a success
/// report finishes its task, recording `addr` — the reporting worker's
/// address — as the result location; a failure report, whichever message
/// carried it, moves its task to `Error`; the rest touch nothing.
pub open spec fn spec_apply_report(ts: Seq<Task>, addr: String, m: FromWorkerMessage) -> Seq<
    Task,
> {
    match m {
        FromWorkerMessage::TaskFinished(r) => {
            if r.status is Success {
                Seq::new(
                    ts.len(),
                    |i: int|
                        if ts[i].id == r.key {
                            spec_finished(ts[i], addr)
                        } else {
                            ts[i]
                        },
                )
            } else {
                Seq::new(
                    ts.len(),
                    |i: int|
                        if ts[i].id == r.key {
                            spec_erred(ts[i])
                        } else {
                            ts[i]
                        },
                )
            }
        },
        FromWorkerMessage::TaskErred(r) => Seq::new(
            ts.len(),
            |i: int|
                if ts[i].id == r.key {
                    spec_erred(ts[i])
                } else {
                    ts[i]
                },
        ),
        FromWorkerMessage::AddKeys(_) => ts,
        FromWorkerMessage::KeepAlive => ts,
    }
}

/// The task table after the handler applies a whole batch, in order.
pub open spec fn spec_apply_reports(
    ts: Seq<Task>,
    addr: String,
    msgs: Seq<FromWorkerMessage>,
) -> Seq<Task>
    decreases msgs.len(),
{
    if msgs.len() == 0 {
        ts
    } else {
        spec_apply_reports(spec_apply_report(ts, addr, msgs[0]), addr, msgs.drop_first())
    }
}

/// The keys that became ready the moment `m` was applied, `ts_after` being
/// the table just after that application.
pub open spec fn spec_ready_from(ts_after: Seq<Task>, m: FromWorkerMessage) -> Seq<TaskId> {
    match m {
        FromWorkerMessage::TaskFinished(r) => if r.status is Success {
            crate::registry::spec_newly_ready(ts_after, r.key)
        } else {
            Seq::empty()
        },
        FromWorkerMessage::TaskErred(_) => Seq::empty(),
        FromWorkerMessage::AddKeys(_) => Seq::empty(),
        FromWorkerMessage::KeepAlive => Seq::empty(),
    }
}

/// The ready keys a whole batch produces, in report order.
pub open spec fn spec_batch_ready(
    ts: Seq<Task>,
    addr: String,
    msgs: Seq<FromWorkerMessage>,
) -> Seq<TaskId>
    decreases msgs.len(),
{
    if msgs.len() == 0 {
        Seq::empty()
    } else {
        let stepped = spec_apply_report(ts, addr, msgs[0]);
        spec_ready_from(stepped, msgs[0]) + spec_batch_ready(stepped, addr, msgs.drop_first())
    }
}

/// The keys the handler actually hands to the dispatch step: the ready keys
/// still dispatchable after the whole batch, first occurrences only, in
/// ready order.
pub open spec fn spec_dispatch_list(ts: Seq<Task>, ready: Seq<TaskId>) -> Seq<TaskId>
    decreases ready.len(),
{
    if ready.len() == 0 {
        Seq::empty()
    } else {
        let rest = spec_dispatch_list(ts, ready.drop_last());
        if dispatchable(ts, ready.last()) && !rest.contains(ready.last()) {
            rest.push(ready.last())
        } else {
            rest
        }
    }
}

/// Whether the handler accepts one message against table `ts`: a report —
/// success or failure — must come from a registered worker and name a task
/// currently `Assigned`; announcements and keep-alives are always accepted.
pub open spec fn spec_report_accepted(
    ts: Seq<Task>,
    ws: Seq<Worker>,
    worker_id: WorkerId,
    m: FromWorkerMessage,
) -> bool {
    match m {
        FromWorkerMessage::TaskFinished(r) => spec_has_worker(ws, worker_id) && (spec_task_of(
            ts,
            r.key,
        ) matches Some(t) && t.state is Assigned),
        FromWorkerMessage::TaskErred(r) => spec_has_worker(ws, worker_id) && (spec_task_of(
            ts,
            r.key,
        ) matches Some(t) && t.state is Assigned),
        FromWorkerMessage::AddKeys(_) => true,
        FromWorkerMessage::KeepAlive => true,
    }
}

/// Whether a whole batch is accepted: each message against the table its
/// predecessors produced.
pub open spec fn spec_batch_accepted(
    ts: Seq<Task>,
    addr: String,
    ws: Seq<Worker>,
    worker_id: WorkerId,
    msgs: Seq<FromWorkerMessage>,
) -> bool
    decreases msgs.len(),
{
    msgs.len() == 0 || (spec_report_accepted(ts, ws, worker_id, msgs[0]) && spec_batch_accepted(
        spec_apply_report(ts, addr, msgs[0]),
        addr,
        ws,
        worker_id,
        msgs.drop_first(),
    ))
}

/// Appending one message asks for its acceptance against the folded table.
pub proof fn lemma_batch_accepted_snoc(
    ts: Seq<Task>,
    addr: String,
    ws: Seq<Worker>,
    worker_id: WorkerId,
    msgs: Seq<FromWorkerMessage>,
    m: FromWorkerMessage,
)
    ensures
        spec_batch_accepted(ts, addr, ws, worker_id, msgs.push(m)) == (spec_batch_accepted(
            ts,
            addr,
            ws,
            worker_id,
            msgs,
        ) && spec_report_accepted(spec_apply_reports(ts, addr, msgs), ws, worker_id, m)),
    decreases msgs.len(),
{
    let whole = msgs.push(m);
    if msgs.len() == 0 {
        assert(whole[0] == m);
        assert(whole.drop_first() =~= Seq::<FromWorkerMessage>::empty());
        assert(spec_apply_reports(ts, addr, msgs) == ts);
        assert(spec_batch_accepted(
            spec_apply_report(ts, addr, m),
            addr,
            ws,
            worker_id,
            whole.drop_first(),
        ));
        assert(spec_batch_accepted(ts, addr, ws, worker_id, whole) == spec_report_accepted(
            ts,
            ws,
            worker_id,
            m,
        ));
    } else {
        assert(whole[0] == msgs[0]);
        assert(whole.drop_first() =~= msgs.drop_first().push(m));
        lemma_batch_accepted_snoc(
            spec_apply_report(ts, addr, msgs[0]),
            addr,
            ws,
            worker_id,
            msgs.drop_first(),
            m,
        );
    }
}

/// When a batch is accepted as a whole, each of its messages is accepted
/// against the table its predecessors produced.
pub proof fn lemma_batch_accepted_at(
    ts: Seq<Task>,
    addr: String,
    ws: Seq<Worker>,
    worker_id: WorkerId,
    msgs: Seq<FromWorkerMessage>,
    k: int,
)
    requires
        spec_batch_accepted(ts, addr, ws, worker_id, msgs),
        0 <= k < msgs.len(),
    ensures
        spec_report_accepted(
            spec_apply_reports(ts, addr, msgs.take(k)),
            ws,
            worker_id,
            msgs[k],
        ),
    decreases k,
{
    if k == 0 {
        assert(msgs.take(0) =~= Seq::<FromWorkerMessage>::empty());
    } else {
        let stepped = spec_apply_report(ts, addr, msgs[0]);
        assert(msgs.take(k)[0] == msgs[0]);
        assert(msgs.take(k).drop_first() =~= msgs.drop_first().take(k - 1));
        assert(msgs.drop_first()[k - 1] == msgs[k]);
        lemma_batch_accepted_at(stepped, addr, ws, worker_id, msgs.drop_first(), k - 1);
    }
}

/// Appending one message to a batch folds it onto the end.
pub proof fn lemma_apply_reports_snoc(
    ts: Seq<Task>,
    addr: String,
    msgs: Seq<FromWorkerMessage>,
    m: FromWorkerMessage,
)
    ensures
        spec_apply_reports(ts, addr, msgs.push(m)) == spec_apply_report(
            spec_apply_reports(ts, addr, msgs),
            addr,
            m,
        ),
        spec_batch_ready(ts, addr, msgs.push(m)) == spec_batch_ready(ts, addr, msgs)
            + spec_ready_from(
            spec_apply_report(spec_apply_reports(ts, addr, msgs), addr, m),
            m,
        ),
    decreases msgs.len(),
{
    let whole = msgs.push(m);
    if msgs.len() == 0 {
        assert(whole[0] == m);
        assert(whole.drop_first() =~= Seq::<FromWorkerMessage>::empty());
        let stepped = spec_apply_report(ts, addr, m);
        assert(spec_apply_reports(ts, addr, whole) == spec_apply_reports(
            stepped,
            addr,
            whole.drop_first(),
        ));
        assert(spec_apply_reports(stepped, addr, whole.drop_first()) == stepped);
        assert(spec_batch_ready(ts, addr, whole) == spec_ready_from(stepped, m)
            + spec_batch_ready(stepped, addr, whole.drop_first()));
        assert(spec_batch_ready(stepped, addr, whole.drop_first()) =~= Seq::<TaskId>::empty());
        assert(spec_apply_reports(ts, addr, msgs) == ts);
        assert(spec_batch_ready(ts, addr, msgs) =~= Seq::<TaskId>::empty());
        assert(spec_ready_from(stepped, m) + Seq::<TaskId>::empty() =~= Seq::<
            TaskId,
        >::empty() + spec_ready_from(stepped, m));
    } else {
        assert(whole[0] == msgs[0]);
        assert(whole.drop_first() =~= msgs.drop_first().push(m));
        let stepped = spec_apply_report(ts, addr, msgs[0]);
        lemma_apply_reports_snoc(stepped, addr, msgs.drop_first(), m);
        let tail = spec_ready_from(
            spec_apply_report(spec_apply_reports(ts, addr, msgs), addr, m),
            m,
        );
        assert(spec_apply_reports(ts, addr, msgs) == spec_apply_reports(
            stepped,
            addr,
            msgs.drop_first(),
        ));
        assert(spec_batch_ready(ts, addr, whole) == spec_ready_from(stepped, msgs[0])
            + spec_batch_ready(stepped, addr, msgs.drop_first().push(m)));
        assert(spec_batch_ready(ts, addr, msgs) == spec_ready_from(stepped, msgs[0])
            + spec_batch_ready(stepped, addr, msgs.drop_first()));
        assert(spec_ready_from(stepped, msgs[0]) + (spec_batch_ready(
            stepped,
            addr,
            msgs.drop_first(),
        ) + tail) =~= (spec_ready_from(stepped, msgs[0]) + spec_batch_ready(
            stepped,
            addr,
            msgs.drop_first(),
        )) + tail);
    }
}

/// Processes one decoded inbound batch from a worker's connection, then
/// dispatches whatever became ready — so task-assignment latency stays
/// bounded by one inbound-batch processing cycle.
///
/// Success reports route to `on_task_finished`; failure reports — including a
/// `TaskFinished` whose status is not success — route to `on_task_erred`,
/// never to an assertion. The first rejected report aborts the batch with its
/// error: the caller treats that as fatal for this connection alone.
///
/// On success for a registered worker, the batch's exact effect is stated:
/// the task table is the batch folded over the old one
/// (`spec_apply_reports`), further marking `Assigned` exactly the keys the
/// batch made ready and dispatchable (`spec_dispatch_list` of
/// `spec_batch_ready`), and each distinct worker those keys are placed on
/// gains exactly one dispatch batch carrying its keys in ready order, every
/// other outbound queue untouched.
pub fn process_worker_batch(
    core: &mut Core,
    worker_id: WorkerId,
    msgs: &Vec<FromWorkerMessage>,
) -> (r: Result<(), CoreError>)
    requires
        old(core).wf(),
    ensures
        final(core).wf(),
        final(core).next_worker_id == old(core).next_worker_id,
        final(core).workers@.len() == old(core).workers@.len(),
        forall|i: int|
            #![trigger final(core).workers@[i]]
            0 <= i < old(core).workers@.len() ==> final(core).workers@[i].id == old(
                core,
            ).workers@[i].id && final(core).workers@[i].ncpus == old(core).workers@[i].ncpus
                && final(core).workers@[i].listen_address == old(core).workers@[i].listen_address,
        final(core).tasks@.len() == old(core).tasks@.len(),
        forall|i: int|
            0 <= i < old(core).tasks@.len() ==> (#[trigger] final(core).tasks@[i]).id == old(
                core,
            ).tasks@[i].id,
        forall|i: int|
            0 <= i < old(core).tasks@.len() ==> task_edge_ok(
                old(core).tasks@[i].state,
                final(core).tasks@[i].state,
            ),
        spec_has_worker(old(core).workers@, worker_id) ==> (spec_worker_of(
            old(core).workers@,
            worker_id,
        ) matches Some(w) && (r is Ok <==> spec_batch_accepted(
            old(core).tasks@,
            w.listen_address,
            old(core).workers@,
            worker_id,
            msgs@,
        ))),
        (r is Ok && spec_has_worker(old(core).workers@, worker_id)) ==> (spec_worker_of(
            old(core).workers@,
            worker_id,
        ) matches Some(w) && ({
            let mid = spec_apply_reports(old(core).tasks@, w.listen_address, msgs@);
            let disp = spec_dispatch_list(
                mid,
                spec_batch_ready(old(core).tasks@, w.listen_address, msgs@),
            );
            &&& final(core).tasks@.len() == mid.len()
            &&& (forall|i: int|
                0 <= i < mid.len() ==> final(core).tasks@[i] == (
                if disp.contains(mid[i].id) {
                    spec_assigned(mid[i])
                } else {
                    mid[i]
                }))
            &&& (forall|i: int|
                #![trigger final(core).workers@[i]]
                0 <= i < old(core).workers@.len() ==> {
                    let w0 = old(core).workers@[i];
                    let w1 = final(core).workers@[i];
                    &&& (spec_batch_workers(mid, disp).contains(w0.id) ==> w1.outbound@.len()
                        == w0.outbound@.len() + 1 && w1.outbound@.take(w0.outbound@.len() as int)
                        == w0.outbound@ && batch_matches(
                        final(core).tasks@,
                        spec_tasks_for(mid, disp, w0.id),
                        w1.outbound@.last(),
                    ))
                    &&& (!spec_batch_workers(mid, disp).contains(w0.id) ==> w1 == w0)
                })
        })),
        (forall|k: int|
            0 <= k < msgs@.len() ==> !((#[trigger] msgs@[k]) is TaskFinished) && !(msgs@[k]
                is TaskErred)) ==> (r is Ok && (forall|i: int|
            0 <= i < old(core).tasks@.len() ==> final(core).tasks@[i] == old(core).tasks@[i]) && (
        forall|i: int|
            0 <= i < old(core).workers@.len() ==> final(core).workers@[i] == old(
                core,
            ).workers@[i])),
        (!spec_has_worker(old(core).workers@, worker_id) && (exists|k: int|
            0 <= k < msgs@.len() && ((#[trigger] msgs@[k]) is TaskFinished || msgs@[k]
                is TaskErred))) ==> r == Err::<(), CoreError>(CoreError::UnknownWorker),
{
    let ghost ts0 = old(core).tasks@;
    let ghost ws0 = old(core).workers@;
    let ghost addr: String = match spec_worker_of(ws0, worker_id) {
        Some(w) => w.listen_address,
        None => vstd::pervasive::arbitrary(),
    };
    proof {
        if spec_has_worker(ws0, worker_id) {
            let j = choose|j: int| 0 <= j < ws0.len() && (#[trigger] ws0[j].id) == worker_id;
            crate::registry::lemma_worker_of_index(ws0, j);
        }
        assert(msgs@.take(0) =~= Seq::<FromWorkerMessage>::empty());
        assert(spec_batch_accepted(ts0, addr, ws0, worker_id, msgs@.take(0)));
    }
    let mut ready: Vec<TaskId> = Vec::new();
    let mut k: usize = 0;
    while k < msgs.len()
        invariant
            old(core).wf(),
            ts0 == old(core).tasks@,
            ws0 == old(core).workers@,
            core.wf(),
            core.workers == old(core).workers,
            core.next_worker_id == old(core).next_worker_id,
            core.tasks@.len() == ts0.len(),
            k <= msgs@.len(),
            forall|i: int|
                0 <= i < ts0.len() ==> report_step(ts0[i], #[trigger] core.tasks@[i]),
            spec_has_worker(ws0, worker_id) ==> (spec_worker_of(ws0, worker_id) matches Some(w)
                && addr == w.listen_address),
            spec_has_worker(ws0, worker_id) ==> core.tasks@ == spec_apply_reports(
                ts0,
                addr,
                msgs@.take(k as int),
            ),
            spec_has_worker(ws0, worker_id) ==> ready@ == spec_batch_ready(
                ts0,
                addr,
                msgs@.take(k as int),
            ),
            spec_has_worker(ws0, worker_id) ==> spec_batch_accepted(
                ts0,
                addr,
                ws0,
                worker_id,
                msgs@.take(k as int),
            ),
            (forall|kk: int|
                0 <= kk < k ==> !((#[trigger] msgs@[kk]) is TaskFinished) && !(msgs@[kk]
                    is TaskErred)) ==> (core.tasks@ == ts0 && ready@.len() == 0),
            !spec_has_worker(ws0, worker_id) ==> (forall|kk: int|
                0 <= kk < k ==> !((#[trigger] msgs@[kk]) is TaskFinished) && !(msgs@[kk]
                    is TaskErred)),
        decreases msgs@.len() - k,
    {
        let ghost pre = core.tasks@;
        let ghost ready_pre = ready@;
        let step: Result<(), CoreError> = match &msgs[k] {
            FromWorkerMessage::TaskFinished(m) => {
                if m.status == Status::Success {
                    let res = core.on_task_finished(worker_id, m, &mut ready);
                    proof {
                        if res is Ok {
                            assert(core.tasks@ =~= spec_apply_report(pre, addr, msgs@[k as int]));
                            assert(ready@ =~= ready_pre + spec_ready_from(
                                core.tasks@,
                                msgs@[k as int],
                            ));
                            assert(spec_report_accepted(pre, ws0, worker_id, msgs@[k as int]));
                        } else {
                            if !crate::registry::spec_has_task(pre, m.key) {
                                lemma_task_of_absent(pre, m.key);
                            }
                            assert(!spec_report_accepted(pre, ws0, worker_id, msgs@[k as int]));
                        }
                    }
                    res
                } else {
                    let erred = TaskErredMsg {
                        status: m.status,
                        key: m.key,
                        error_info: String::new(),
                    };
                    let res = core.on_task_erred(worker_id, &erred);
                    proof {
                        if res is Ok {
                            assert(core.tasks@ =~= spec_apply_report(pre, addr, msgs@[k as int]));
                            assert(ready@ =~= ready_pre + spec_ready_from(
                                core.tasks@,
                                msgs@[k as int],
                            ));
                            assert(spec_report_accepted(pre, ws0, worker_id, msgs@[k as int]));
                        } else {
                            if !crate::registry::spec_has_task(pre, erred.key) {
                                lemma_task_of_absent(pre, erred.key);
                            }
                            assert(!spec_report_accepted(pre, ws0, worker_id, msgs@[k as int]));
                        }
                    }
                    res
                }
            },
            FromWorkerMessage::TaskErred(m) => {
                let res = core.on_task_erred(worker_id, m);
                proof {
                    if res is Ok {
                        assert(core.tasks@ =~= spec_apply_report(pre, addr, msgs@[k as int]));
                        assert(ready@ =~= ready_pre + spec_ready_from(
                            core.tasks@,
                            msgs@[k as int],
                        ));
                        assert(spec_report_accepted(pre, ws0, worker_id, msgs@[k as int]));
                    } else {
                        if !crate::registry::spec_has_task(pre, m.key) {
                            lemma_task_of_absent(pre, m.key);
                        }
                        assert(!spec_report_accepted(pre, ws0, worker_id, msgs@[k as int]));
                    }
                }
                res
            },
            FromWorkerMessage::AddKeys(_) => {
                proof {
                    assert(core.tasks@ == spec_apply_report(pre, addr, msgs@[k as int]));
                    assert(ready@ =~= ready_pre + spec_ready_from(core.tasks@, msgs@[k as int]));
                    assert(spec_report_accepted(pre, ws0, worker_id, msgs@[k as int]));
                }
                Ok(())
            },
            FromWorkerMessage::KeepAlive => {
                proof {
                    assert(core.tasks@ == spec_apply_report(pre, addr, msgs@[k as int]));
                    assert(ready@ =~= ready_pre + spec_ready_from(core.tasks@, msgs@[k as int]));
                    assert(spec_report_accepted(pre, ws0, worker_id, msgs@[k as int]));
                }
                Ok(())
            },
        };
        match step {
            Ok(_) => {
                proof {
                    assert(msgs@.take(k + 1 as int).drop_last() =~= msgs@.take(k as int));
                    assert(msgs@.take(k + 1 as int) =~= msgs@.take(k as int).push(
                        msgs@[k as int],
                    ));
                    if spec_has_worker(ws0, worker_id) {
                        lemma_apply_reports_snoc(ts0, addr, msgs@.take(k as int), msgs@[k as int]);
                        lemma_batch_accepted_snoc(
                            ts0,
                            addr,
                            ws0,
                            worker_id,
                            msgs@.take(k as int),
                            msgs@[k as int],
                        );
                    }
                }
            },
            Err(e) => {
                proof {
                    if !spec_has_worker(ws0, worker_id) {
                        assert(e == CoreError::UnknownWorker) by {
                            assert(!spec_has_worker(core.workers@, worker_id));
                        }
                    } else {
                        assert(!spec_report_accepted(pre, ws0, worker_id, msgs@[k as int]));
                        assert(!spec_batch_accepted(ts0, addr, ws0, worker_id, msgs@)) by {
                            if spec_batch_accepted(ts0, addr, ws0, worker_id, msgs@) {
                                lemma_batch_accepted_at(
                                    ts0,
                                    addr,
                                    ws0,
                                    worker_id,
                                    msgs@,
                                    k as int,
                                );
                            }
                        }
                    }
                    assert forall|i: int| 0 <= i < ts0.len() implies task_edge_ok(
                        ts0[i].state,
                        core.tasks@[i].state,
                    ) by {
                        assert(report_step(ts0[i], core.tasks@[i]));
                    }
                }
                return Err(e);
            },
        }
        k = k + 1;
    }
    proof {
        assert(msgs@.take(msgs@.len() as int) =~= msgs@);
        assert(ready@.take(0) =~= Seq::<TaskId>::empty());
    }
    let ghost mid = core.tasks@;
    let mut to_dispatch: Vec<TaskId> = Vec::new();
    let mut d: usize = 0;
    while d < ready.len()
        invariant
            task_ids_unique(core.tasks@),
            core.tasks@ == mid,
            core.workers == old(core).workers,
            core.next_worker_id == old(core).next_worker_id,
            core.wf(),
            d <= ready@.len(),
            to_dispatch@ == spec_dispatch_list(mid, ready@.take(d as int)),
            forall|q: int|
                0 <= q < to_dispatch@.len() ==> dispatchable(mid, #[trigger] to_dispatch@[q]),
            forall|a: int, b: int|
                0 <= a < b < to_dispatch@.len() ==> to_dispatch@[a] != to_dispatch@[b],
            ready@.len() == 0 ==> to_dispatch@.len() == 0,
        decreases ready@.len() - d,
    {
        proof {
            assert(ready@.take(d + 1 as int).drop_last() =~= ready@.take(d as int));
            assert(ready@.take(d + 1 as int).last() == ready@[d as int]);
        }
        let tid = ready[d];
        if is_dispatchable(core, tid) && !crate::registry::vec_contains(&to_dispatch, tid) {
            to_dispatch.push(tid);
        }
        d = d + 1;
    }
    proof {
        assert(ready@.take(ready@.len() as int) =~= ready@);
    }
    let groups = assign_and_group(core, &to_dispatch);
    send_tasks_to_workers(core, &groups);
    proof {
        assert forall|i: int| 0 <= i < ts0.len() implies task_edge_ok(
            ts0[i].state,
            final(core).tasks@[i].state,
        ) by {
            assert(report_step(ts0[i], mid[i]));
            if to_dispatch@.contains(mid[i].id) {
                let q = choose|q: int|
                    0 <= q < to_dispatch@.len() && (#[trigger] to_dispatch@[q]) == mid[i].id;
                assert(dispatchable(mid, to_dispatch@[q]));
                assert(task_ids_unique(mid));
                lemma_task_of_index(mid, i);
            }
        }
        if spec_has_worker(ws0, worker_id) {
            let disp = spec_dispatch_list(mid, spec_batch_ready(ts0, addr, msgs@));
            let bws = spec_batch_workers(mid, disp);
            assert(to_dispatch@ == disp);
            assert forall|i: int|
                #![trigger final(core).workers@[i]]
                0 <= i < ws0.len() implies {
                let w0 = ws0[i];
                let w1 = final(core).workers@[i];
                &&& (bws.contains(w0.id) ==> w1.outbound@.len() == w0.outbound@.len() + 1
                    && w1.outbound@.take(w0.outbound@.len() as int) == w0.outbound@
                    && batch_matches(
                    final(core).tasks@,
                    spec_tasks_for(mid, disp, w0.id),
                    w1.outbound@.last(),
                ))
                &&& (!bws.contains(w0.id) ==> w1 == w0)
            } by {
                if bws.contains(ws0[i].id) {
                    let g = choose|g: int| 0 <= g < bws.len() && (#[trigger] bws[g]) == ws0[i].id;
                    assert(groups@[g].0 == ws0[i].id);
                    assert(groups@[g].1@ == spec_tasks_for(mid, disp, ws0[i].id));
                } else {
                    assert forall|g: int| 0 <= g < groups@.len() implies (
                    #[trigger] groups@[g]).0 != ws0[i].id by {
                        if groups@[g].0 == ws0[i].id {
                            assert(bws[g] == ws0[i].id);
                        }
                    }
                }
            }
        }
        if forall|kk: int|
            0 <= kk < msgs@.len() ==> !((#[trigger] msgs@[kk]) is TaskFinished) && !(msgs@[kk]
                is TaskErred) {
            assert(mid == ts0 && ready@.len() == 0);
            assert(to_dispatch@.len() == 0);
            assert(forall|i: int|
                0 <= i < ts0.len() ==> !to_dispatch@.contains((#[trigger] mid[i]).id));
            assert(groups@.len() == spec_batch_workers(mid, to_dispatch@).len());
            assert(spec_batch_workers(mid, to_dispatch@).len() == 0);
            assert forall|i: int| 0 <= i < ws0.len() implies final(core).workers@[i] == ws0[i] by {
                assert(forall|g: int|
                    0 <= g < groups@.len() ==> (#[trigger] groups@[g]).0 != ws0[i].id);
            }
        }
    }
    Ok(())
}

} // verus!
