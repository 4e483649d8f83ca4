//! The worker-process reactor: answers a compute order by fetching the
//! dependency results it does not yet hold, announcing them, and reporting
//! the task finished.

use crate::messages::{
    AddKeysMsg, ComputeTaskMsg, FromWorkerMessage, Status, TaskFinishedMsg, TaskId,
};
use vstd::prelude::*;

verus! {

/// How long, in microseconds, one computation is reported to span.
pub const COMPUTE_SPAN: u64 = 10;

/// The result size, in bytes, reported for a computed task.
pub const RESULT_BYTE_SIZE: u64 = 20;

/// A worker process's local state: the keys whose results it holds, and the
/// reports queued for its connection to the scheduler.
pub struct WorkerState {
    pub local_keys: Vec<TaskId>,
    pub outbound: Vec<FromWorkerMessage>,
}

impl WorkerState {
    /// No key is held twice.
    pub open spec fn wf(self) -> bool {
        forall|a: int, b: int|
            #![trigger self.local_keys@[a], self.local_keys@[b]]
            0 <= a < b < self.local_keys@.len() ==> self.local_keys@[a] != self.local_keys@[b]
    }

    /// A worker that holds nothing and has nothing queued.
    pub fn new() -> (r: WorkerState)
        ensures
            r.wf(),
            r.local_keys@.len() == 0,
            r.outbound@.len() == 0,
    {
        WorkerState { local_keys: Vec::new(), outbound: Vec::new() }
    }
}

/// The keys named by `who_has` that are not in `have`: first occurrences
/// only, in order of appearance.
pub open spec fn spec_fetched(who_has: Seq<(TaskId, String)>, have: Seq<TaskId>) -> Seq<TaskId>
    decreases who_has.len(),
{
    if who_has.len() == 0 {
        Seq::empty()
    } else {
        let k = who_has[0].0;
        if have.contains(k) {
            spec_fetched(who_has.drop_first(), have)
        } else {
            seq![k] + spec_fetched(who_has.drop_first(), have.push(k))
        }
    }
}

/// The keys a worker holds after fetching for `msg` and computing its task.
pub open spec fn spec_keys_after(have: Seq<TaskId>, msg: ComputeTaskMsg) -> Seq<TaskId> {
    let fetched = have + spec_fetched(msg.who_has@, have);
    if fetched.contains(msg.key) {
        fetched
    } else {
        fetched.push(msg.key)
    }
}

/// Answers one compute order, as of wall-clock time `now_us` (microseconds):
/// every dependency result not yet held is fetched and recorded, an
/// `AddKeys` announcement is queued exactly when something was fetched, and
/// a success report for the task's key — result size, empty type tag, and a
/// single timing span of `COMPUTE_SPAN` microseconds starting at `now_us` —
/// is queued last.
pub fn compute_task(state: &mut WorkerState, msg: ComputeTaskMsg, now_us: u64)
    requires
        old(state).wf(),
        now_us + COMPUTE_SPAN <= u64::MAX,
    ensures
        final(state).wf(),
        final(state).local_keys@ == spec_keys_after(old(state).local_keys@, msg),
        ({
            let fetched = spec_fetched(msg.who_has@, old(state).local_keys@);
            let extra: int = if fetched.len() > 0 {
                2
            } else {
                1
            };
            &&& final(state).outbound@.len() == old(state).outbound@.len() + extra
            &&& final(state).outbound@.take(old(state).outbound@.len() as int) == old(
                state,
            ).outbound@
            &&& (fetched.len() > 0 ==> (final(state).outbound@[old(state).outbound@.len() as int]
                matches FromWorkerMessage::AddKeys(a) && a.keys@ == fetched))
            &&& (final(state).outbound@.last() matches FromWorkerMessage::TaskFinished(t)
                && t.status is Success && t.key == msg.key && t.byte_size == RESULT_BYTE_SIZE
                && t.type_tag@.len() == 0 && t.timing_spans@.len() == 1
                && t.timing_spans@[0].0@ == "compute"@ && t.timing_spans@[0].1 == now_us
                && t.timing_spans@[0].2 == now_us + COMPUTE_SPAN)
        }),
{
    let ghost keys0 = old(state).local_keys@;
    let ghost out0 = old(state).outbound@;
    let mut fetched: Vec<TaskId> = Vec::new();
    proof {
        assert(msg.who_has@.skip(0) =~= msg.who_has@);
        assert(keys0 + fetched@ =~= keys0);
        assert(fetched@ + spec_fetched(msg.who_has@, keys0) =~= spec_fetched(
            msg.who_has@,
            keys0,
        ));
    }
    let mut i: usize = 0;
    while i < msg.who_has.len()
        invariant
            keys0 == old(state).local_keys@,
            old(state).wf(),
            state.wf(),
            state.outbound@ == old(state).outbound@,
            i <= msg.who_has@.len(),
            state.local_keys@ == keys0 + fetched@,
            fetched@ + spec_fetched(msg.who_has@.skip(i as int), state.local_keys@)
                == spec_fetched(msg.who_has@, keys0),
        decreases msg.who_has@.len() - i,
    {
        proof {
            assert(msg.who_has@.skip(i as int)[0] == msg.who_has@[i as int]);
            assert(msg.who_has@.skip(i as int).drop_first() =~= msg.who_has@.skip(i + 1 as int));
        }
        let k = msg.who_has[i].0;
        if !crate::registry::vec_contains(&state.local_keys, k) {
            state.local_keys.push(k);
            fetched.push(k);
            proof {
                assert(state.local_keys@ =~= keys0 + fetched@);
                assert(fetched@ + spec_fetched(msg.who_has@.skip(i + 1 as int), state.local_keys@)
                    =~= spec_fetched(msg.who_has@, keys0));
                assert(forall|a: int, b: int|
                    #![trigger state.local_keys@[a], state.local_keys@[b]]
                    0 <= a < b < state.local_keys@.len() ==> state.local_keys@[a]
                        != state.local_keys@[b]);
            }
        }
        i = i + 1;
    }
    proof {
        assert(msg.who_has@.skip(msg.who_has@.len() as int) =~= Seq::<(TaskId, String)>::empty());
        assert(fetched@ =~= spec_fetched(msg.who_has@, keys0));
    }
    if fetched.len() > 0 {
        let announce = AddKeysMsg { keys: fetched };
        state.outbound.push(FromWorkerMessage::AddKeys(announce));
    }
    if !crate::registry::vec_contains(&state.local_keys, msg.key) {
        state.local_keys.push(msg.key);
        assert(state.wf()) by {
            assert(forall|a: int|
                0 <= a < state.local_keys@.len() - 1 ==> (#[trigger] state.local_keys@[a])
                    != msg.key);
        }
    }
    let mut spans: Vec<(String, u64, u64)> = Vec::new();
    spans.push(("compute".to_owned(), now_us, now_us + COMPUTE_SPAN));
    let report = TaskFinishedMsg {
        status: Status::Success,
        key: msg.key,
        byte_size: RESULT_BYTE_SIZE,
        type_tag: Vec::new(),
        timing_spans: spans,
    };
    state.outbound.push(FromWorkerMessage::TaskFinished(report));
    proof {
        assert(final(state).outbound@.take(out0.len() as int) =~= out0);
    }
}

/// Relies on std::time::SystemTime::elapsed, measured from the Unix epoch:
/// the machine's wall clock, when it does not sit before the epoch. Nothing
/// can be promised of the value — it depends on the clock alone.
#[verifier::external_body]
fn epoch_micros() -> Option<u64> {
    std::time::SystemTime::UNIX_EPOCH.elapsed().ok().map(|d| d.as_micros() as u64)
}

/// Answers one compute order at the current wall-clock time. Whatever the
/// clock reads, the keys held afterwards, the `AddKeys` announcement, and
/// the closing success report are exactly those of `compute_task`; the
/// report's single timing span covers `COMPUTE_SPAN` microseconds.
pub fn compute_task_now(state: &mut WorkerState, msg: ComputeTaskMsg)
    requires
        old(state).wf(),
    ensures
        final(state).wf(),
        final(state).local_keys@ == spec_keys_after(old(state).local_keys@, msg),
        ({
            let fetched = spec_fetched(msg.who_has@, old(state).local_keys@);
            let extra: int = if fetched.len() > 0 {
                2
            } else {
                1
            };
            &&& final(state).outbound@.len() == old(state).outbound@.len() + extra
            &&& final(state).outbound@.take(old(state).outbound@.len() as int) == old(
                state,
            ).outbound@
            &&& (fetched.len() > 0 ==> (final(state).outbound@[old(state).outbound@.len() as int]
                matches FromWorkerMessage::AddKeys(a) && a.keys@ == fetched))
            &&& (final(state).outbound@.last() matches FromWorkerMessage::TaskFinished(t)
                && t.status is Success && t.key == msg.key && t.byte_size == RESULT_BYTE_SIZE
                && t.type_tag@.len() == 0 && t.timing_spans@.len() == 1
                && t.timing_spans@[0].0@ == "compute"@ && t.timing_spans@[0].2
                == t.timing_spans@[0].1 + COMPUTE_SPAN)
        }),
{
    let now = match epoch_micros() {
        Some(v) => {
            if v > u64::MAX - COMPUTE_SPAN {
                u64::MAX - COMPUTE_SPAN
            } else {
                v
            }
        },
        None => 0,
    };
    compute_task(state, msg, now);
}

} // verus!
