use taskplane::codec::{FrameError, RecvBuffer};
use taskplane::messages::{
    ComputeTaskMsg, FromWorkerMessage, RegisterWorkerMsg, Status, TaskFinishedMsg, ToWorkerMessage,
    WorkerOutbound,
};
use taskplane::registry::{Core, Task, TaskState};
use taskplane::worker::{
    assign_and_group, handshake, on_worker_disconnect, process_worker_batch,
    send_tasks_to_workers, HEARTBEAT_INTERVAL,
};

fn waiting_task(id: u64, deps: Vec<u64>) -> Task {
    Task {
        id,
        state: TaskState::Waiting,
        assigned_worker: None,
        deps,
        result_location: None,
    }
}

fn finished_report(key: u64) -> FromWorkerMessage {
    FromWorkerMessage::TaskFinished(TaskFinishedMsg {
        status: Status::Success,
        key,
        byte_size: 20,
        type_tag: vec![],
        timing_spans: vec![],
    })
}

fn worker_index(core: &Core, id: u64) -> usize {
    core.workers.iter().position(|w| w.id == id).unwrap()
}

fn dispatch(core: &mut Core, ready: Vec<u64>) {
    let groups = assign_and_group(core, &ready);
    send_tasks_to_workers(core, &groups);
}

/// A worker that registers receives the heartbeat response first, before any
/// task is dispatched.
#[test]
fn registration_gets_heartbeat_before_any_dispatch() {
    let mut core = Core::new();
    let w1 = handshake(
        &mut core,
        RegisterWorkerMsg {
            address: "worker-a:7000".to_owned(),
            ncpus: Some(4),
        },
    );
    let wi = worker_index(&core, w1);
    let worker = &core.workers[wi];
    assert_eq!(worker.ncpus, 4);
    assert_eq!(worker.listen_address, "worker-a:7000");
    assert_eq!(worker.outbound.len(), 1);
    match &worker.outbound[0] {
        WorkerOutbound::Heartbeat(hb) => {
            assert_eq!(hb.status, Status::Success);
            assert_eq!(hb.heartbeat_interval, HEARTBEAT_INTERVAL);
            assert!(hb.worker_plugins.is_empty());
        },
        other => panic!("expected the heartbeat first, got {:?}", other),
    }
}

/// A capacity-less registration falls back to the default.
#[test]
fn registration_defaults_capacity() {
    let mut core = Core::new();
    let w1 = handshake(
        &mut core,
        RegisterWorkerMsg {
            address: "worker-a:7000".to_owned(),
            ncpus: None,
        },
    );
    let wi = worker_index(&core, w1);
    assert_eq!(core.workers[wi].ncpus, taskplane::worker::DEFAULT_NCPUS);
}

/// N ready tasks across K workers produce exactly K batches, one per worker,
/// each holding that worker's tasks in ready order.
#[test]
fn dispatch_batches_group_by_worker_in_ready_order() {
    let mut core = Core::new();
    let w1 = handshake(&mut core, RegisterWorkerMsg { address: "a:1".to_owned(), ncpus: None });
    let w2 = handshake(&mut core, RegisterWorkerMsg { address: "b:2".to_owned(), ncpus: None });
    let w3 = handshake(&mut core, RegisterWorkerMsg { address: "c:3".to_owned(), ncpus: None });
    for id in 1..=3u64 {
        core.add_task(waiting_task(id, vec![]));
    }
    assert!(core.set_task_placement(1, w1));
    assert!(core.set_task_placement(2, w2));
    assert!(core.set_task_placement(3, w1));

    let before: Vec<usize> = core.workers.iter().map(|w| w.outbound.len()).collect();
    dispatch(&mut core, vec![1, 2, 3]);

    // exactly one new message for w1 and w2 each, none for w3
    let i1 = worker_index(&core, w1);
    let i2 = worker_index(&core, w2);
    let i3 = worker_index(&core, w3);
    assert_eq!(core.workers[i1].outbound.len(), before[i1] + 1);
    assert_eq!(core.workers[i2].outbound.len(), before[i2] + 1);
    assert_eq!(core.workers[i3].outbound.len(), before[i3]);

    let keys = |out: &WorkerOutbound| -> Vec<u64> {
        match out {
            WorkerOutbound::TaskBatch(batch) => batch
                .iter()
                .map(|m| match m {
                    ToWorkerMessage::ComputeTask(c) => c.key,
                })
                .collect(),
            other => panic!("expected a task batch, got {:?}", other),
        }
    };
    assert_eq!(keys(core.workers[i1].outbound.last().unwrap()), vec![1, 3]);
    assert_eq!(keys(core.workers[i2].outbound.last().unwrap()), vec![2]);

    for id in 0..3 {
        assert!(matches!(core.tasks[id].state, TaskState::Assigned));
    }
}

/// A finished task unblocks its dependent, which is dispatched in the same
/// processing cycle, carrying the finished result's location.
#[test]
fn finish_report_dispatches_dependent_same_cycle() {
    let mut core = Core::new();
    let w1 = handshake(
        &mut core,
        RegisterWorkerMsg { address: "worker-a:7000".to_owned(), ncpus: None },
    );
    core.add_task(waiting_task(1, vec![]));
    core.add_task(waiting_task(2, vec![1]));
    assert!(core.set_task_placement(1, w1));
    assert!(core.set_task_placement(2, w1));
    dispatch(&mut core, vec![1]);

    let wi = worker_index(&core, w1);
    let before = core.workers[wi].outbound.len();

    let batch = vec![finished_report(1), FromWorkerMessage::KeepAlive];
    assert_eq!(process_worker_batch(&mut core, w1, &batch), Ok(()));

    assert!(matches!(core.tasks[0].state, TaskState::Finished));
    assert!(matches!(core.tasks[1].state, TaskState::Assigned));

    // exactly one dispatch batch went out in the same cycle, holding task 2
    // together with the address where task 1's result sits
    assert_eq!(core.workers[wi].outbound.len(), before + 1);
    match core.workers[wi].outbound.last().unwrap() {
        WorkerOutbound::TaskBatch(b) => {
            assert_eq!(b.len(), 1);
            let ToWorkerMessage::ComputeTask(c) = &b[0];
            assert_eq!(c.key, 2);
            assert_eq!(c.who_has, vec![(1u64, "worker-a:7000".to_owned())]);
        },
        other => panic!("expected a task batch, got {:?}", other),
    }
}

/// A failure report is routed to the error path — also when it arrives as a
/// `TaskFinished` whose status is not success — and dependents never become
/// ready.
#[test]
fn failure_reports_follow_error_path() {
    let mut core = Core::new();
    let w1 = handshake(&mut core, RegisterWorkerMsg { address: "a:1".to_owned(), ncpus: None });
    core.add_task(waiting_task(1, vec![]));
    core.add_task(waiting_task(2, vec![1]));
    assert!(core.set_task_placement(1, w1));
    assert!(core.set_task_placement(2, w1));
    dispatch(&mut core, vec![1]);

    let bad = FromWorkerMessage::TaskFinished(TaskFinishedMsg {
        status: Status::Failure,
        key: 1,
        byte_size: 0,
        type_tag: vec![],
        timing_spans: vec![],
    });
    assert_eq!(process_worker_batch(&mut core, w1, &vec![bad]), Ok(()));
    assert!(matches!(core.tasks[0].state, TaskState::Error));
    // the dependent never becomes ready and is not dispatched
    assert!(matches!(core.tasks[1].state, TaskState::Waiting));
}

/// A worker that disconnects mid-flight leaves the registry, and the task
/// that was assigned to it returns to `Waiting` for fresh placement.
#[test]
fn disconnect_requeues_assigned_tasks() {
    let mut core = Core::new();
    let w1 = handshake(&mut core, RegisterWorkerMsg { address: "a:1".to_owned(), ncpus: None });
    core.add_task(waiting_task(1, vec![]));
    assert!(core.set_task_placement(1, w1));
    dispatch(&mut core, vec![1]);
    assert!(matches!(core.tasks[0].state, TaskState::Assigned));

    on_worker_disconnect(&mut core, w1);

    assert!(core.workers.iter().all(|w| w.id != w1));
    assert!(matches!(core.tasks[0].state, TaskState::Waiting));
    assert_eq!(core.tasks[0].assigned_worker, None);
}

/// Malformed frame bytes end that connection alone: its pump sees a fatal
/// decode error and its worker is unregistered; other connections and their
/// queues are untouched.
#[test]
fn malformed_frame_tears_down_one_connection_only() {
    let mut core = Core::new();
    let w1 = handshake(&mut core, RegisterWorkerMsg { address: "a:1".to_owned(), ncpus: None });
    let w2 = handshake(&mut core, RegisterWorkerMsg { address: "b:2".to_owned(), ncpus: None });

    // w1's receive loop gets garbage announcing an absurd frame length
    let mut buf = RecvBuffer::new();
    buf.feed(&[0xff, 0xff, 0xff, 0xff, 0, 0]);
    assert!(matches!(buf.next_frame(), Err(FrameError::Oversize)));
    on_worker_disconnect(&mut core, w1);

    assert!(core.workers.iter().all(|w| w.id != w1));
    let i2 = worker_index(&core, w2);
    assert_eq!(core.workers[i2].listen_address, "b:2");
    assert_eq!(core.workers[i2].outbound.len(), 1);
}

/// A batch of reports from a worker nobody registered is rejected.
#[test]
fn reports_from_unknown_worker_are_rejected() {
    let mut core = Core::new();
    core.add_task(waiting_task(1, vec![]));
    let r = process_worker_batch(&mut core, 99, &vec![finished_report(1)]);
    assert_eq!(r, Err(taskplane::registry::CoreError::UnknownWorker));
    assert!(matches!(core.tasks[0].state, TaskState::Waiting));
}

/// Keep-alive traffic changes nothing.
#[test]
fn keep_alive_is_a_no_op() {
    let mut core = Core::new();
    let w1 = handshake(&mut core, RegisterWorkerMsg { address: "a:1".to_owned(), ncpus: None });
    let wi = worker_index(&core, w1);
    let before = core.workers[wi].outbound.len();
    let r = process_worker_batch(&mut core, w1, &vec![FromWorkerMessage::KeepAlive]);
    assert_eq!(r, Ok(()));
    assert_eq!(core.workers[wi].outbound.len(), before);
}

/// Outbound queueing keeps order; draining empties the queue.
#[test]
fn outbound_queue_keeps_order() {
    let mut core = Core::new();
    let w1 = handshake(&mut core, RegisterWorkerMsg { address: "a:1".to_owned(), ncpus: None });
    let wi = worker_index(&core, w1);
    core.workers[wi].send_message(WorkerOutbound::TaskBatch(vec![ToWorkerMessage::ComputeTask(
        ComputeTaskMsg { key: 5, who_has: vec![] },
    )]));
    let drained = core.workers[wi].take_outbound();
    assert_eq!(drained.len(), 2);
    assert!(matches!(drained[0], WorkerOutbound::Heartbeat(_)));
    assert!(matches!(drained[1], WorkerOutbound::TaskBatch(_)));
    assert!(core.workers[wi].outbound.is_empty());
}

/// A batch is accepted only if every report in it is: the first report that
/// names an unknown task aborts the batch with that error.
#[test]
fn rejected_report_aborts_the_batch() {
    let mut core = Core::new();
    let w1 = handshake(&mut core, RegisterWorkerMsg { address: "a:1".to_owned(), ncpus: None });
    let batch = vec![FromWorkerMessage::KeepAlive, finished_report(42)];
    let r = process_worker_batch(&mut core, w1, &batch);
    assert_eq!(r, Err(taskplane::registry::CoreError::UnknownTask));
}
