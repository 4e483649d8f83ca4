use taskplane::messages::{RegisterWorkerMsg, Status, TaskErredMsg, TaskFinishedMsg};
use taskplane::registry::{Core, CoreError, Task, TaskState};
use taskplane::worker::{handshake, Worker};

fn waiting_task(id: u64, deps: Vec<u64>) -> Task {
    Task {
        id,
        state: TaskState::Waiting,
        assigned_worker: None,
        deps,
        result_location: None,
    }
}

fn finished_report(key: u64) -> TaskFinishedMsg {
    TaskFinishedMsg {
        status: Status::Success,
        key,
        byte_size: 20,
        type_tag: vec![],
        timing_spans: vec![],
    }
}

fn register(core: &mut Core, address: &str) -> u64 {
    handshake(
        core,
        RegisterWorkerMsg {
            address: address.to_owned(),
            ncpus: Some(1),
        },
    )
}

#[test]
fn worker_count_follows_registers_and_unregisters() {
    let mut core = Core::new();
    let w1 = register(&mut core, "a:1");
    let w2 = register(&mut core, "b:2");
    let w3 = register(&mut core, "c:3");
    assert_eq!(core.workers.len(), 3);
    core.unregister_worker(w2);
    assert_eq!(core.workers.len(), 2);
    core.unregister_worker(w1);
    core.unregister_worker(w3);
    assert_eq!(core.workers.len(), 0);
}

#[test]
fn issued_worker_ids_are_unique_and_never_reused() {
    let mut core = Core::new();
    let w1 = register(&mut core, "a:1");
    let w2 = register(&mut core, "b:2");
    core.unregister_worker(w1);
    core.unregister_worker(w2);
    let w3 = register(&mut core, "c:3");
    assert_ne!(w1, w2);
    assert_ne!(w1, w3);
    assert_ne!(w2, w3);
}

#[test]
fn unregister_absent_worker_is_a_no_op() {
    let mut core = Core::new();
    let w1 = register(&mut core, "a:1");
    core.unregister_worker(w1 + 100);
    assert_eq!(core.workers.len(), 1);
    assert_eq!(core.workers[0].id, w1);
    // the registry still works afterwards
    let w2 = register(&mut core, "b:2");
    assert_eq!(core.workers.len(), 2);
    assert_ne!(w1, w2);
}

#[test]
fn direct_registration_keeps_entry_accessible() {
    let mut core = Core::new();
    let id = core.new_worker_id();
    let w = Worker {
        id,
        ncpus: 2,
        listen_address: "addr:9".to_owned(),
        outbound: Vec::new(),
    };
    assert_eq!(w.id(), id);
    let info = w.make_sched_info();
    assert_eq!(info.id, id);
    assert_eq!(info.ncpus, 2);
    let got = core.register_worker(w);
    assert_eq!(got, id);
    assert_eq!(core.workers.len(), 1);
}

#[test]
fn task_follows_success_path() {
    let mut core = Core::new();
    let w1 = register(&mut core, "a:1");
    core.add_task(waiting_task(1, vec![]));
    assert!(core.set_task_placement(1, w1));
    assert!(matches!(core.tasks[0].state, TaskState::Waiting));

    let groups = taskplane::worker::assign_and_group(&mut core, &vec![1]);
    assert_eq!(groups.len(), 1);
    assert!(matches!(core.tasks[0].state, TaskState::Assigned));

    let mut ready = Vec::new();
    let r = core.on_task_finished(w1, &finished_report(1), &mut ready);
    assert_eq!(r, Ok(()));
    assert!(matches!(core.tasks[0].state, TaskState::Finished));
    assert_eq!(core.tasks[0].result_location.as_deref(), Some("a:1"));
    assert!(ready.is_empty());
}

#[test]
fn task_follows_error_path() {
    let mut core = Core::new();
    let w1 = register(&mut core, "a:1");
    core.add_task(waiting_task(1, vec![]));
    assert!(core.set_task_placement(1, w1));
    taskplane::worker::assign_and_group(&mut core, &vec![1]);

    let report = TaskErredMsg {
        status: Status::Failure,
        key: 1,
        error_info: "boom".to_owned(),
    };
    assert_eq!(core.on_task_erred(w1, &report), Ok(()));
    assert!(matches!(core.tasks[0].state, TaskState::Error));
}

#[test]
fn illegal_transitions_are_rejected() {
    let mut core = Core::new();
    let w1 = register(&mut core, "a:1");
    core.add_task(waiting_task(1, vec![]));

    // a report about a task that was never assigned
    let mut ready = Vec::new();
    assert_eq!(
        core.on_task_finished(w1, &finished_report(1), &mut ready),
        Err(CoreError::TaskNotAssigned)
    );
    assert!(matches!(core.tasks[0].state, TaskState::Waiting));

    // a report about an unknown task
    assert_eq!(
        core.on_task_finished(w1, &finished_report(42), &mut ready),
        Err(CoreError::UnknownTask)
    );

    // a report from an unknown worker
    assert_eq!(
        core.on_task_finished(w1 + 7, &finished_report(1), &mut ready),
        Err(CoreError::UnknownWorker)
    );

    // a second report after the task finished
    assert!(core.set_task_placement(1, w1));
    taskplane::worker::assign_and_group(&mut core, &vec![1]);
    assert_eq!(core.on_task_finished(w1, &finished_report(1), &mut ready), Ok(()));
    assert_eq!(
        core.on_task_finished(w1, &finished_report(1), &mut ready),
        Err(CoreError::TaskNotAssigned)
    );
    assert!(matches!(core.tasks[0].state, TaskState::Finished));
}

#[test]
fn placement_refused_once_task_left_waiting() {
    let mut core = Core::new();
    let w1 = register(&mut core, "a:1");
    core.add_task(waiting_task(1, vec![]));
    assert!(core.set_task_placement(1, w1));
    taskplane::worker::assign_and_group(&mut core, &vec![1]);
    assert!(!core.set_task_placement(1, w1));
    assert!(!core.set_task_placement(99, w1));
}

#[test]
fn finishing_unblocks_dependents() {
    let mut core = Core::new();
    let w1 = register(&mut core, "a:1");
    core.add_task(waiting_task(1, vec![]));
    core.add_task(waiting_task(2, vec![1]));
    core.add_task(waiting_task(3, vec![1, 2]));
    assert!(core.set_task_placement(1, w1));
    taskplane::worker::assign_and_group(&mut core, &vec![1]);

    let mut ready = Vec::new();
    assert_eq!(core.on_task_finished(w1, &finished_report(1), &mut ready), Ok(()));
    // task 2 depended only on 1; task 3 still waits for 2
    assert_eq!(ready, vec![2]);
}
