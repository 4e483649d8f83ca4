use taskplane::messages::{ComputeTaskMsg, FromWorkerMessage, Status};
use taskplane::reactor::{compute_task, compute_task_now, WorkerState, COMPUTE_SPAN, RESULT_BYTE_SIZE};

#[test]
fn compute_fetches_missing_keys_and_reports_success() {
    let mut state = WorkerState::new();
    state.local_keys.push(2);
    let msg = ComputeTaskMsg {
        key: 7,
        who_has: vec![
            (1, "a:1".to_owned()),
            (2, "b:2".to_owned()),
            (1, "a:1".to_owned()),
        ],
    };
    compute_task(&mut state, msg, 100);

    // key 2 was already held; key 1 is fetched once despite the repeat
    assert_eq!(state.local_keys, vec![2, 1, 7]);
    assert_eq!(state.outbound.len(), 2);
    match &state.outbound[0] {
        FromWorkerMessage::AddKeys(a) => assert_eq!(a.keys, vec![1]),
        other => panic!("expected the fetch announcement, got {:?}", other),
    }
    match &state.outbound[1] {
        FromWorkerMessage::TaskFinished(t) => {
            assert_eq!(t.status, Status::Success);
            assert_eq!(t.key, 7);
            assert_eq!(t.byte_size, RESULT_BYTE_SIZE);
            assert!(t.type_tag.is_empty());
            assert_eq!(t.timing_spans, vec![("compute".to_owned(), 100, 100 + COMPUTE_SPAN)]);
        },
        other => panic!("expected the success report, got {:?}", other),
    }
}

#[test]
fn compute_without_fetching_sends_only_the_report() {
    let mut state = WorkerState::new();
    state.local_keys.push(1);
    let msg = ComputeTaskMsg {
        key: 1,
        who_has: vec![(1, "a:1".to_owned())],
    };
    compute_task(&mut state, msg, 0);
    assert_eq!(state.local_keys, vec![1]);
    assert_eq!(state.outbound.len(), 1);
    assert!(matches!(&state.outbound[0], FromWorkerMessage::TaskFinished(_)));
}

#[test]
fn compute_at_wall_clock_reports_the_span() {
    let mut state = WorkerState::new();
    let msg = ComputeTaskMsg { key: 3, who_has: vec![] };
    compute_task_now(&mut state, msg);
    assert_eq!(state.local_keys, vec![3]);
    match &state.outbound[0] {
        FromWorkerMessage::TaskFinished(t) => {
            assert_eq!(t.timing_spans.len(), 1);
            let (label, start, stop) = &t.timing_spans[0];
            assert_eq!(label, "compute");
            assert_eq!(*stop, *start + COMPUTE_SPAN);
        },
        other => panic!("expected the success report, got {:?}", other),
    }
}
