use coroflow::lifecycle::{
    panic_message, Completion, DeadlineStage, EmptyStage, PanicPayload, RetryDecision, RetryStage,
};
use coroflow::{flow, flow_of, Flow, FlowCollector, FlowLifecycle, FlowTerminal};

#[test]
fn test_on_start() {
    let flow = flow(|c: FlowCollector<i32>| {
        let mut c = c;
        c.emit(2);
        c.emit(3);
        c
    })
    .on_start(|c| {
        let mut c = c;
        c.emit(1);
        c
    });

    let result = flow.to_vec();
    assert_eq!(result, vec![1, 2, 3]);
}

#[test]
fn test_on_completion() {
    let flow = flow(|c: FlowCollector<i32>| {
        let mut c = c;
        c.emit(1);
        c.emit(2);
        c
    })
    .on_completion(|c, _error| {
        let mut c = c;
        c.emit(3);
        c
    });

    let result = flow.to_vec();
    assert_eq!(result, vec![1, 2, 3]);
}

#[test]
fn on_completion_reports_no_failure() {
    let seen = std::cell::Cell::new(false);
    let result = flow_of(vec![1])
        .on_completion(|c, error| {
            seen.set(error.is_none());
            c
        })
        .to_vec();
    assert_eq!(result, vec![1]);
    assert!(seen.get());
}

#[test]
fn test_on_empty() {
    let empty: Flow<i32> = flow(|c: FlowCollector<i32>| c);
    let flow = empty.on_empty(|c| {
        let mut c = c;
        c.emit(42);
        c
    });

    let result = flow.to_vec();
    assert_eq!(result, vec![42]);
}

#[test]
fn test_on_empty_not_triggered() {
    let flow = flow(|c: FlowCollector<i32>| {
        let mut c = c;
        c.emit(1);
        c
    })
    .on_empty(|c| {
        let mut c = c;
        c.emit(42);
        c
    });

    let result = flow.to_vec();
    assert_eq!(result, vec![1]);
}

#[test]
fn test_with_timeout() {
    let flow = flow(|c: FlowCollector<i32>| {
        let mut c = c;
        c.emit(1);
        c.emit(2);
        c.emit(3);
        c
    })
    .with_timeout(2);

    let result = flow.to_vec();
    assert_eq!(result, vec![1, 2]);
}

#[test]
fn with_timeout_that_never_fires_keeps_everything() {
    assert_eq!(flow_of(vec![1, 2, 3]).with_timeout(9).to_vec(), vec![1, 2, 3]);
    assert!(flow_of(vec![1, 2, 3]).with_timeout(0).to_vec().is_empty());
}

#[test]
fn catch_panic_hands_the_message_to_the_handler() {
    let out = flow_of(vec![1, 2])
        .catch_panic(
            Completion::Panicked(PanicPayload::Text("boom".to_string())),
            |c, message| {
                let mut c = c;
                c.emit(message.len() as i32);
                c
            },
        )
        .to_vec();
    assert_eq!(out, vec![1, 2, 4]);
}

#[test]
fn catch_panic_leaves_a_finished_stream_alone() {
    let out = flow_of(vec![1, 2])
        .catch_panic(Completion::Finished, |c, _message| {
            let mut c = c;
            c.emit(0);
            c
        })
        .to_vec();
    assert_eq!(out, vec![1, 2]);
}

#[test]
fn panic_message_of_each_payload() {
    assert_eq!(panic_message(PanicPayload::Text("out of range".to_string())), "out of range");
    assert_eq!(panic_message(PanicPayload::Text(String::new())), "");
    assert_eq!(panic_message(PanicPayload::Other), "Unknown panic");
}

#[test]
fn retry_runs_again_after_each_failure_within_the_budget() {
    let outcome = flow_of(vec![1, 2, 3]).retry(2, vec![flow_of(vec![1]), flow_of(vec![1, 2])]);
    assert!(!outcome.reraised);
    assert_eq!(outcome.delivered.to_vec(), vec![1, 1, 2, 1, 2, 3]);
}

#[test]
fn retry_raises_the_failure_once_the_budget_is_used_up() {
    let failed = vec![flow_of(vec![1]), flow_of(vec![2]), flow_of(vec![3]), flow_of(vec![4])];
    let outcome = flow_of(vec![9]).retry(2, failed);
    assert!(outcome.reraised);
    assert_eq!(outcome.delivered.to_vec(), vec![1, 2, 3]);
    let at_once = flow_of(vec![9]).retry(0, vec![flow_of(vec![7])]);
    assert!(at_once.reraised);
    assert_eq!(at_once.delivered.to_vec(), vec![7]);
}

#[test]
fn retry_without_failures_is_the_stream() {
    let outcome = flow_of(vec![5, 6]).retry(3, Vec::new());
    assert!(!outcome.reraised);
    assert_eq!(outcome.delivered.to_vec(), vec![5, 6]);
}

#[test]
fn retry_stage_allows_max_retries_and_no_more() {
    let mut stage = RetryStage::new(2);
    assert_eq!(stage.on_failure(), RetryDecision::Again);
    assert_eq!(stage.on_failure(), RetryDecision::Again);
    assert_eq!(stage.on_failure(), RetryDecision::GiveUp);
    assert_eq!(stage.on_failure(), RetryDecision::GiveUp);
    assert_eq!(RetryStage::new(0).on_failure(), RetryDecision::GiveUp);
}

#[test]
fn deadline_stage_closes_for_good() {
    let mut stage = DeadlineStage::new();
    assert!(stage.accept());
    stage.on_timeout();
    assert!(!stage.accept());
    stage.on_timeout();
    assert!(!stage.accept());
}

#[test]
fn empty_stage_runs_the_action_for_an_empty_stream_only() {
    let mut stage = EmptyStage::new();
    assert!(stage.runs_action());
    stage.on_value();
    assert!(!stage.runs_action());
}
