use coroflow::{flow, flow_of, Flow, FlowCollector, FlowExt, FlowTerminal};

#[test]
fn map_and_filter_pipeline_produces_expected_values() {
    let numbers = flow(|collector: FlowCollector<i32>| {
        let mut collector = collector;
        for value in 0..5 {
            collector.emit(value);
        }
        collector
    });

    let final_values = numbers
        .filter_sync(|value| *value % 2 == 0)
        .map(|value| value * 10)
        .on_each(|value| assert_eq!(value % 10, 0))
        .to_vec();

    assert_eq!(final_values, vec![0, 20, 40]);
}

#[test]
fn drop_and_take_limit_flow_size() {
    let flow = flow(|collector: FlowCollector<i32>| {
        let mut collector = collector;
        for value in 1..=6 {
            collector.emit(value);
        }
        collector
    });

    let final_values = flow.drop_first(2).take(2).to_vec();

    assert_eq!(final_values, vec![3, 4]);
}

#[test]
fn take_yields_the_minimum_of_limit_and_available() {
    for available in 0..6usize {
        for limit in 0..8usize {
            let values: Vec<usize> = (0..available).collect();
            let taken = flow_of(values.clone()).take(limit).to_vec();
            let expected: Vec<usize> = values.into_iter().take(limit).collect();
            assert_eq!(taken.len(), limit.min(available));
            assert_eq!(taken, expected);
        }
    }
}

#[test]
fn take_zero_delivers_nothing() {
    let taken: Vec<i32> = flow_of(vec![1, 2, 3]).take(0).to_vec();
    assert!(taken.is_empty());
}

#[test]
fn drop_first_beyond_the_end_delivers_nothing() {
    let rest: Vec<i32> = flow_of(vec![1, 2, 3]).drop_first(7).to_vec();
    assert!(rest.is_empty());
    assert_eq!(flow_of(vec![1, 2, 3]).drop_first(0).to_vec(), vec![1, 2, 3]);
}

#[test]
fn distinct_until_changed_drops_repeats_only() {
    let values = flow_of(vec![1, 1, 2, 2, 3, 1, 1]).distinct_until_changed().to_vec();
    assert_eq!(values, vec![1, 2, 3, 1]);
}

#[test]
fn distinct_until_changed_by_compares_keys() {
    let values = flow_of(vec![10, 11, 20, 21, 12, 30])
        .distinct_until_changed_by(|value| *value / 10)
        .to_vec();
    assert_eq!(values, vec![10, 20, 12, 30]);
}

#[test]
fn take_while_latches_after_the_first_failure() {
    let values = flow_of(vec![1, 2, 9, 3, 4]).take_while(|value| *value < 5).to_vec();
    assert_eq!(values, vec![1, 2]);
}

#[test]
fn take_while_does_not_ask_again_once_failed() {
    let asked = std::cell::Cell::new(0);
    let values = flow_of(vec![1, 9, 2, 3])
        .take_while(|value| {
            asked.set(asked.get() + 1);
            *value < 5
        })
        .to_vec();
    assert_eq!(values, vec![1]);
    assert_eq!(asked.get(), 2);
}

#[test]
fn drop_while_delivers_from_the_first_failure_on() {
    let values = flow_of(vec![1, 2, 9, 3, 4]).drop_while(|value| *value < 5).to_vec();
    assert_eq!(values, vec![9, 3, 4]);
}

#[test]
fn buffer_and_on_each_keep_values_and_order() {
    let seen = std::cell::RefCell::new(Vec::new());
    let values = flow_of(vec![3, 1, 2])
        .buffer(2)
        .on_each_async(|value| seen.borrow_mut().push(*value))
        .to_vec();
    assert_eq!(values, vec![3, 1, 2]);
    assert_eq!(*seen.borrow(), vec![3, 1, 2]);
}

#[test]
fn flat_map_drains_each_inner_stream_in_turn() {
    let values = flow_of(vec![1, 2, 3])
        .flat_map(|value| flow_of(vec![value * 10, value * 10 + 1]))
        .to_vec();
    assert_eq!(values, vec![10, 11, 20, 21, 30, 31]);
    let same = flow_of(vec![1, 2])
        .flat_map_sync(|value| flow_of(vec![value, value]))
        .to_vec();
    assert_eq!(same, vec![1, 1, 2, 2]);
}

#[test]
fn flat_map_latest_in_quick_succession_keeps_the_last_only() {
    let values = flow_of(vec!["a", "b"])
        .flat_map_latest(
            |value| flow_of(vec![format!("{}1", value), format!("{}2", value)]),
            vec![],
        )
        .to_vec();
    assert_eq!(values, vec!["b1".to_string(), "b2".to_string()]);
}

#[test]
fn flat_map_latest_keeps_what_came_before_the_switch() {
    let values = flow_of(vec![1, 2, 3])
        .flat_map_latest_sync(
            |value| flow_of(vec![value * 10, value * 10 + 1, value * 10 + 2]),
            vec![1, 5],
        )
        .to_vec();
    assert_eq!(values, vec![10, 20, 21, 22, 30, 31, 32]);
}

#[test]
fn flat_map_latest_of_nothing_is_nothing() {
    let empty: Flow<i32> = flow_of(Vec::new());
    let values = empty.flat_map_latest(|value| flow_of(vec![value]), vec![3]).to_vec();
    assert!(values.is_empty());
}
