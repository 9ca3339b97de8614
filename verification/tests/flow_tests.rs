use coroflow::hot_flow::{SharedFlow, StateFlow};
use coroflow::{flow, flow_of, Flow, FlowCollector, FlowExt, FlowTerminal};

fn collect_flow<T>(flow: Flow<T>) -> Vec<T> {
    let mut collector = FlowCollector::new();
    flow.collect_into(&mut collector);
    collector.into_values()
}

#[test]
fn map_filter_take_collects_expected_values() {
    let numbers: Flow<i32> = flow(|collector: FlowCollector<i32>| {
        let mut collector = collector;
        for i in 0..10 {
            collector.emit(i);
        }
        collector
    });

    let filtered = numbers
        .map(|value| value * 2)
        .filter(|value| {
            let copy = *value;
            copy % 4 == 0
        })
        .take(3);

    let collected = collect_flow(filtered);

    assert_eq!(collected, vec![0, 4, 8]);
}

#[test]
fn shared_flow_multicasts() {
    let mut shared = SharedFlow::new(4);
    let subscription = shared.subscribe();

    shared.emit(1);
    shared.emit(2);
    shared.emit(3);

    let mut values = Vec::new();
    while values.len() < 3 {
        match shared.next(&subscription) {
            Some(value) => values.push(value),
            None => break,
        }
    }
    shared.unsubscribe(subscription);

    assert_eq!(values, vec![1, 2, 3]);
}

#[test]
fn state_flow_emits_initial_and_updates() {
    let mut state = StateFlow::new(0);
    let (subscription, first) = state.subscribe();
    let mut values = vec![first];

    state.emit(1);
    while values.len() < 2 {
        match state.next(&subscription) {
            Some(value) => values.push(value),
            None => break,
        }
    }

    assert_eq!(values, vec![0, 1]);
}

#[test]
fn test_flow_macro() {
    let numbers: Flow<i32> = flow(|collector: FlowCollector<i32>| {
        let mut collector = collector;
        for i in 1..=3 {
            collector.emit(i);
        }
        collector
    });

    let collected = std::cell::RefCell::new(Vec::new());
    numbers.collect(|x| collected.borrow_mut().push(x));

    assert_eq!(*collected.borrow(), vec![1, 2, 3]);
}

#[test]
fn test_state_flow_get() {
    let mut state = StateFlow::new(0i32);
    assert_eq!(state.get(), 0);

    state.set(1);
    assert_eq!(state.get(), 1);

    state.set(42);
    assert_eq!(state.get(), 42);
}

#[test]
fn test_sync_operators() {
    let numbers: Flow<i32> = flow_of((1..=10).collect::<Vec<i32>>());

    let result = numbers
        .map_sync(|x| x * 2)
        .filter_sync(|x| *x > 5)
        .take(3)
        .to_vec();

    assert_eq!(result, vec![6, 8, 10]);
}

#[test]
fn test_take_operator() {
    let numbers: Flow<i32> = flow(|collector: FlowCollector<i32>| {
        let mut collector = collector;
        for i in 1..=10 {
            collector.emit(i);
        }
        collector
    });

    let result = collect_flow(numbers.take(3));
    assert_eq!(result, vec![1, 2, 3]);
}

#[test]
fn collecting_twice_gives_the_same_values() {
    let numbers: Flow<i32> = flow_of(vec![4, 5, 6]);
    let again = numbers.clone();
    assert_eq!(collect_flow(numbers), vec![4, 5, 6]);
    assert_eq!(collect_flow(again), vec![4, 5, 6]);
}

#[test]
fn from_fn_is_new() {
    let made = Flow::from_fn(|collector: FlowCollector<&str>| {
        let mut collector = collector;
        collector.emit("a");
        collector
    });
    assert_eq!(made.len(), 1);
    assert_eq!(made.into_vec(), vec!["a"]);
}

#[test]
fn collect_into_appends_after_earlier_values() {
    let mut collector = FlowCollector::new();
    collector.emit(0);
    flow_of(vec![1, 2]).collect_into(&mut collector);
    assert_eq!(collector.into_values(), vec![0, 1, 2]);
}
