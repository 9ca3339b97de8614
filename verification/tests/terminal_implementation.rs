use coroflow::{flow, Flow, FlowCollector, FlowError, FlowTerminal};

#[test]
fn implementation_test_first() {
    let numbers = flow(|c: FlowCollector<i32>| {
        let mut c = c;
        c.emit(1);
        c.emit(2);
        c.emit(3);
        c
    });

    let first = numbers.first().unwrap();
    assert_eq!(first, 1);
}

#[test]
fn implementation_test_first_empty() {
    let empty: Flow<i32> = flow(|c: FlowCollector<i32>| c);
    let result = empty.first();
    assert!(matches!(result, Err(FlowError::Empty)));
}

#[test]
fn implementation_test_single() {
    let single_flow = flow(|c: FlowCollector<i32>| {
        let mut c = c;
        c.emit(42);
        c
    });

    let result = single_flow.single().unwrap();
    assert_eq!(result, 42);
}

#[test]
fn implementation_test_single_multiple() {
    let multiple = flow(|c: FlowCollector<i32>| {
        let mut c = c;
        c.emit(1);
        c.emit(2);
        c
    });

    let result = multiple.single();
    assert!(matches!(result, Err(FlowError::MoreThanOneElement)));
}

#[test]
fn implementation_test_to_vec() {
    let numbers = flow(|c: FlowCollector<i32>| {
        let mut c = c;
        c.emit(1);
        c.emit(2);
        c.emit(3);
        c
    });

    let vec = numbers.to_vec();
    assert_eq!(vec, vec![1, 2, 3]);
}

#[test]
fn implementation_test_fold() {
    let numbers = flow(|c: FlowCollector<i32>| {
        let mut c = c;
        for i in 1..=5 {
            c.emit(i);
        }
        c
    });

    let sum = numbers.fold(0, |acc, x| acc + x);
    assert_eq!(sum, 15);
}

#[test]
fn implementation_test_reduce() {
    let numbers = flow(|c: FlowCollector<i32>| {
        let mut c = c;
        for i in 1..=5 {
            c.emit(i);
        }
        c
    });

    let sum = numbers.reduce(|acc, x| acc + x).unwrap();
    assert_eq!(sum, 15);
}

#[test]
fn implementation_test_count() {
    let numbers = flow(|c: FlowCollector<i32>| {
        let mut c = c;
        for i in 1..=10 {
            c.emit(i);
        }
        c
    });

    let count = numbers.count();
    assert_eq!(count, 10);
}

#[test]
fn implementation_test_any() {
    let numbers = flow(|c: FlowCollector<i32>| {
        let mut c = c;
        for i in 1..=5 {
            c.emit(i);
        }
        c
    });

    let has_even = numbers.any(|x| *x % 2 == 0);
    assert!(has_even);
}

#[test]
fn implementation_test_all() {
    let numbers = flow(|c: FlowCollector<i32>| {
        let mut c = c;
        for i in [2, 4, 6, 8] {
            c.emit(i);
        }
        c
    });

    let all_even = numbers.all(|x| *x % 2 == 0);
    assert!(all_even);
}
