use coroflow::combining::{pair_up, CombineLatest, Sampler};
use coroflow::{flow, flow_of, merge, Flow, FlowCollector, FlowCombining, FlowTerminal, Side};

#[test]
fn test_zip() {
    let flow1 = flow(|c: FlowCollector<i32>| {
        let mut c = c;
        c.emit(1);
        c.emit(2);
        c.emit(3);
        c
    });

    let flow2 = flow(|c: FlowCollector<&str>| {
        let mut c = c;
        c.emit("a");
        c.emit("b");
        c.emit("c");
        c
    });

    let zipped = flow1.zip(flow2, |a, b| format!("{}{}", a, b));
    let result = zipped.to_vec();

    assert_eq!(result, vec!["1a", "2b", "3c"]);
}

#[test]
fn zip_stops_with_the_shorter_side() {
    let pairs = flow_of(vec![1, 2, 3]).zip(flow_of(vec!["a", "b"]), |a, b| (a, b)).to_vec();
    assert_eq!(pairs, vec![(1, "a"), (2, "b")]);
    let none = flow_of(Vec::<i32>::new()).zip(flow_of(vec![1, 2]), |a, b| a + b).to_vec();
    assert!(none.is_empty());
}

#[test]
fn pair_up_needs_both_sides() {
    assert_eq!(pair_up(Some(1), Some("x")), Some((1, "x")));
    assert_eq!(pair_up(Some(1), None::<&str>), None);
    assert_eq!(pair_up(None::<i32>, Some("x")), None);
    assert_eq!(pair_up(None::<i32>, None::<&str>), None);
}

#[test]
fn test_concat() {
    let flow1 = flow(|c: FlowCollector<i32>| {
        let mut c = c;
        c.emit(1);
        c.emit(2);
        c
    });

    let flow2 = flow(|c: FlowCollector<i32>| {
        let mut c = c;
        c.emit(3);
        c.emit(4);
        c
    });

    let concatenated = flow1.concat(flow2);
    let result = concatenated.to_vec();

    assert_eq!(result, vec![1, 2, 3, 4]);
}

#[test]
fn test_start_with() {
    let flow = flow(|c: FlowCollector<i32>| {
        let mut c = c;
        c.emit(3);
        c.emit(4);
        c
    })
    .start_with(vec![1, 2]);

    let result = flow.to_vec();
    assert_eq!(result, vec![1, 2, 3, 4]);
}

#[test]
fn test_merge() {
    let flow1 = flow(|c: FlowCollector<i32>| {
        let mut c = c;
        c.emit(1);
        c.emit(3);
        c
    });

    let flow2 = flow(|c: FlowCollector<i32>| {
        let mut c = c;
        c.emit(2);
        c.emit(4);
        c
    });

    let merged = merge(vec![flow1, flow2], vec![0, 1, 0, 1]);
    let result = merged.to_vec();

    assert_eq!(result.len(), 4);
    assert!(result.contains(&1));
    assert!(result.contains(&2));
    assert!(result.contains(&3));
    assert!(result.contains(&4));
    assert_eq!(result, vec![1, 2, 3, 4]);
}

#[test]
fn merge_keeps_each_source_in_order_for_any_arrival_order() {
    let sources = vec![vec![1, 2, 3], vec![10, 20], vec![], vec![100]];
    let orders: Vec<Vec<usize>> = vec![
        vec![],
        vec![1, 1, 0, 3, 0, 0],
        vec![3, 2, 2, 1, 0, 1, 0, 0],
        vec![9, 0, 0, 0, 0, 0, 1],
        vec![2, 2, 3, 3, 3],
    ];
    for order in orders {
        let flows: Vec<Flow<i32>> = sources.iter().map(|s| flow_of(s.clone())).collect();
        let out = merge(flows, order).to_vec();
        assert_eq!(out.len(), 6);
        for source in &sources {
            let kept: Vec<i32> = out.iter().copied().filter(|v| source.contains(v)).collect();
            assert_eq!(&kept, source);
        }
    }
}

#[test]
fn merge_without_an_order_drains_source_after_source() {
    let out = merge(vec![flow_of(vec![1, 2]), flow_of(vec![3])], vec![]).to_vec();
    assert_eq!(out, vec![1, 2, 3]);
    let none: Vec<i32> = merge(Vec::new(), vec![0, 1]).to_vec();
    assert!(none.is_empty());
}

#[test]
fn combine_emits_on_every_arrival_once_both_have_delivered() {
    let order = vec![Side::Left, Side::Left, Side::Right, Side::Left, Side::Right];
    let out = flow_of(vec![1, 2, 3])
        .combine(flow_of(vec![10, 20]), order, |a, b| a + b)
        .to_vec();
    assert_eq!(out, vec![12, 13, 23]);
}

#[test]
fn combine_without_an_order_takes_the_left_side_first() {
    let out = flow_of(vec![1, 2])
        .combine(flow_of(vec!["x", "y"]), vec![], |a, b| format!("{}{}", a, b))
        .to_vec();
    assert_eq!(out, vec!["2x", "2y"]);
}

#[test]
fn combine_with_a_silent_side_emits_nothing() {
    let out = flow_of(vec![1, 2])
        .combine(flow_of(Vec::<i32>::new()), vec![Side::Right, Side::Left], |a, b| a + b)
        .to_vec();
    assert!(out.is_empty());
}

#[test]
fn combine_latest_pairs_the_newest_values() {
    let mut state: CombineLatest<i32, &str> = CombineLatest::new();
    assert_eq!(state.on_left(1), None);
    assert_eq!(state.on_left(2), None);
    assert_eq!(state.on_right("a"), Some((2, "a")));
    assert_eq!(state.on_left(3), Some((3, "a")));
    assert_eq!(state.on_right("b"), Some((3, "b")));
}

#[test]
fn sample_takes_the_latest_value_at_each_tick() {
    let order = vec![Side::Right, Side::Left, Side::Left, Side::Right, Side::Right, Side::Left];
    let out = flow_of(vec![1, 2, 3]).sample(flow_of(vec![(), (), (), ()]), order).to_vec();
    assert_eq!(out, vec![2, 2, 3]);
}

#[test]
fn sampler_gives_nothing_before_the_first_value() {
    let mut state: Sampler<i32> = Sampler::new();
    assert_eq!(state.on_tick(), None);
    state.on_value(7);
    assert_eq!(state.on_tick(), Some(7));
    assert_eq!(state.on_tick(), Some(7));
    state.on_value(8);
    assert_eq!(state.on_tick(), Some(8));
}
