use coroflow::{SharedFlow, StateFlow};

#[test]
fn state_subscription_starts_with_the_current_value() {
    let mut state = StateFlow::new("initial");
    state.emit("second");
    let (subscription, first) = state.subscribe();
    assert_eq!(first, "second");
    assert_eq!(state.next(&subscription), None);
    assert_eq!(state.next(&subscription), None);
}

#[test]
fn state_subscription_sees_only_the_latest_of_many_writes() {
    let mut state = StateFlow::new(0);
    let (subscription, first) = state.subscribe();
    assert_eq!(first, 0);
    state.emit(1);
    state.emit(2);
    state.emit(3);
    assert_eq!(state.next(&subscription), Some(3));
    assert_eq!(state.next(&subscription), None);
    state.emit(3);
    assert_eq!(state.next(&subscription), Some(3));
}

#[test]
fn state_subscribers_are_told_apart() {
    let mut state = StateFlow::new(0);
    let (a, _) = state.subscribe();
    let (b, _) = state.subscribe();
    assert_eq!(state.subscriber_count(), 2);
    state.emit(5);
    assert_eq!(state.next(&a), Some(5));
    assert_eq!(state.next(&a), None);
    assert_eq!(state.next(&b), Some(5));
    state.unsubscribe(a);
    assert_eq!(state.subscriber_count(), 1);
    state.emit(6);
    assert_eq!(state.next(&a), None);
    assert_eq!(state.next(&b), Some(6));
    assert_eq!(state.get(), 6);
}

#[test]
fn state_emit_without_subscribers_still_overwrites() {
    let mut state = StateFlow::new(1);
    assert_eq!(state.subscriber_count(), 0);
    state.emit(2);
    assert_eq!(state.get(), 2);
}

#[test]
fn shared_emit_without_subscribers_is_dropped() {
    let mut shared = SharedFlow::new(2);
    shared.emit(1);
    let late = shared.subscribe();
    assert_eq!(shared.next(&late), None);
    shared.emit(2);
    assert_eq!(shared.next(&late), Some(2));
    assert_eq!(shared.next(&late), None);
}

#[test]
fn shared_subscription_starts_now() {
    let mut shared = SharedFlow::new(4);
    let early = shared.subscribe();
    shared.emit(1);
    shared.emit(2);
    let late = shared.subscribe();
    shared.emit(3);
    assert_eq!(shared.subscriber_count(), 2);
    assert_eq!(shared.next(&early), Some(1));
    assert_eq!(shared.next(&early), Some(2));
    assert_eq!(shared.next(&early), Some(3));
    assert_eq!(shared.next(&early), None);
    assert_eq!(shared.next(&late), Some(3));
    assert_eq!(shared.next(&late), None);
}

#[test]
fn shared_slow_subscriber_misses_what_left_the_buffer() {
    let mut shared = SharedFlow::new(2);
    let slow = shared.subscribe();
    shared.emit(1);
    shared.emit(2);
    shared.emit(3);
    shared.emit(4);
    assert_eq!(shared.next(&slow), Some(3));
    assert_eq!(shared.next(&slow), Some(4));
    assert_eq!(shared.next(&slow), None);
}

#[test]
fn shared_closed_subscription_gets_nothing() {
    let mut shared = SharedFlow::new(2);
    let a = shared.subscribe();
    let b = shared.subscribe();
    shared.unsubscribe(a);
    assert_eq!(shared.subscriber_count(), 1);
    shared.emit(9);
    assert_eq!(shared.next(&a), None);
    assert_eq!(shared.next(&b), Some(9));
    shared.unsubscribe(b);
    assert_eq!(shared.subscriber_count(), 0);
}
