use rquickjs::Bridge;

#[test]
fn a_promise_is_not_settled_before_its_future_completes() {
    let mut bridge: Bridge<i32> = Bridge::new();
    assert_eq!(bridge.poll(), None);
    bridge.drained();
    bridge.drained();
    assert_eq!(bridge.poll(), None);
}

#[test]
fn a_promise_is_not_settled_before_the_queue_is_drained() {
    let mut bridge = Bridge::new();
    assert!(bridge.complete(42));
    assert_eq!(bridge.poll(), None);
    bridge.drained();
    assert_eq!(bridge.poll(), Some(&42));
}

#[test]
fn a_draining_before_the_completion_does_not_count() {
    let mut bridge = Bridge::new();
    bridge.drained();
    assert!(bridge.complete("done".to_string()));
    assert_eq!(bridge.poll(), None);
    bridge.drained();
    assert_eq!(bridge.poll(), Some(&"done".to_string()));
    bridge.drained();
    assert_eq!(bridge.poll(), Some(&"done".to_string()));
}

#[test]
fn a_future_completes_once() {
    let mut bridge = Bridge::new();
    assert!(bridge.complete(1));
    assert!(!bridge.complete(2));
    bridge.drained();
    assert!(!bridge.complete(3));
    assert_eq!(bridge.poll(), Some(&1));
}

#[test]
fn a_rejection_is_an_outcome_like_any_other() {
    let mut bridge: Bridge<Result<i32, String>> = Bridge::new();
    assert!(bridge.complete(Err("no".to_string())));
    bridge.drained();
    assert_eq!(bridge.poll(), Some(&Err("no".to_string())));
}
