use buckeval::graph::ComputeRule;
use buckeval::graph::EqPolicy;
use buckeval::graph::Graph;
use buckeval::graph::NodeState;
use buckeval::graph::RequestOutcome;

#[test]
fn repeated_compute_invokes_once() {
    let mut g = Graph::new();
    let a = g.add_input(5);
    let k = g
        .add_key(ComputeRule::Sum(vec![a]), EqPolicy::ByValue)
        .unwrap();
    for _ in 0..10 {
        assert_eq!(g.compute(k), Some(5));
    }
    assert_eq!(g.invocations(k), Some(1));
    assert_eq!(g.invocations(a), Some(1));
}

#[test]
fn cutoff_keeps_dependents_clean() {
    // A three-node chain: a -> b -> c.  Invalidating b recomputes b to an
    // equal value, so c must not recompute.
    let mut g = Graph::new();
    let a = g.add_input(3);
    let b = g
        .add_key(ComputeRule::Sum(vec![a]), EqPolicy::ByValue)
        .unwrap();
    let c = g
        .add_key(ComputeRule::Sum(vec![b]), EqPolicy::ByValue)
        .unwrap();
    assert_eq!(g.compute(c), Some(3));
    assert_eq!(g.invocations(b), Some(1));
    assert_eq!(g.invocations(c), Some(1));

    assert!(g.invalidate(b));
    assert_eq!(g.compute(c), Some(3));
    // b ran again; its value was equal, so c did not.
    assert_eq!(g.invocations(b), Some(2));
    assert_eq!(g.invocations(c), Some(1));
}

#[test]
fn changed_input_recomputes_dependents() {
    let mut g = Graph::new();
    let a = g.add_input(3);
    let b = g
        .add_key(ComputeRule::Sum(vec![a]), EqPolicy::ByValue)
        .unwrap();
    assert_eq!(g.compute(b), Some(3));
    assert!(g.set_input(a, 10));
    assert_eq!(g.compute(b), Some(10));
    assert_eq!(g.invocations(b), Some(2));
}

#[test]
fn always_unequal_forces_propagation() {
    // b declares its results never equal: invalidating it recomputes c as
    // well, even though the value did not change.
    let mut g = Graph::new();
    let a = g.add_input(3);
    let b = g
        .add_key(ComputeRule::Sum(vec![a]), EqPolicy::AlwaysUnequal)
        .unwrap();
    let c = g
        .add_key(ComputeRule::Sum(vec![b]), EqPolicy::ByValue)
        .unwrap();
    assert_eq!(g.compute(c), Some(3));
    assert!(g.invalidate(b));
    assert_eq!(g.compute(c), Some(3));
    assert_eq!(g.invocations(b), Some(2));
    assert_eq!(g.invocations(c), Some(2));
}

#[test]
fn concurrent_requests_coalesce() {
    // Several requests against an in-flight key observe one underlying
    // computation: one Started, the rest Joined, one invocation.
    let mut g = Graph::new();
    let a = g.add_input(7);
    let k = g
        .add_key(ComputeRule::Sum(vec![a]), EqPolicy::ByValue)
        .unwrap();
    assert_eq!(g.request(k), Some(RequestOutcome::Started));
    for _ in 0..4 {
        assert_eq!(g.request(k), Some(RequestOutcome::Joined));
    }
    match &g.nodes[k].state {
        NodeState::Computing { waiters, .. } => assert_eq!(*waiters, 5),
        _ => panic!("expected the key to be in flight"),
    }
    assert_eq!(g.invocations(k), Some(0));
    assert_eq!(g.finish(k), Some(7));
    assert_eq!(g.invocations(k), Some(1));
    // Every later request is a plain cache hit.
    assert_eq!(g.request(k), Some(RequestOutcome::Hit(7)));
}

#[test]
fn cancelled_computation_retries_from_scratch() {
    let mut g = Graph::new();
    let a = g.add_input(7);
    let k = g
        .add_key(ComputeRule::Sum(vec![a]), EqPolicy::ByValue)
        .unwrap();
    assert_eq!(g.request(k), Some(RequestOutcome::Started));
    assert!(g.cancel(k));
    // Nothing was cached and nothing ran.
    assert!(matches!(g.nodes[k].state, NodeState::Absent));
    assert_eq!(g.invocations(k), Some(0));
    assert_eq!(g.cached_value(k), None);
    // The next request re-invokes the compute logic from scratch.
    assert_eq!(g.compute(k), Some(7));
    assert_eq!(g.invocations(k), Some(1));
}

#[test]
fn sum_records_dependencies_in_request_order() {
    // End to end: Sum(a, b) with a = 3 and b = 4 yields 7, and the
    // recorded dependency set is exactly {a, b}, in request order.
    let mut g = Graph::new();
    let a = g.add_input(3);
    let b = g.add_input(4);
    let sum = g
        .add_key(ComputeRule::Sum(vec![a, b]), EqPolicy::ByValue)
        .unwrap();
    assert_eq!(g.compute(sum), Some(7));
    match &g.nodes[sum].state {
        NodeState::Computed { value, deps, .. } => {
            assert_eq!(*value, 7);
            let keys: Vec<usize> = deps.iter().map(|d| d.key).collect();
            assert_eq!(keys, vec![a, b]);
            assert_eq!(deps[0].seen, 3);
            assert_eq!(deps[1].seen, 4);
        }
        _ => panic!("expected the sum to be computed"),
    }
}

#[test]
fn failed_lookups_report_missing_keys() {
    let mut g = Graph::new();
    assert_eq!(g.compute(3), None);
    assert_eq!(g.invocations(0), None);
    assert!(!g.invalidate(0));
    let bad = g.add_key(ComputeRule::Sum(vec![5]), EqPolicy::ByValue);
    assert!(bad.is_none());
}

#[test]
fn cancel_restores_previous_value_as_dirty() {
    let mut g = Graph::new();
    let a = g.add_input(1);
    let k = g
        .add_key(ComputeRule::Sum(vec![a]), EqPolicy::ByValue)
        .unwrap();
    assert_eq!(g.compute(k), Some(1));
    assert!(g.invalidate(k));
    assert_eq!(g.request(k), Some(RequestOutcome::Started));
    assert!(g.cancel(k));
    match &g.nodes[k].state {
        NodeState::Computed { value, dirty, .. } => {
            assert_eq!(*value, 1);
            assert!(*dirty);
        }
        _ => panic!("expected the previous value back, marked dirty"),
    }
    assert_eq!(g.compute(k), Some(1));
    assert_eq!(g.invocations(k), Some(2));
}
