use bt_traces::get_traces;
use bt_traces::BehaviorTree;
use bt_traces::NodeKind;
use bt_traces::NodeRef;
use bt_traces::Outcome;
use bt_traces::Trace;
use bt_traces::TraceError;

fn node(name: &str, kind: NodeKind, children: &[&str]) -> NodeRef {
    NodeRef {
        name: name.to_string(),
        kind,
        children: children.iter().map(|c| c.to_string()).collect(),
    }
}

fn tree(root: NodeRef, handles: Vec<NodeRef>) -> BehaviorTree {
    BehaviorTree { root_node: root, handles }
}

fn pair(name: &str, outcome: Outcome) -> (String, Outcome) {
    (name.to_string(), outcome)
}

fn expect(steps: Vec<(String, Outcome)>, result: Outcome) -> Trace {
    Trace { trace: steps, result }
}

#[test]
fn test_action_trace() {
    let action = node("A", NodeKind::Action, &[]);
    let bt = tree(node("A", NodeKind::Action, &[]), vec![action]);
    let traces = get_traces(bt).unwrap().traces;
    assert_eq!(traces.len(), 3);
    assert_eq!(traces[0], expect(vec![pair("A", Outcome::Success)], Outcome::Success));
    assert_eq!(traces[1], expect(vec![pair("A", Outcome::Failure)], Outcome::Failure));
    assert_eq!(traces[2], expect(vec![pair("A", Outcome::Running)], Outcome::Running));
}

#[test]
fn test_condition_trace() {
    let bt = tree(
        node("C", NodeKind::Condition, &["A"]),
        vec![node("C", NodeKind::Condition, &["A"]), node("A", NodeKind::Action, &[])],
    );
    let traces = get_traces(bt).unwrap().traces;
    assert_eq!(traces.len(), 4);
    assert_eq!(
        traces[0],
        expect(vec![pair("C", Outcome::Success), pair("A", Outcome::Success)], Outcome::Success)
    );
    assert_eq!(
        traces[1],
        expect(vec![pair("C", Outcome::Success), pair("A", Outcome::Failure)], Outcome::Failure)
    );
    assert_eq!(
        traces[2],
        expect(vec![pair("C", Outcome::Success), pair("A", Outcome::Running)], Outcome::Running)
    );
    assert_eq!(traces[3], expect(vec![pair("C", Outcome::Failure)], Outcome::Failure));
}

#[test]
fn test_sequence_trace() {
    let bt = tree(
        node("S", NodeKind::Sequence, &["A1", "A2"]),
        vec![
            node("S", NodeKind::Sequence, &["A1", "A2"]),
            node("A1", NodeKind::Action, &[]),
            node("A2", NodeKind::Action, &[]),
        ],
    );
    let traces = get_traces(bt).unwrap().traces;
    assert_eq!(traces.len(), 5);
    assert_eq!(traces[0], expect(vec![pair("A1", Outcome::Failure)], Outcome::Failure));
    assert_eq!(traces[1], expect(vec![pair("A1", Outcome::Running)], Outcome::Running));
    assert_eq!(
        traces[2],
        expect(vec![pair("A1", Outcome::Success), pair("A2", Outcome::Failure)], Outcome::Failure)
    );
    assert_eq!(
        traces[3],
        expect(vec![pair("A1", Outcome::Success), pair("A2", Outcome::Running)], Outcome::Running)
    );
    assert_eq!(
        traces[4],
        expect(vec![pair("A1", Outcome::Success), pair("A2", Outcome::Success)], Outcome::Success)
    );
}

#[test]
fn test_decorator_gates_like_condition() {
    let bt = tree(
        node("D", NodeKind::Decorator, &["A"]),
        vec![node("D", NodeKind::Decorator, &["A"]), node("A", NodeKind::Action, &[])],
    );
    let traces = get_traces(bt).unwrap().traces;
    assert_eq!(traces.len(), 4);
    assert_eq!(traces[3], expect(vec![pair("D", Outcome::Failure)], Outcome::Failure));
}

#[test]
fn test_missing_child_is_fatal() {
    let bt = tree(
        node("S", NodeKind::Sequence, &["A", "B"]),
        vec![node("S", NodeKind::Sequence, &["A", "B"]), node("A", NodeKind::Action, &[])],
    );
    let err = get_traces(bt).unwrap_err();
    assert_eq!(err, TraceError::MissingChild("B".to_string()));
}

#[test]
fn test_missing_condition_child_is_fatal() {
    let bt = tree(
        node("C", NodeKind::Condition, &["ghost_child"]),
        vec![node("C", NodeKind::Condition, &["ghost_child"])],
    );
    let err = get_traces(bt).unwrap_err();
    assert_eq!(err, TraceError::MissingChild("ghost_child".to_string()));
}

#[test]
fn test_empty_sequence_has_one_trivial_success() {
    let bt = tree(node("S", NodeKind::Sequence, &[]), vec![node("S", NodeKind::Sequence, &[])]);
    let traces = get_traces(bt).unwrap().traces;
    assert_eq!(traces.len(), 1);
    assert_eq!(traces[0], expect(vec![], Outcome::Success));
}

#[test]
fn test_condition_without_child_is_empty() {
    let bt = tree(node("C", NodeKind::Condition, &[]), vec![node("C", NodeKind::Condition, &[])]);
    let traces = get_traces(bt).unwrap().traces;
    assert_eq!(traces.len(), 0);
}

#[test]
fn test_unknown_kind_is_empty() {
    let bt = tree(
        node("P", NodeKind::Unknown("Parallel".to_string()), &[]),
        vec![node("P", NodeKind::Unknown("Parallel".to_string()), &[])],
    );
    let traces = get_traces(bt).unwrap().traces;
    assert_eq!(traces.len(), 0);
}

#[test]
fn test_cycle_is_fatal() {
    let bt = tree(
        node("S", NodeKind::Sequence, &["S"]),
        vec![node("S", NodeKind::Sequence, &["S"])],
    );
    let err = get_traces(bt).unwrap_err();
    assert_eq!(err, TraceError::CycleDetected);
}

#[test]
fn test_shared_child_by_name() {
    let bt = tree(
        node("S", NodeKind::Sequence, &["A", "A"]),
        vec![node("S", NodeKind::Sequence, &["A", "A"]), node("A", NodeKind::Action, &[])],
    );
    let traces = get_traces(bt).unwrap().traces;
    assert_eq!(traces.len(), 5);
    assert_eq!(
        traces[4],
        expect(vec![pair("A", Outcome::Success), pair("A", Outcome::Success)], Outcome::Success)
    );
}

#[test]
fn test_decorator_set_is_child_set_plus_one() {
    // The child is a sequence of two leaves, so its own set has 5 traces;
    // the guard adds exactly one, a single-pair Failure trace, at the end.
    let bt = tree(
        node("D", NodeKind::Decorator, &["S"]),
        vec![
            node("D", NodeKind::Decorator, &["S"]),
            node("S", NodeKind::Sequence, &["A1", "A2"]),
            node("A1", NodeKind::Action, &[]),
            node("A2", NodeKind::Action, &[]),
        ],
    );
    let traces = get_traces(bt).unwrap().traces;
    assert_eq!(traces.len(), 6);
    let singleton_failures = traces
        .iter()
        .filter(|t| t.trace.len() == 1 && t.result == Outcome::Failure)
        .count();
    assert_eq!(singleton_failures, 1);
    assert_eq!(traces[5], expect(vec![pair("D", Outcome::Failure)], Outcome::Failure));
}

#[test]
fn test_sequence_of_three_leaves_counts() {
    let bt = tree(
        node("S", NodeKind::Sequence, &["A1", "A2", "A3"]),
        vec![
            node("S", NodeKind::Sequence, &["A1", "A2", "A3"]),
            node("A1", NodeKind::Action, &[]),
            node("A2", NodeKind::Action, &[]),
            node("A3", NodeKind::Action, &[]),
        ],
    );
    let traces = get_traces(bt).unwrap().traces;
    assert_eq!(traces.len(), 7);
    // Two early-termination traces per position, one step longer than the
    // number of children before that position.
    for pos in 0..3usize {
        assert_eq!(traces[2 * pos].result, Outcome::Failure);
        assert_eq!(traces[2 * pos].trace.len(), pos + 1);
        assert_eq!(traces[2 * pos + 1].result, Outcome::Running);
        assert_eq!(traces[2 * pos + 1].trace.len(), pos + 1);
    }
    // One full-success trace, last, one step per child.
    assert_eq!(traces[6].result, Outcome::Success);
    assert_eq!(traces[6].trace.len(), 3);
}

#[test]
fn test_enumeration_is_idempotent() {
    let build = || {
        tree(
            node("S", NodeKind::Sequence, &["A1", "A2"]),
            vec![
                node("S", NodeKind::Sequence, &["A1", "A2"]),
                node("A1", NodeKind::Action, &[]),
                node("A2", NodeKind::Action, &[]),
            ],
        )
    };
    let first = get_traces(build()).unwrap();
    let second = get_traces(build()).unwrap();
    assert_eq!(first, second);
}

#[test]
fn test_nested_condition_in_sequence() {
    // Sequence of a guarded action and a plain action.
    let bt = tree(
        node("S", NodeKind::Sequence, &["C", "B"]),
        vec![
            node("S", NodeKind::Sequence, &["C", "B"]),
            node("C", NodeKind::Condition, &["A"]),
            node("A", NodeKind::Action, &[]),
            node("B", NodeKind::Action, &[]),
        ],
    );
    let traces = get_traces(bt).unwrap().traces;
    // C's set: 4 traces, 1 success. Early at C: 3 non-success traces;
    // early at B: 1 success-prefix x 2; full success: 1. Total 6.
    assert_eq!(traces.len(), 6);
    assert_eq!(
        traces[5],
        expect(
            vec![
                pair("C", Outcome::Success),
                pair("A", Outcome::Success),
                pair("B", Outcome::Success)
            ],
            Outcome::Success
        )
    );
}
