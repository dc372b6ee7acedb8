use bt_traces::get_traces;
use bt_traces::outcome_text;
use bt_traces::render_trace;
use bt_traces::render_traces;
use bt_traces::BehaviorTree;
use bt_traces::NodeKind;
use bt_traces::NodeRef;
use bt_traces::Outcome;
use bt_traces::Trace;

fn node(name: &str, kind: NodeKind, children: &[&str]) -> NodeRef {
    NodeRef {
        name: name.to_string(),
        kind,
        children: children.iter().map(|c| c.to_string()).collect(),
    }
}

#[test]
fn test_outcome_names() {
    assert_eq!(outcome_text(&Outcome::Success), "Success");
    assert_eq!(outcome_text(&Outcome::Failure), "Failure");
    assert_eq!(outcome_text(&Outcome::Running), "Running");
}

#[test]
fn test_render_single_pair_trace() {
    let trace = Trace {
        trace: vec![("A".to_string(), Outcome::Success)],
        result: Outcome::Success,
    };
    assert_eq!(render_trace(&trace), "A(Success) => Result: Success");
}

#[test]
fn test_render_multi_pair_trace() {
    let trace = Trace {
        trace: vec![
            ("A1".to_string(), Outcome::Success),
            ("A2".to_string(), Outcome::Failure),
        ],
        result: Outcome::Failure,
    };
    assert_eq!(render_trace(&trace), "A1(Success) -> A2(Failure) => Result: Failure");
}

#[test]
fn test_render_empty_path_trace() {
    let trace = Trace { trace: vec![], result: Outcome::Success };
    assert_eq!(render_trace(&trace), " => Result: Success");
}

#[test]
fn test_render_report_banners() {
    let bt = BehaviorTree {
        root_node: node("A", NodeKind::Action, &[]),
        handles: vec![node("A", NodeKind::Action, &[])],
    };
    let traces = get_traces(bt).unwrap();
    let lines = render_traces(&traces);
    assert_eq!(lines.len(), 5);
    assert_eq!(lines[0], "--- Behavior Tree Traces ---");
    assert_eq!(lines[1], "A(Success) => Result: Success");
    assert_eq!(lines[2], "A(Failure) => Result: Failure");
    assert_eq!(lines[3], "A(Running) => Result: Running");
    assert_eq!(lines[4], "-----------------------------");
}
