//! The mathematical model of trace enumeration: what the complete trace set
//! of every node is, as a function of the node table.
//!
//! A trace records one possible execution path: the ordered `(name, outcome)`
//! pairs observed along the path, plus the terminal outcome of the whole
//! evaluation the path represents. Enumeration is depth-bounded: a recursion
//! budget of one more than the table size admits every acyclic tree, and its
//! exhaustion can only arise from a cycle among the name references.

use vstd::prelude::*;

use crate::model::NodeKindView;
use crate::model::NodeView;
use crate::model::Outcome;
use crate::model::TraceErrorView;
use crate::model::lookup;

verus! {

/// Mathematical model of one trace: the path taken and its terminal outcome.
#[verifier::ext_equal]
pub struct TraceView {
    pub steps: Seq<(Seq<char>, Outcome)>,
    pub result: Outcome,
}

/// The trace set of a leaf: one single-pair trace per possible outcome.
pub open spec fn leaf_traces(name: Seq<char>) -> Seq<TraceView> {
    seq![
        TraceView { steps: seq![(name, Outcome::Success)], result: Outcome::Success },
        TraceView { steps: seq![(name, Outcome::Failure)], result: Outcome::Failure },
        TraceView { steps: seq![(name, Outcome::Running)], result: Outcome::Running },
    ]
}

/// Every trace of `ts`, prefixed by the steps of `head`; each keeps its own
/// result, and `head`'s result is discarded.
pub open spec fn appended_traces(head: TraceView, ts: Seq<TraceView>) -> Seq<TraceView> {
    ts.map_values(
        |t: TraceView| TraceView { steps: head.steps + t.steps, result: t.result },
    )
}

/// The trace set of a decorator or condition guarding a child with trace
/// set `child`: the child's traces behind the guard's success marker, then
/// the one trace of the guard failing outright.
pub open spec fn guard_traces(name: Seq<char>, child: Seq<TraceView>) -> Seq<TraceView> {
    appended_traces(
        TraceView { steps: seq![(name, Outcome::Success)], result: Outcome::Success },
        child,
    ).push(TraceView { steps: seq![(name, Outcome::Failure)], result: Outcome::Failure })
}

/// The paths obtained by extending one success-prefix with each success
/// trace of `ts`, in the order of `ts`.
pub open spec fn extend_one(prefix: Seq<(Seq<char>, Outcome)>, ts: Seq<TraceView>) -> Seq<
    Seq<(Seq<char>, Outcome)>,
>
    decreases ts.len(),
{
    if ts.len() == 0 {
        Seq::empty()
    } else {
        extend_one(prefix, ts.drop_last()) + if ts.last().result is Success {
            seq![prefix + ts.last().steps]
        } else {
            Seq::empty()
        }
    }
}

/// The paths obtained by extending every prefix of `prefixes` with every
/// success trace of `ts`: prefixes outermost, traces innermost.
pub open spec fn extend_all(
    prefixes: Seq<Seq<(Seq<char>, Outcome)>>,
    ts: Seq<TraceView>,
) -> Seq<Seq<(Seq<char>, Outcome)>>
    decreases prefixes.len(),
{
    if prefixes.len() == 0 {
        Seq::empty()
    } else {
        extend_all(prefixes.drop_last(), ts) + extend_one(prefixes.last(), ts)
    }
}

/// The early-termination traces contributed by one child with trace set
/// `ts`, behind one success-prefix: one derived trace per non-success trace
/// of the child, adopting the child trace's result.
pub open spec fn cut_one(prefix: Seq<(Seq<char>, Outcome)>, ts: Seq<TraceView>) -> Seq<TraceView>
    decreases ts.len(),
{
    if ts.len() == 0 {
        Seq::empty()
    } else {
        cut_one(prefix, ts.drop_last()) + if ts.last().result is Success {
            Seq::empty()
        } else {
            seq![TraceView { steps: prefix + ts.last().steps, result: ts.last().result }]
        }
    }
}

/// The early-termination traces of one child behind every success-prefix of
/// `prefixes`: prefixes outermost, the child's non-success traces innermost.
pub open spec fn cut_all(
    prefixes: Seq<Seq<(Seq<char>, Outcome)>>,
    ts: Seq<TraceView>,
) -> Seq<TraceView>
    decreases prefixes.len(),
{
    if prefixes.len() == 0 {
        Seq::empty()
    } else {
        cut_all(prefixes.drop_last(), ts) + cut_one(prefixes.last(), ts)
    }
}

/// The Cartesian product of the children's success traces: every way of
/// concatenating, in order, one success trace from each child's set. With no
/// children it is the single empty path.
pub open spec fn success_paths(sets: Seq<Seq<TraceView>>) -> Seq<Seq<(Seq<char>, Outcome)>>
    decreases sets.len(),
{
    if sets.len() == 0 {
        seq![Seq::<(Seq<char>, Outcome)>::empty()]
    } else {
        extend_all(success_paths(sets.drop_last()), sets.last())
    }
}

/// All early-termination traces of a sequence of children with trace sets
/// `sets`: for each position, each success-prefix over the earlier children
/// followed by one non-success trace of the child at that position.
pub open spec fn early_traces(sets: Seq<Seq<TraceView>>) -> Seq<TraceView>
    decreases sets.len(),
{
    if sets.len() == 0 {
        Seq::empty()
    } else {
        early_traces(sets.drop_last()) + cut_all(success_paths(sets.drop_last()), sets.last())
    }
}

/// A full-success trace: a path of nothing but successes, with result
/// `Success`.
pub open spec fn success_trace_of(path: Seq<(Seq<char>, Outcome)>) -> TraceView {
    TraceView { steps: path, result: Outcome::Success }
}

/// The full-success family: one trace per success-path, in order.
pub open spec fn full_success_traces(paths: Seq<Seq<(Seq<char>, Outcome)>>) -> Seq<TraceView> {
    paths.map_values(|p: Seq<(Seq<char>, Outcome)>| success_trace_of(p))
}

/// The trace set of a sequence whose children have trace sets `sets`: the
/// early-termination families in position order, then the full-success
/// family, each full-success path carrying result `Success`.
pub open spec fn sequence_traces(sets: Seq<Seq<TraceView>>) -> Seq<TraceView> {
    early_traces(sets) + full_success_traces(success_paths(sets))
}

/// The nodes a list of child names denotes, left to right; the first name
/// absent from the table is a fatal error.
pub open spec fn resolve_children(table: Seq<NodeView>, names: Seq<Seq<char>>) -> Result<
    Seq<NodeView>,
    TraceErrorView,
>
    decreases names.len(),
{
    if names.len() == 0 {
        Ok(Seq::empty())
    } else {
        match resolve_children(table, names.drop_last()) {
            Err(e) => Err(e),
            Ok(rest) => match lookup(table, names.last()) {
                None => Err(TraceErrorView::MissingChild(names.last())),
                Some(node) => Ok(rest.push(node)),
            },
        }
    }
}

/// The trace sets of a list of resolved children, left to right, each child
/// enumerated with the same recursion budget; the first failing child's
/// error is the whole list's error.
pub open spec fn child_trace_sets(table: Seq<NodeView>, nodes: Seq<NodeView>, fuel: nat) -> Result<
    Seq<Seq<TraceView>>,
    TraceErrorView,
>
    decreases fuel, 1nat, nodes.len(),
{
    if nodes.len() == 0 {
        Ok(Seq::empty())
    } else {
        match child_trace_sets(table, nodes.drop_last(), fuel) {
            Err(e) => Err(e),
            Ok(rest) => match node_traces(table, nodes.last(), fuel) {
                Err(e) => Err(e),
                Ok(ts) => Ok(rest.push(ts)),
            },
        }
    }
}

/// The complete trace set reachable from `node`, or the fatal error that
/// makes it undefined. `fuel` bounds the recursion depth; a budget of one
/// more than the table size admits every acyclic tree.
///
/// Leaves yield `leaf_traces`; conditions and decorators gate their single
/// child via `guard_traces`, and contribute nothing when they list no child;
/// sequences combine their children via `sequence_traces`; an unknown kind
/// contributes nothing. A listed child name absent from the table is fatal.
pub open spec fn node_traces(table: Seq<NodeView>, node: NodeView, fuel: nat) -> Result<
    Seq<TraceView>,
    TraceErrorView,
>
    decreases fuel, 0nat, 0nat,
{
    if fuel == 0 {
        Err(TraceErrorView::CycleDetected)
    } else {
        match node.kind {
            NodeKindView::Action => Ok(leaf_traces(node.name)),
            NodeKindView::Condition | NodeKindView::Decorator => match resolve_children(
                table,
                node.children,
            ) {
                Err(e) => Err(e),
                Ok(kids) => if kids.len() == 0 {
                    Ok(Seq::empty())
                } else {
                    match node_traces(table, kids[0], (fuel - 1) as nat) {
                        Err(e) => Err(e),
                        Ok(ts) => Ok(guard_traces(node.name, ts)),
                    }
                },
            },
            NodeKindView::Sequence => match resolve_children(table, node.children) {
                Err(e) => Err(e),
                Ok(kids) => match child_trace_sets(table, kids, (fuel - 1) as nat) {
                    Err(e) => Err(e),
                    Ok(sets) => Ok(sequence_traces(sets)),
                },
            },
            NodeKindView::Unknown(_) => Ok(Seq::empty()),
        }
    }
}

/// Resolving one more name extends a resolved prefix by the node it denotes.
pub proof fn lemma_resolve_children_step_ok(
    table: Seq<NodeView>,
    names: Seq<Seq<char>>,
    j: int,
    rest: Seq<NodeView>,
    node: NodeView,
)
    requires
        0 <= j < names.len(),
        resolve_children(table, names.take(j)) == Ok::<Seq<NodeView>, TraceErrorView>(rest),
        lookup(table, names[j]) == Some(node),
    ensures
        resolve_children(table, names.take(j + 1)) == Ok::<Seq<NodeView>, TraceErrorView>(
            rest.push(node),
        ),
{
    assert(names.take(j + 1).drop_last() =~= names.take(j));
    assert(names.take(j + 1).last() == names[j]);
}

/// A name absent from the table makes the resolved prefix end in its error.
pub proof fn lemma_resolve_children_step_err(
    table: Seq<NodeView>,
    names: Seq<Seq<char>>,
    j: int,
    rest: Seq<NodeView>,
)
    requires
        0 <= j < names.len(),
        resolve_children(table, names.take(j)) == Ok::<Seq<NodeView>, TraceErrorView>(rest),
        lookup(table, names[j]) is None,
    ensures
        resolve_children(table, names.take(j + 1)) == Err::<Seq<NodeView>, TraceErrorView>(
            TraceErrorView::MissingChild(names[j]),
        ),
{
    assert(names.take(j + 1).drop_last() =~= names.take(j));
    assert(names.take(j + 1).last() == names[j]);
}

/// An error while resolving a prefix of the names is the error of the whole
/// list.
pub proof fn lemma_resolve_children_err_persists(
    table: Seq<NodeView>,
    names: Seq<Seq<char>>,
    j: int,
    e: TraceErrorView,
)
    requires
        0 <= j <= names.len(),
        resolve_children(table, names.take(j)) == Err::<Seq<NodeView>, TraceErrorView>(e),
    ensures
        resolve_children(table, names) == Err::<Seq<NodeView>, TraceErrorView>(e),
    decreases names.len() - j,
{
    if j == names.len() {
        assert(names.take(j) =~= names);
    } else {
        assert(names.take(j + 1).drop_last() =~= names.take(j));
        assert(resolve_children(table, names.take(j + 1)) == Err::<
            Seq<NodeView>,
            TraceErrorView,
        >(e));
        lemma_resolve_children_err_persists(table, names, j + 1, e);
    }
}

/// Enumerating one more child extends the list of trace sets by the child's.
pub proof fn lemma_child_trace_sets_step_ok(
    table: Seq<NodeView>,
    nodes: Seq<NodeView>,
    fuel: nat,
    j: int,
    rest: Seq<Seq<TraceView>>,
    ts: Seq<TraceView>,
)
    requires
        0 <= j < nodes.len(),
        child_trace_sets(table, nodes.take(j), fuel) == Ok::<Seq<Seq<TraceView>>, TraceErrorView>(
            rest,
        ),
        node_traces(table, nodes[j], fuel) == Ok::<Seq<TraceView>, TraceErrorView>(ts),
    ensures
        child_trace_sets(table, nodes.take(j + 1), fuel) == Ok::<
            Seq<Seq<TraceView>>,
            TraceErrorView,
        >(rest.push(ts)),
{
    assert(nodes.take(j + 1).drop_last() =~= nodes.take(j));
    assert(nodes.take(j + 1).last() == nodes[j]);
}

/// A child that fails to enumerate gives the list of trace sets its error.
pub proof fn lemma_child_trace_sets_step_err(
    table: Seq<NodeView>,
    nodes: Seq<NodeView>,
    fuel: nat,
    j: int,
    rest: Seq<Seq<TraceView>>,
    e: TraceErrorView,
)
    requires
        0 <= j < nodes.len(),
        child_trace_sets(table, nodes.take(j), fuel) == Ok::<Seq<Seq<TraceView>>, TraceErrorView>(
            rest,
        ),
        node_traces(table, nodes[j], fuel) == Err::<Seq<TraceView>, TraceErrorView>(e),
    ensures
        child_trace_sets(table, nodes.take(j + 1), fuel) == Err::<
            Seq<Seq<TraceView>>,
            TraceErrorView,
        >(e),
{
    assert(nodes.take(j + 1).drop_last() =~= nodes.take(j));
    assert(nodes.take(j + 1).last() == nodes[j]);
}

/// An error among the first children is the error of the whole list.
pub proof fn lemma_child_trace_sets_err_persists(
    table: Seq<NodeView>,
    nodes: Seq<NodeView>,
    fuel: nat,
    j: int,
    e: TraceErrorView,
)
    requires
        0 <= j <= nodes.len(),
        child_trace_sets(table, nodes.take(j), fuel) == Err::<
            Seq<Seq<TraceView>>,
            TraceErrorView,
        >(e),
    ensures
        child_trace_sets(table, nodes, fuel) == Err::<Seq<Seq<TraceView>>, TraceErrorView>(e),
    decreases nodes.len() - j,
{
    if j == nodes.len() {
        assert(nodes.take(j) =~= nodes);
    } else {
        assert(nodes.take(j + 1).drop_last() =~= nodes.take(j));
        assert(child_trace_sets(table, nodes.take(j + 1), fuel) == Err::<
            Seq<Seq<TraceView>>,
            TraceErrorView,
        >(e));
        lemma_child_trace_sets_err_persists(table, nodes, fuel, j + 1, e);
    }
}

/// The trace set of a whole behavior tree: its root enumerated with a
/// recursion budget of one more than the table size.
pub open spec fn tree_traces(table: Seq<NodeView>, root: NodeView) -> Result<
    Seq<TraceView>,
    TraceErrorView,
> {
    node_traces(table, root, table.len() + 1)
}

} // verus!
