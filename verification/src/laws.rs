//! Proved laws of the enumeration model: the shape of leaf and guard trace
//! sets, the counting law for sequences of leaves, and determinism of the
//! whole enumeration.

use vstd::prelude::*;

use crate::model::NodeKindView;
use crate::model::NodeView;
use crate::model::Outcome;
use crate::model::TraceErrorView;
use crate::semantics::TraceView;
use crate::semantics::appended_traces;
use crate::semantics::guard_traces;
use crate::semantics::child_trace_sets;
use crate::semantics::cut_all;
use crate::semantics::cut_one;
use crate::semantics::early_traces;
use crate::semantics::extend_all;
use crate::semantics::extend_one;
use crate::semantics::full_success_traces;
use crate::semantics::leaf_traces;
use crate::semantics::node_traces;
use crate::semantics::resolve_children;
use crate::semantics::sequence_traces;
use crate::semantics::success_paths;
use crate::semantics::tree_traces;

verus! {

/// A leaf's trace set holds exactly three traces, one per outcome value,
/// each a single-pair path carrying that outcome as its result.
pub proof fn lemma_leaf_trace_set(table: Seq<NodeView>, node: NodeView, fuel: nat, ts: Seq<
    TraceView,
>)
    requires
        fuel > 0,
        node.kind is Action,
        node_traces(table, node, fuel) == Ok::<Seq<TraceView>, TraceErrorView>(ts),
    ensures
        ts.len() == 3,
        ts[0] == (TraceView {
            steps: seq![(node.name, Outcome::Success)],
            result: Outcome::Success,
        }),
        ts[1] == (TraceView {
            steps: seq![(node.name, Outcome::Failure)],
            result: Outcome::Failure,
        }),
        ts[2] == (TraceView {
            steps: seq![(node.name, Outcome::Running)],
            result: Outcome::Running,
        }),
{
    assert(ts == leaf_traces(node.name));
}

/// Every element of `cut_one(prefix, ts)` is an early-termination trace: its
/// result is not `Success`, and if every non-success trace of `ts` records a
/// step, it records a step too.
proof fn lemma_cut_one_elems(prefix: Seq<(Seq<char>, Outcome)>, ts: Seq<TraceView>)
    requires
        forall|k: int|
            0 <= k < ts.len() && !(ts[k].result is Success) ==> ts[k].steps.len() >= 1,
    ensures
        forall|k: int|
            0 <= k < cut_one(prefix, ts).len() ==> !(cut_one(prefix, ts)[k].result is Success)
                && cut_one(prefix, ts)[k].steps.len() >= 1,
    decreases ts.len(),
{
    if ts.len() > 0 {
        lemma_cut_one_elems(prefix, ts.drop_last());
        assert(forall|k: int|
            0 <= k < ts.drop_last().len() && !(ts.drop_last()[k].result is Success)
                ==> ts.drop_last()[k].steps.len() >= 1);
    }
}

/// Every element of `cut_all(prefixes, ts)` is an early-termination trace.
proof fn lemma_cut_all_elems(prefixes: Seq<Seq<(Seq<char>, Outcome)>>, ts: Seq<TraceView>)
    requires
        forall|k: int|
            0 <= k < ts.len() && !(ts[k].result is Success) ==> ts[k].steps.len() >= 1,
    ensures
        forall|k: int|
            0 <= k < cut_all(prefixes, ts).len() ==> !(cut_all(prefixes, ts)[k].result is Success)
                && cut_all(prefixes, ts)[k].steps.len() >= 1,
    decreases prefixes.len(),
{
    if prefixes.len() > 0 {
        lemma_cut_all_elems(prefixes.drop_last(), ts);
        lemma_cut_one_elems(prefixes.last(), ts);
    }
}

/// A list of child trace sets pairs each child with its own enumeration.
proof fn lemma_child_trace_sets_elems(
    table: Seq<NodeView>,
    nodes: Seq<NodeView>,
    fuel: nat,
    sets: Seq<Seq<TraceView>>,
)
    requires
        child_trace_sets(table, nodes, fuel) == Ok::<Seq<Seq<TraceView>>, TraceErrorView>(sets),
    ensures
        sets.len() == nodes.len(),
        forall|si: int|
            0 <= si < nodes.len() ==> node_traces(table, nodes[si], fuel) == Ok::<
                Seq<TraceView>,
                TraceErrorView,
            >(sets[si]),
    decreases nodes.len(),
{
    if nodes.len() > 0 {
        let rest = child_trace_sets(table, nodes.drop_last(), fuel)->Ok_0;
        lemma_child_trace_sets_elems(table, nodes.drop_last(), fuel, rest);
        assert(forall|si: int|
            0 <= si < nodes.len() - 1 ==> nodes.drop_last()[si] == nodes[si] && sets[si]
                == rest[si]);
    }
}

/// Every element of `early_traces(sets)` is an early-termination trace,
/// provided every non-success trace of each child's set records a step.
proof fn lemma_early_traces_elems(sets: Seq<Seq<TraceView>>)
    requires
        forall|si: int, k: int|
            0 <= si < sets.len() && 0 <= k < sets[si].len() && !(sets[si][k].result is Success)
                ==> sets[si][k].steps.len() >= 1,
    ensures
        forall|k: int|
            0 <= k < early_traces(sets).len() ==> !(early_traces(sets)[k].result is Success)
                && early_traces(sets)[k].steps.len() >= 1,
    decreases sets.len(),
{
    if sets.len() > 0 {
        assert(forall|si: int, k: int|
            0 <= si < sets.drop_last().len() && 0 <= k < sets.drop_last()[si].len() && !(
            sets.drop_last()[si][k].result is Success) ==> sets.drop_last()[si][k].steps.len()
                >= 1);
        lemma_early_traces_elems(sets.drop_last());
        assert(forall|k: int|
            0 <= k < sets.last().len() && !(sets.last()[k].result is Success)
                ==> sets.last()[k].steps.len() >= 1);
        lemma_cut_all_elems(success_paths(sets.drop_last()), sets.last());
    }
}

/// In any node's trace set, a trace whose result is not `Success` records at
/// least one step: early termination is always observable in the path.
pub proof fn lemma_nonsuccess_traces_record_a_step(
    table: Seq<NodeView>,
    node: NodeView,
    fuel: nat,
    ts: Seq<TraceView>,
)
    requires
        node_traces(table, node, fuel) == Ok::<Seq<TraceView>, TraceErrorView>(ts),
    ensures
        forall|k: int|
            0 <= k < ts.len() && !(ts[k].result is Success) ==> ts[k].steps.len() >= 1,
    decreases fuel,
{
    match node.kind {
        NodeKindView::Action => {
        },
        NodeKindView::Condition | NodeKindView::Decorator => {
            if fuel > 0 {
                let kids_r = resolve_children(table, node.children);
                if kids_r is Ok && kids_r->Ok_0.len() > 0 {
                    let child_r = node_traces(table, kids_r->Ok_0[0], (fuel - 1) as nat);
                    if child_r is Ok {
                        let cts = child_r->Ok_0;
                        assert(ts == guard_traces(node.name, cts));
                        assert(forall|k: int|
                            0 <= k < cts.len() ==> ts[k] == appended_traces(
                                TraceView {
                                    steps: seq![(node.name, Outcome::Success)],
                                    result: Outcome::Success,
                                },
                                cts,
                            )[k] && ts[k].steps.len() >= 1);
                    }
                }
            }
        },
        NodeKindView::Sequence => {
            let kids = resolve_children(table, node.children)->Ok_0;
            let sets = child_trace_sets(table, kids, (fuel - 1) as nat)->Ok_0;
            lemma_child_trace_sets_elems(table, kids, (fuel - 1) as nat, sets);
            assert forall|si: int, k: int|
                0 <= si < sets.len() && 0 <= k < sets[si].len() && !(sets[si][k].result
                    is Success) implies sets[si][k].steps.len() >= 1 by {
                lemma_nonsuccess_traces_record_a_step(
                    table,
                    kids[si],
                    (fuel - 1) as nat,
                    sets[si],
                );
            }
            lemma_early_traces_elems(sets);
            assert(ts == sequence_traces(sets));
        },
        NodeKindView::Unknown(_) => {
        },
    }
}

/// A guard node with a present child has a trace set exactly one larger
/// than its child's, and exactly one of its traces is a single-pair path
/// with outcome `Failure`: the guard failing outright, standing last.
pub proof fn lemma_guard_trace_set(
    table: Seq<NodeView>,
    node: NodeView,
    fuel: nat,
    kids: Seq<NodeView>,
    cts: Seq<TraceView>,
    ts: Seq<TraceView>,
)
    requires
        fuel > 0,
        node.kind is Condition || node.kind is Decorator,
        resolve_children(table, node.children) == Ok::<Seq<NodeView>, TraceErrorView>(kids),
        kids.len() > 0,
        node_traces(table, kids[0], (fuel - 1) as nat) == Ok::<Seq<TraceView>, TraceErrorView>(
            cts,
        ),
        node_traces(table, node, fuel) == Ok::<Seq<TraceView>, TraceErrorView>(ts),
    ensures
        ts.len() == cts.len() + 1,
        ts.last() == (TraceView {
            steps: seq![(node.name, Outcome::Failure)],
            result: Outcome::Failure,
        }),
        forall|k: int|
            0 <= k < ts.len() - 1 ==> !(ts[k].steps.len() == 1 && ts[k].result is Failure),
        forall|k: int|
            0 <= k < cts.len() ==> ts[k] == (TraceView {
                steps: seq![(node.name, Outcome::Success)] + cts[k].steps,
                result: cts[k].result,
            }),
{
    assert(ts == guard_traces(node.name, cts));
    lemma_nonsuccess_traces_record_a_step(table, kids[0], (fuel - 1) as nat, cts);
    assert forall|k: int| 0 <= k < ts.len() - 1 implies !(ts[k].steps.len() == 1 && ts[k].result
        is Failure) by {
        assert(ts[k] == appended_traces(
            TraceView { steps: seq![(node.name, Outcome::Success)], result: Outcome::Success },
            cts,
        )[k]);
        assert(ts[k].steps.len() == 1 + cts[k].steps.len());
        if ts[k].steps.len() == 1 {
            assert(cts[k].steps.len() == 0);
            assert(cts[k].result is Success);
        }
    }
}

/// A leaf's only success trace extends a prefix in exactly one way.
proof fn lemma_extend_one_leaf(prefix: Seq<(Seq<char>, Outcome)>, name: Seq<char>)
    ensures
        extend_one(prefix, leaf_traces(name)) == seq![
            prefix + seq![(name, Outcome::Success)],
        ],
{
    let ts = leaf_traces(name);
    let s1 = seq![ts[0]];
    let s2 = seq![ts[0], ts[1]];
    assert(s1.drop_last() =~= Seq::<TraceView>::empty());
    assert(extend_one(prefix, s1.drop_last()) == Seq::<Seq<(Seq<char>, Outcome)>>::empty());
    assert(extend_one(prefix, s1) =~= seq![prefix + ts[0].steps]);
    assert(s2.drop_last() =~= s1);
    assert(extend_one(prefix, s2) =~= seq![prefix + ts[0].steps]);
    assert(ts.drop_last() =~= s2);
    assert(extend_one(prefix, ts) =~= seq![prefix + seq![(name, Outcome::Success)]]);
}

/// A leaf cuts a prefix short in exactly two ways: failing and running.
proof fn lemma_cut_one_leaf(prefix: Seq<(Seq<char>, Outcome)>, name: Seq<char>)
    ensures
        cut_one(prefix, leaf_traces(name)) == seq![
            TraceView {
                steps: prefix + seq![(name, Outcome::Failure)],
                result: Outcome::Failure,
            },
            TraceView {
                steps: prefix + seq![(name, Outcome::Running)],
                result: Outcome::Running,
            },
        ],
{
    let ts = leaf_traces(name);
    let s1 = seq![ts[0]];
    let s2 = seq![ts[0], ts[1]];
    let fail = TraceView {
        steps: prefix + seq![(name, Outcome::Failure)],
        result: Outcome::Failure,
    };
    let running = TraceView {
        steps: prefix + seq![(name, Outcome::Running)],
        result: Outcome::Running,
    };
    assert(s1.drop_last() =~= Seq::<TraceView>::empty());
    assert(cut_one(prefix, s1.drop_last()) == Seq::<TraceView>::empty());
    assert(cut_one(prefix, s1) =~= Seq::<TraceView>::empty());
    assert(s2.drop_last() =~= s1);
    assert(cut_one(prefix, s2) =~= seq![fail]);
    assert(ts.drop_last() =~= s2);
    assert(cut_one(prefix, ts) =~= seq![fail, running]);
}

/// For trace sets that all came from leaves: one success-path of one step
/// per child, and per position exactly one failing and one running
/// early-termination trace, each one step longer than its position.
proof fn lemma_leaf_sets_shape(sets: Seq<Seq<TraceView>>, names: Seq<Seq<char>>)
    requires
        sets.len() == names.len(),
        forall|si: int| 0 <= si < sets.len() ==> sets[si] == leaf_traces(names[si]),
    ensures
        success_paths(sets).len() == 1,
        success_paths(sets)[0].len() == sets.len(),
        early_traces(sets).len() == 2 * sets.len(),
        forall|k: int|
            0 <= k < early_traces(sets).len() ==> (#[trigger] early_traces(sets)[k]).steps.len()
                == k / 2 + 1 && (early_traces(sets)[k].result is Failure <==> k % 2 == 0) && (
            early_traces(sets)[k].result is Running <==> k % 2 == 1),
    decreases sets.len(),
{
    if sets.len() == 0 {
        assert(success_paths(sets) == seq![Seq::<(Seq<char>, Outcome)>::empty()]);
    } else {
        let front = sets.drop_last();
        lemma_leaf_sets_shape(front, names.drop_last());
        let sp = success_paths(front);
        let prefix = sp[0];
        assert(sp.drop_last() =~= Seq::<Seq<(Seq<char>, Outcome)>>::empty());
        assert(sp.last() == prefix);
        assert(sets.last() == leaf_traces(names.last()));
        lemma_extend_one_leaf(prefix, names.last());
        assert(extend_all(sp.drop_last(), sets.last()) == Seq::<Seq<(Seq<char>, Outcome)>>::empty());
        assert(cut_all(sp.drop_last(), sets.last()) == Seq::<TraceView>::empty());
        assert(extend_all(sp, sets.last()) =~= seq![
            prefix + seq![(names.last(), Outcome::Success)],
        ]);
        assert(success_paths(sets)[0].len() == sets.len());
        lemma_cut_one_leaf(prefix, names.last());
        assert(cut_all(sp, sets.last()) =~= seq![
            TraceView {
                steps: prefix + seq![(names.last(), Outcome::Failure)],
                result: Outcome::Failure,
            },
            TraceView {
                steps: prefix + seq![(names.last(), Outcome::Running)],
                result: Outcome::Running,
            },
        ]);
        assert(early_traces(sets) == early_traces(front) + cut_all(sp, sets.last()));
        assert forall|k: int| 0 <= k < early_traces(sets).len() implies (#[trigger] early_traces(
            sets,
        )[k]).steps.len() == k / 2 + 1 && (early_traces(sets)[k].result is Failure <==> k % 2
            == 0) && (early_traces(sets)[k].result is Running <==> k % 2 == 1) by {
            if k < 2 * front.len() {
                assert(early_traces(sets)[k] == early_traces(front)[k]);
            } else if k == 2 * front.len() {
                assert(early_traces(sets)[k] == cut_all(sp, sets.last())[0]);
                assert(k / 2 == front.len() && k % 2 == 0);
            } else {
                assert(early_traces(sets)[k] == cut_all(sp, sets.last())[1]);
                assert(k / 2 == front.len() && k % 2 == 1);
            }
        }
    }
}

/// For a sequence whose children are all leaves: the trace set holds twice
/// the number of children plus one traces; the full-success family is the
/// single last trace, with result `Success` and one step per child; and
/// each position contributes exactly two early-termination traces — one
/// `Failure`, one `Running` — whose paths are one step longer than the
/// number of children before that position.
pub proof fn lemma_sequence_of_leaves(
    table: Seq<NodeView>,
    node: NodeView,
    fuel: nat,
    kids: Seq<NodeView>,
    ts: Seq<TraceView>,
)
    requires
        fuel >= 2,
        node.kind is Sequence,
        resolve_children(table, node.children) == Ok::<Seq<NodeView>, TraceErrorView>(kids),
        forall|si: int| 0 <= si < kids.len() ==> kids[si].kind is Action,
        node_traces(table, node, fuel) == Ok::<Seq<TraceView>, TraceErrorView>(ts),
    ensures
        ts.len() == 2 * kids.len() + 1,
        ts.last().result is Success,
        ts.last().steps.len() == kids.len(),
        forall|k: int|
            0 <= k < ts.len() - 1 ==> (#[trigger] ts[k]).steps.len() == k / 2 + 1 && (
            ts[k].result is Failure <==> k % 2 == 0) && (ts[k].result is Running <==> k % 2 == 1),
{
    let sets = child_trace_sets(table, kids, (fuel - 1) as nat)->Ok_0;
    lemma_child_trace_sets_elems(table, kids, (fuel - 1) as nat, sets);
    let names = Seq::new(kids.len(), |si: int| kids[si].name);
    assert forall|si: int| 0 <= si < sets.len() implies sets[si] == leaf_traces(names[si]) by {
        assert(node_traces(table, kids[si], (fuel - 1) as nat) == Ok::<
            Seq<TraceView>,
            TraceErrorView,
        >(sets[si]));
    }
    lemma_leaf_sets_shape(sets, names);
    assert(ts == sequence_traces(sets));
    assert(ts.len() == 2 * kids.len() + 1);
    assert(ts.last() == full_success_traces(success_paths(sets))[0]);
    assert forall|k: int| 0 <= k < ts.len() - 1 implies (#[trigger] ts[k]).steps.len() == k / 2
        + 1 && (ts[k].result is Failure <==> k % 2 == 0) && (ts[k].result is Running <==> k % 2
        == 1) by {
        assert(ts[k] == early_traces(sets)[k]);
    }
}

/// Enumeration is deterministic: two enumerations of the same tree, in
/// whichever order they are made, yield trace sets carrying the same
/// multiset of traces.
pub proof fn lemma_enumeration_idempotent(
    table: Seq<NodeView>,
    root: NodeView,
    r1: Seq<TraceView>,
    r2: Seq<TraceView>,
)
    requires
        tree_traces(table, root) == Ok::<Seq<TraceView>, TraceErrorView>(r1),
        tree_traces(table, root) == Ok::<Seq<TraceView>, TraceErrorView>(r2),
    ensures
        r1.to_multiset() == r2.to_multiset(),
{
    assert(r1 == r2);
}

} // verus!
