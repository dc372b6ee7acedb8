//! The trace enumerator: walks a behavior tree and produces the complete
//! set of execution paths, with the terminal outcome of each.

use vstd::prelude::*;

use crate::model::BehaviorTree;
use crate::model::NodeKind;
use crate::model::NodeRef;
use crate::model::NodeView;
use crate::model::Outcome;
use crate::model::TraceError;
use crate::model::TraceErrorView;
use crate::model::find_node;
use crate::semantics::TraceView;
use crate::semantics::appended_traces;
use crate::semantics::child_trace_sets;
use crate::semantics::cut_all;
use crate::semantics::cut_one;
use crate::semantics::early_traces;
use crate::semantics::extend_all;
use crate::semantics::extend_one;
use crate::semantics::guard_traces;
use crate::semantics::leaf_traces;
use crate::semantics::lemma_child_trace_sets_err_persists;
use crate::semantics::lemma_child_trace_sets_step_err;
use crate::semantics::lemma_child_trace_sets_step_ok;
use crate::semantics::lemma_resolve_children_err_persists;
use crate::semantics::lemma_resolve_children_step_err;
use crate::semantics::lemma_resolve_children_step_ok;
use crate::semantics::full_success_traces;
use crate::semantics::node_traces;
use crate::semantics::resolve_children;
use crate::semantics::sequence_traces;
use crate::semantics::success_paths;
use crate::semantics::success_trace_of;
use crate::semantics::tree_traces;

verus! {

/// One enumerated execution path: the ordered `(node name, outcome)` pairs
/// observed along the path, and the terminal outcome of the evaluation the
/// path represents.
#[derive(Debug, PartialEq)]
pub struct Trace {
    pub trace: Vec<(String, Outcome)>,
    pub result: Outcome,
}

impl View for Trace {
    type V = TraceView;

    open spec fn view(&self) -> TraceView {
        TraceView { steps: self.trace.deep_view(), result: self.result }
    }
}

impl DeepView for Trace {
    type V = TraceView;

    open spec fn deep_view(&self) -> TraceView {
        self@
    }
}

impl Clone for Trace {
    fn clone(&self) -> (r: Self)
        ensures
            r@ == self@,
    {
        let r = Trace { trace: clone_steps(&self.trace), result: self.result };
        proof {
            assert(r@ =~= self@);
        }
        r
    }
}

/// A complete trace set: the unordered collection of all traces a node
/// admits. Duplicates are kept — two distinct evaluation branches may
/// legitimately produce the same observable path.
#[derive(Debug, PartialEq)]
pub struct Traces {
    pub traces: Vec<Trace>,
}

impl View for Traces {
    type V = Seq<TraceView>;

    open spec fn view(&self) -> Seq<TraceView> {
        self.traces.deep_view()
    }
}

impl Clone for Traces {
    fn clone(&self) -> (r: Self)
        ensures
            r@ == self@,
    {
        let mut traces: Vec<Trace> = Vec::new();
        let mut i: usize = 0;
        while i < self.traces.len()
            invariant
                i <= self.traces.len(),
                traces.deep_view() == self.traces.deep_view().take(i as int),
            decreases self.traces.len() - i,
        {
            let ghost pre = traces@;
            traces.push(self.traces[i].clone());
            proof {
                assert(pre.len() == Seq::new(pre.len(), |j: int| pre[j].deep_view()).len());
                assert(traces.deep_view() =~= self.traces.deep_view().take(i + 1 as int));
            }
            i = i + 1;
        }
        proof {
            assert(self.traces.deep_view().take(self.traces@.len() as int)
                =~= self.traces.deep_view());
        }
        Traces { traces }
    }
}

/// Clones a list of path steps, preserving its model exactly.
fn clone_steps(steps: &Vec<(String, Outcome)>) -> (r: Vec<(String, Outcome)>)
    ensures
        r.deep_view() == steps.deep_view(),
{
    let mut r: Vec<(String, Outcome)> = Vec::new();
    let mut i: usize = 0;
    while i < steps.len()
        invariant
            i <= steps.len(),
            r.deep_view() == steps.deep_view().take(i as int),
        decreases steps.len() - i,
    {
        let ghost pre = r@;
        r.push((steps[i].0.clone(), steps[i].1));
        proof {
            assert(pre.len() == Seq::new(pre.len(), |j: int| pre[j].deep_view()).len());
            assert(r.deep_view() =~= steps.deep_view().take(i + 1 as int));
        }
        i = i + 1;
    }
    proof {
        assert(steps.deep_view().take(steps@.len() as int) =~= steps.deep_view());
    }
    r
}

/// Concatenates two lists of path steps.
fn concat_steps(a: &Vec<(String, Outcome)>, b: &Vec<(String, Outcome)>) -> (r: Vec<
    (String, Outcome),
>)
    ensures
        r.deep_view() == a.deep_view() + b.deep_view(),
{
    let mut r = clone_steps(a);
    let mut i: usize = 0;
    while i < b.len()
        invariant
            i <= b.len(),
            r.deep_view() == a.deep_view() + b.deep_view().take(i as int),
        decreases b.len() - i,
    {
        let ghost pre = r@;
        let c = b[i].0.clone();
        let o = b[i].1;
        r.push((c, o));
        proof {
            assert(pre.len() == Seq::new(pre.len(), |j: int| pre[j].deep_view()).len());
            assert(a.deep_view().len() == a@.len());
            assert(b.deep_view().len() == b@.len());
            assert(pre.len() == a@.len() + i);
            let lhs = r.deep_view();
            let rhs = a.deep_view() + b.deep_view().take(i + 1 as int);
            assert(lhs.len() == rhs.len());
            assert forall|j: int| 0 <= j < lhs.len() implies lhs[j] == rhs[j] by {
                assert(lhs[j] == r@[j].deep_view());
                if j < pre.len() {
                    assert(r@[j] == pre[j]);
                    assert((a.deep_view() + b.deep_view().take(i as int))[j]
                        == pre[j].deep_view());
                } else {
                    assert(r@[j] == (c, o));
                    assert(rhs[j] == b.deep_view()[i as int]);
                }
            }
            assert(lhs =~= rhs);
        }
        i = i + 1;
    }
    proof {
        assert(a.deep_view() + b.deep_view().take(b@.len() as int) =~= a.deep_view()
            + b.deep_view());
    }
    r
}

/// Prefixes every trace of `traces2` with the steps of `trace1`; each
/// derived trace keeps the result of the trace of `traces2` it came from,
/// and `trace1`'s own result plays no part.
fn append_traces(trace1: Trace, traces2: Traces) -> (r: Vec<Trace>)
    ensures
        r.deep_view() == appended_traces(trace1@, traces2@),
{
    let mut res: Vec<Trace> = Vec::new();
    let mut i: usize = 0;
    while i < traces2.traces.len()
        invariant
            i <= traces2.traces.len(),
            res.deep_view() == appended_traces(trace1@, traces2@.take(i as int)),
        decreases traces2.traces.len() - i,
    {
        let ghost pre = res@;
        let combined = concat_steps(&trace1.trace, &traces2.traces[i].trace);
        let ghost combined_dv = combined.deep_view();
        let result = traces2.traces[i].result;
        res.push(Trace { trace: combined, result });
        proof {
            assert(pre.len() == Seq::new(pre.len(), |j: int| pre[j].deep_view()).len());
            assert(pre.len() == i);
            assert(traces2@.len() == traces2.traces@.len());
            let lhs = res.deep_view();
            let rhs = appended_traces(trace1@, traces2@.take(i + 1 as int));
            assert(lhs.len() == rhs.len());
            assert forall|j: int| 0 <= j < lhs.len() implies lhs[j] == rhs[j] by {
                assert(lhs[j] == res@[j].deep_view());
                if j < pre.len() {
                    assert(res@[j] == pre[j]);
                    assert(appended_traces(trace1@, traces2@.take(i as int))[j]
                        == pre[j].deep_view());
                    assert(rhs[j] == TraceView {
                        steps: trace1@.steps + traces2@[j].steps,
                        result: traces2@[j].result,
                    });
                    assert(appended_traces(trace1@, traces2@.take(i as int))[j] == TraceView {
                        steps: trace1@.steps + traces2@[j].steps,
                        result: traces2@[j].result,
                    });
                } else {
                    assert(res@[j].deep_view() == TraceView { steps: combined_dv, result });
                    assert(rhs[j] == TraceView {
                        steps: trace1@.steps + traces2@[i as int].steps,
                        result: traces2@[i as int].result,
                    });
                    assert(traces2@[i as int].steps == traces2.traces@[i as int].trace.deep_view());
                    assert(combined_dv == trace1@.steps + traces2@[i as int].steps);
                }
            }
            assert(lhs =~= rhs);
        }
        i = i + 1;
    }
    proof {
        assert(traces2@.take(traces2.traces@.len() as int) =~= traces2@);
        assert(appended_traces(trace1@, traces2@.take(traces2.traces@.len() as int))
            =~= appended_traces(trace1@, traces2@));
    }
    res
}

/// Resolves a node's listed child names against the node table, left to
/// right. A name the table does not contain is a fatal error naming the
/// missing child; the tree is malformed and nothing partial is returned.
fn get_children_handles(handles: &Vec<NodeRef>, children_names: &Vec<String>) -> (r: Result<
    Vec<NodeRef>,
    TraceError,
>)
    ensures
        (match r {
            Ok(kids) => resolve_children(handles.deep_view(), children_names.deep_view())
                == Ok::<Seq<NodeView>, TraceErrorView>(kids.deep_view()),
            Err(e) => resolve_children(handles.deep_view(), children_names.deep_view())
                == Err::<Seq<NodeView>, TraceErrorView>(e@),
        }),
{
    let ghost table = handles.deep_view();
    let ghost names = children_names.deep_view();
    let mut kids: Vec<NodeRef> = Vec::new();
    proof {
        assert(names.take(0) =~= Seq::<Seq<char>>::empty());
        assert(kids.deep_view() =~= Seq::<NodeView>::empty());
    }
    let mut i: usize = 0;
    while i < children_names.len()
        invariant
            i <= children_names.len(),
            table == handles.deep_view(),
            names == children_names.deep_view(),
            names.len() == children_names@.len(),
            resolve_children(table, names.take(i as int)) == Ok::<Seq<NodeView>, TraceErrorView>(
                kids.deep_view(),
            ),
        decreases children_names.len() - i,
    {
        match find_node(handles, &children_names[i]) {
            Some(idx) => {
                let ghost pre = kids@;
                let ghost pre_dv = kids.deep_view();
                let ghost node = table[idx as int];
                kids.push(handles[idx].clone());
                proof {
                    assert(pre.len() == Seq::new(pre.len(), |j: int| pre[j].deep_view()).len());
                    assert(names[i as int] == children_names@[i as int]@);
                    lemma_resolve_children_step_ok(table, names, i as int, pre_dv, node);
                    assert(kids.deep_view() =~= pre_dv.push(node));
                }
            },
            None => {
                proof {
                    lemma_resolve_children_step_err(table, names, i as int, kids.deep_view());
                    lemma_resolve_children_err_persists(
                        table,
                        names,
                        i as int + 1,
                        TraceErrorView::MissingChild(names[i as int]),
                    );
                }
                return Err(TraceError::MissingChild(children_names[i].clone()));
            },
        }
        i = i + 1;
    }
    proof {
        assert(names.take(children_names@.len() as int) =~= names);
    }
    Ok(kids)
}

/// A single-pair path: one node name with one outcome.
fn single_step(name: &String, outcome: Outcome) -> (r: Vec<(String, Outcome)>)
    ensures
        r.deep_view() == seq![(name@, outcome)],
{
    let mut r: Vec<(String, Outcome)> = Vec::new();
    r.push((name.clone(), outcome));
    proof {
        assert(r.deep_view() =~= seq![(name@, outcome)]);
    }
    r
}

/// Combines the children of a sequence node, left to right, into the
/// sequence's trace set: for every position, each way of choosing success
/// traces for the earlier children followed by each non-success trace of the
/// child at that position, and finally every all-successes combination.
fn rec_sequence(children: Vec<NodeRef>, handles: &Vec<NodeRef>, fuel: usize) -> (r: Result<
    Traces,
    TraceError,
>)
    ensures
        (match child_trace_sets(handles.deep_view(), children.deep_view(), fuel as nat) {
            Ok(sets) => r matches Ok(out) && out@ == sequence_traces(sets),
            Err(e) => r matches Err(err) && err@ == e,
        }),
    decreases fuel, 1int,
{
    let ghost table = handles.deep_view();
    let ghost kids = children.deep_view();
    let mut early: Vec<Trace> = Vec::new();
    let mut products: Vec<Vec<(String, Outcome)>> = Vec::new();
    products.push(Vec::new());
    proof {
        assert(kids.take(0) =~= Seq::<NodeView>::empty());
        assert(child_trace_sets(table, kids.take(0), fuel as nat) == Ok::<
            Seq<Seq<TraceView>>,
            TraceErrorView,
        >(Seq::<Seq<TraceView>>::empty()));
        assert(products.deep_view() =~~= success_paths(Seq::<Seq<TraceView>>::empty()));
        assert(early.deep_view() =~= early_traces(Seq::<Seq<TraceView>>::empty()));
    }
    let mut i: usize = 0;
    while i < children.len()
        invariant
            i <= children.len(),
            table == handles.deep_view(),
            kids == children.deep_view(),
            kids.len() == children@.len(),
            child_trace_sets(table, kids.take(i as int), fuel as nat) matches Ok(sets)
                && products.deep_view() == success_paths(sets) && early.deep_view()
                == early_traces(sets),
        decreases children.len() - i,
    {
        let ghost sets = child_trace_sets(table, kids.take(i as int), fuel as nat)->Ok_0;
        proof {
            assert(kids[i as int] == children@[i as int]@);
        }
        match rec(&children[i], handles, fuel) {
            Err(e) => {
                proof {
                    lemma_child_trace_sets_step_err(table, kids, fuel as nat, i as int, sets, e@);
                    lemma_child_trace_sets_err_persists(table, kids, fuel as nat, i + 1 as int, e@);
                }
                return Err(e);
            },
            Ok(child_traces) => {
                let ghost ts = child_traces@;
                let ghost prods = products.deep_view();
                let ghost early_base = early.deep_view();
                let mut new_products: Vec<Vec<(String, Outcome)>> = Vec::new();
                proof {
                    assert(prods.take(0) =~= Seq::<Seq<(Seq<char>, Outcome)>>::empty());
                    assert(new_products.deep_view() =~= extend_all(prods.take(0), ts));
                    assert(early.deep_view() =~= early_base + cut_all(prods.take(0), ts));
                }
                let mut p: usize = 0;
                while p < products.len()
                    invariant
                        p <= products.len(),
                        prods == products.deep_view(),
                        prods.len() == products@.len(),
                        ts == child_traces@,
                        ts.len() == child_traces.traces@.len(),
                        new_products.deep_view() == extend_all(prods.take(p as int), ts),
                        early.deep_view() == early_base + cut_all(prods.take(p as int), ts),
                    decreases products.len() - p,
                {
                    proof {
                        assert(ts.take(0) =~= Seq::<TraceView>::empty());
                        assert(extend_one(prods[p as int], ts.take(0)) =~= Seq::<
                            Seq<(Seq<char>, Outcome)>,
                        >::empty());
                        assert(cut_one(prods[p as int], ts.take(0)) =~= Seq::<TraceView>::empty());
                        assert(new_products.deep_view() =~= extend_all(prods.take(p as int), ts)
                            + extend_one(prods[p as int], ts.take(0)));
                        assert(early.deep_view() =~= early_base + cut_all(prods.take(p as int), ts)
                            + cut_one(prods[p as int], ts.take(0)));
                    }
                    let mut t: usize = 0;
                    while t < child_traces.traces.len()
                        invariant
                            t <= child_traces.traces.len(),
                            p < products.len(),
                            prods == products.deep_view(),
                            prods.len() == products@.len(),
                            ts == child_traces@,
                            ts.len() == child_traces.traces@.len(),
                            new_products.deep_view() == extend_all(prods.take(p as int), ts)
                                + extend_one(prods[p as int], ts.take(t as int)),
                            early.deep_view() == early_base + cut_all(prods.take(p as int), ts)
                                + cut_one(prods[p as int], ts.take(t as int)),
                        decreases child_traces.traces.len() - t,
                    {
                        let combined = concat_steps(&products[p], &child_traces.traces[t].trace);
                        let ghost combined_dv = combined.deep_view();
                        proof {
                            assert(combined_dv == prods[p as int] + ts[t as int].steps);
                            assert(ts.take(t + 1 as int).drop_last() =~= ts.take(t as int));
                            assert(ts.take(t + 1 as int).last() == ts[t as int]);
                        }
                        let result = child_traces.traces[t].result;
                        proof {
                            assert(result == ts[t as int].result);
                        }
                        match result {
                            Outcome::Success => {
                                let ghost pre = new_products@;
                                new_products.push(combined);
                                proof {
                                    assert(pre.len() == Seq::new(
                                        pre.len(),
                                        |j: int| pre[j].deep_view(),
                                    ).len());
                                    assert(extend_one(prods[p as int], ts.take(t + 1 as int))
                                        == extend_one(prods[p as int], ts.take(t as int)) + seq![
                                        prods[p as int] + ts[t as int].steps,
                                    ]);
                                    let target_old = extend_all(prods.take(p as int), ts)
                                        + extend_one(prods[p as int], ts.take(t as int));
                                    let x = prods[p as int] + ts[t as int].steps;
                                    assert(extend_all(prods.take(p as int), ts) + extend_one(
                                        prods[p as int],
                                        ts.take(t + 1 as int),
                                    ) =~= target_old.push(x));
                                    assert(new_products.deep_view() =~~= target_old.push(x));
                                    assert(cut_one(prods[p as int], ts.take(t + 1 as int))
                                        =~= cut_one(prods[p as int], ts.take(t as int)));
                                }
                            },
                            Outcome::Failure | Outcome::Running => {
                                let ghost pre = early@;
                                early.push(Trace { trace: combined, result });
                                proof {
                                    assert(pre.len() == Seq::new(
                                        pre.len(),
                                        |j: int| pre[j].deep_view(),
                                    ).len());
                                    assert(cut_one(prods[p as int], ts.take(t + 1 as int))
                                        == cut_one(prods[p as int], ts.take(t as int)) + seq![
                                        TraceView {
                                            steps: prods[p as int] + ts[t as int].steps,
                                            result: ts[t as int].result,
                                        },
                                    ]);
                                    let target_old = early_base + cut_all(prods.take(p as int), ts)
                                        + cut_one(prods[p as int], ts.take(t as int));
                                    let x = TraceView {
                                        steps: prods[p as int] + ts[t as int].steps,
                                        result: ts[t as int].result,
                                    };
                                    assert(early_base + cut_all(prods.take(p as int), ts)
                                        + cut_one(prods[p as int], ts.take(t + 1 as int))
                                        =~= target_old.push(x));
                                    assert(early.deep_view() =~~= target_old.push(x));
                                    assert(extend_one(prods[p as int], ts.take(t + 1 as int))
                                        =~= extend_one(prods[p as int], ts.take(t as int)));
                                }
                            },
                        }
                        t = t + 1;
                    }
                    proof {
                        assert(ts.take(child_traces.traces@.len() as int) =~= ts);
                        assert(prods.take(p + 1 as int).drop_last() =~= prods.take(p as int));
                        assert(prods.take(p + 1 as int).last() == prods[p as int]);
                        assert(extend_all(prods.take(p + 1 as int), ts) == extend_all(
                            prods.take(p as int),
                            ts,
                        ) + extend_one(prods[p as int], ts));
                        assert(cut_all(prods.take(p + 1 as int), ts) == cut_all(
                            prods.take(p as int),
                            ts,
                        ) + cut_one(prods[p as int], ts));
                    }
                    p = p + 1;
                }
                proof {
                    assert(prods.take(products@.len() as int) =~= prods);
                    lemma_child_trace_sets_step_ok(table, kids, fuel as nat, i as int, sets, ts);
                    assert((sets.push(ts)).drop_last() =~= sets);
                    assert((sets.push(ts)).last() == ts);
                    assert(success_paths(sets.push(ts)) == extend_all(success_paths(sets), ts));
                    assert(early_traces(sets.push(ts)) == early_traces(sets) + cut_all(
                        success_paths(sets),
                        ts,
                    ));
                }
                products = new_products;
            },
        }
        i = i + 1;
    }
    proof {
        assert(kids.take(children@.len() as int) =~= kids);
    }
    let ghost sets = child_trace_sets(table, kids, fuel as nat)->Ok_0;
    let ghost full = success_paths(sets);
    proof {
        assert(full.take(0) =~= Seq::<Seq<(Seq<char>, Outcome)>>::empty());
        assert(full_success_traces(full.take(0)) =~= Seq::<TraceView>::empty());
        assert(early.deep_view() =~= early_traces(sets) + full_success_traces(full.take(0)));
    }
    let mut p: usize = 0;
    while p < products.len()
        invariant
            p <= products.len(),
            products.deep_view() == full,
            full.len() == products@.len(),
            child_trace_sets(table, kids, fuel as nat) == Ok::<Seq<Seq<TraceView>>, TraceErrorView>(
                sets,
            ),
            full == success_paths(sets),
            early.deep_view() == early_traces(sets) + full_success_traces(full.take(p as int)),
        decreases products.len() - p,
    {
        let steps = clone_steps(&products[p]);
        let ghost pre = early@;
        early.push(Trace { trace: steps, result: Outcome::Success });
        proof {
            assert(pre.len() == Seq::new(pre.len(), |j: int| pre[j].deep_view()).len());
            assert(full_success_traces(full.take(p + 1 as int)) =~= full_success_traces(
                full.take(p as int),
            ).push(success_trace_of(full[p as int])));
            let ghost target_old = early_traces(sets) + full_success_traces(full.take(p as int));
            assert(early_traces(sets) + full_success_traces(full.take(p + 1 as int))
                =~= target_old.push(success_trace_of(full[p as int])));
            assert(early.deep_view() =~~= target_old.push(success_trace_of(full[p as int])));
        }
        p = p + 1;
    }
    proof {
        assert(full.take(products@.len() as int) =~= full);
        assert(early.deep_view() =~= sequence_traces(sets));
    }
    Ok(Traces { traces: early })
}

/// Enumerates the complete trace set reachable from `node` against the node
/// table `handles`, with a recursion budget of `fuel`.
fn rec(node: &NodeRef, handles: &Vec<NodeRef>, fuel: usize) -> (r: Result<Traces, TraceError>)
    ensures
        (match node_traces(handles.deep_view(), node@, fuel as nat) {
            Ok(ts) => r matches Ok(out) && out@ == ts,
            Err(e) => r matches Err(err) && err@ == e,
        }),
    decreases fuel, 0int,
{
    let ghost table = handles.deep_view();
    if fuel == 0 {
        return Err(TraceError::CycleDetected);
    }
    match &node.kind {
        NodeKind::Action => {
            let mut traces: Vec<Trace> = Vec::new();
            traces.push(
                Trace { trace: single_step(&node.name, Outcome::Success), result: Outcome::Success },
            );
            traces.push(
                Trace { trace: single_step(&node.name, Outcome::Failure), result: Outcome::Failure },
            );
            traces.push(
                Trace { trace: single_step(&node.name, Outcome::Running), result: Outcome::Running },
            );
            proof {
                assert(traces.deep_view() =~~= leaf_traces(node@.name));
            }
            Ok(Traces { traces })
        },
        NodeKind::Condition | NodeKind::Decorator => {
            match get_children_handles(handles, &node.children) {
                Err(e) => Err(e),
                Ok(kids) => {
                    if kids.len() == 0 {
                        proof {
                            assert(kids.deep_view().len() == 0);
                        }
                        let traces: Vec<Trace> = Vec::new();
                        proof {
                            assert(traces.deep_view() =~= Seq::<TraceView>::empty());
                        }
                        Ok(Traces { traces })
                    } else {
                        proof {
                            assert(kids.deep_view().len() == kids@.len());
                            assert(kids.deep_view()[0] == kids@[0]@);
                        }
                        match rec(&kids[0], handles, fuel - 1) {
                            Err(e) => Err(e),
                            Ok(child_traces) => {
                                let ghost child_ts = child_traces@;
                                let gate = Trace {
                                    trace: single_step(&node.name, Outcome::Success),
                                    result: Outcome::Success,
                                };
                                proof {
                                    assert(gate@ =~~= TraceView {
                                        steps: seq![(node@.name, Outcome::Success)],
                                        result: Outcome::Success,
                                    });
                                }
                                let mut traces = append_traces(gate, child_traces);
                                let ghost pre = traces@;
                                traces.push(
                                    Trace {
                                        trace: single_step(&node.name, Outcome::Failure),
                                        result: Outcome::Failure,
                                    },
                                );
                                proof {
                                    assert(pre.len() == Seq::new(
                                        pre.len(),
                                        |j: int| pre[j].deep_view(),
                                    ).len());
                                    assert(traces.deep_view() =~~= guard_traces(
                                        node@.name,
                                        child_ts,
                                    ));
                                }
                                Ok(Traces { traces })
                            },
                        }
                    }
                },
            }
        },
        NodeKind::Sequence => {
            match get_children_handles(handles, &node.children) {
                Err(e) => Err(e),
                Ok(kids) => rec_sequence(kids, handles, fuel - 1),
            }
        },
        NodeKind::Unknown(_) => {
            let traces: Vec<Trace> = Vec::new();
            proof {
                assert(traces.deep_view() =~= Seq::<TraceView>::empty());
            }
            Ok(Traces { traces })
        },
    }
}

/// Enumerates the complete trace set of a behavior tree: every execution
/// path from the root, with the terminal outcome of each path.
///
/// A child name absent from the node table is a fatal `MissingChild` error:
/// the tree is malformed and no partial trace set is returned. A chain of
/// name references deeper than the table is large can only revisit a node,
/// so it is reported as `CycleDetected`.
pub fn get_traces(bt: BehaviorTree) -> (r: Result<Traces, TraceError>)
    requires
        bt.handles@.len() < usize::MAX,
    ensures
        (match tree_traces(bt.handles.deep_view(), bt.root_node@) {
            Ok(ts) => r matches Ok(out) && out@ == ts,
            Err(e) => r matches Err(err) && err@ == e,
        }),
{
    proof {
        assert(bt.handles.deep_view().len() == bt.handles@.len());
    }
    rec(&bt.root_node, &bt.handles, bt.handles.len() + 1)
}

} // verus!
