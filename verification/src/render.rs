//! Trace presentation: renders a trace as one human-readable line, and a
//! trace set as a report bracketed by fixed banner lines. Pure formatting;
//! printing is left to the caller.

use vstd::prelude::*;
use vstd::string::StringExecFns;

use crate::model::Outcome;
use crate::paths::Trace;
use crate::paths::Traces;
use crate::semantics::TraceView;

verus! {

/// The label of an outcome, as rendered.
pub open spec fn outcome_label(o: Outcome) -> Seq<char> {
    match o {
        Outcome::Success => "Success"@,
        Outcome::Failure => "Failure"@,
        Outcome::Running => "Running"@,
    }
}

/// The text of one step: the node's name, then its outcome in parentheses.
pub open spec fn step_label(step: (Seq<char>, Outcome)) -> Seq<char> {
    step.0 + "("@ + outcome_label(step.1) + ")"@
}

/// The text of a path: its step labels joined by arrows.
pub open spec fn path_label(steps: Seq<(Seq<char>, Outcome)>) -> Seq<char>
    decreases steps.len(),
{
    if steps.len() == 0 {
        Seq::empty()
    } else if steps.len() == 1 {
        step_label(steps[0])
    } else {
        path_label(steps.drop_last()) + " -> "@ + step_label(steps.last())
    }
}

/// The rendered line of one trace: its path, then its terminal result.
pub open spec fn trace_label(t: TraceView) -> Seq<char> {
    path_label(t.steps) + " => Result: "@ + outcome_label(t.result)
}

/// The rendered lines of a trace set: one line per trace, in set order,
/// between the fixed header and footer banners.
pub open spec fn report_lines(ts: Seq<TraceView>) -> Seq<Seq<char>> {
    seq!["--- Behavior Tree Traces ---"@] + ts.map_values(|t: TraceView| trace_label(t)) + seq![
        "-----------------------------"@,
    ]
}

/// The name of an outcome.
pub fn outcome_text(o: &Outcome) -> (r: String)
    ensures
        r@ == outcome_label(*o),
{
    match o {
        Outcome::Success => "Success".to_owned(),
        Outcome::Failure => "Failure".to_owned(),
        Outcome::Running => "Running".to_owned(),
    }
}

/// Renders one trace as a line: the path's steps joined by arrows, then the
/// trace's terminal result.
pub fn render_trace(trace: &Trace) -> (r: String)
    ensures
        r@ == trace_label(trace@),
{
    let ghost steps = trace.trace.deep_view();
    let mut text = String::new();
    proof {
        assert(steps.take(0) =~= Seq::<(Seq<char>, Outcome)>::empty());
        assert(text@ =~= path_label(steps.take(0)));
        assert(steps.len() == trace.trace@.len());
    }
    let mut i: usize = 0;
    while i < trace.trace.len()
        invariant
            i <= trace.trace.len(),
            steps == trace.trace.deep_view(),
            steps.len() == trace.trace@.len(),
            text@ == path_label(steps.take(i as int)),
        decreases trace.trace.len() - i,
    {
        if i > 0 {
            text.append(" -> ");
        }
        text.append(trace.trace[i].0.as_str());
        text.append("(");
        let label = outcome_text(&trace.trace[i].1);
        text.append(label.as_str());
        text.append(")");
        proof {
            assert(steps[i as int] == (trace.trace@[i as int].0@, trace.trace@[i as int].1));
            assert(steps.take(i + 1 as int).drop_last() =~= steps.take(i as int));
            assert(steps.take(i + 1 as int).last() == steps[i as int]);
            assert(text@ =~= path_label(steps.take(i + 1 as int)));
        }
        i = i + 1;
    }
    proof {
        assert(steps.take(trace.trace@.len() as int) =~= steps);
    }
    text.append(" => Result: ");
    let label = outcome_text(&trace.result);
    text.append(label.as_str());
    proof {
        assert(text@ =~= trace_label(trace@));
    }
    text
}

/// Renders a trace set as its report lines: the header banner, one line per
/// trace in set order, and the footer banner.
pub fn render_traces(traces: &Traces) -> (r: Vec<String>)
    ensures
        r.deep_view() == report_lines(traces@),
{
    let mut lines: Vec<String> = Vec::new();
    lines.push("--- Behavior Tree Traces ---".to_owned());
    let mut i: usize = 0;
    proof {
        assert(traces@.take(0) =~= Seq::<TraceView>::empty());
        assert(lines.deep_view() =~~= seq!["--- Behavior Tree Traces ---"@] + traces@.take(
            0,
        ).map_values(|t: TraceView| trace_label(t)));
        assert(traces@.len() == traces.traces@.len());
    }
    while i < traces.traces.len()
        invariant
            i <= traces.traces.len(),
            traces@.len() == traces.traces@.len(),
            lines.deep_view() == seq!["--- Behavior Tree Traces ---"@] + traces@.take(
                i as int,
            ).map_values(|t: TraceView| trace_label(t)),
        decreases traces.traces.len() - i,
    {
        let ghost pre = lines@;
        let line = render_trace(&traces.traces[i]);
        lines.push(line);
        proof {
            assert(pre.len() == Seq::new(pre.len(), |j: int| pre[j].deep_view()).len());
            assert(traces@.take(i + 1 as int).map_values(|t: TraceView| trace_label(t))
                =~= traces@.take(i as int).map_values(|t: TraceView| trace_label(t)).push(
                trace_label(traces@[i as int]),
            ));
            assert(lines.deep_view() =~= (seq!["--- Behavior Tree Traces ---"@] + traces@.take(
                i as int,
            ).map_values(|t: TraceView| trace_label(t))).push(trace_label(traces@[i as int])));
            assert(lines.deep_view() =~= seq!["--- Behavior Tree Traces ---"@] + traces@.take(
                i + 1 as int,
            ).map_values(|t: TraceView| trace_label(t)));
        }
        i = i + 1;
    }
    proof {
        assert(traces@.take(traces.traces@.len() as int) =~= traces@);
    }
    let ghost pre = lines@;
    lines.push("-----------------------------".to_owned());
    proof {
        assert(pre.len() == Seq::new(pre.len(), |j: int| pre[j].deep_view()).len());
        assert(lines.deep_view() =~= report_lines(traces@));
    }
    lines
}

} // verus!
