//! The read-only data model of a behavior tree: outcomes, node descriptions,
//! the node table, and the errors that enumeration can report.

use vstd::prelude::*;

verus! {

/// Terminal result of evaluating one node.
#[derive(Clone, Copy, Debug, PartialEq, Eq, Structural)]
pub enum Outcome {
    Success,
    Failure,
    Running,
}

impl View for Outcome {
    type V = Outcome;

    open spec fn view(&self) -> Outcome {
        *self
    }
}

impl DeepView for Outcome {
    type V = Outcome;

    open spec fn deep_view(&self) -> Outcome {
        *self
    }
}

/// Category of a node. `Unknown` carries the original tag of a category this
/// enumerator does not understand, for diagnostics.
#[derive(Debug)]
pub enum NodeKind {
    Action,
    Condition,
    Decorator,
    Sequence,
    Unknown(String),
}

/// Mathematical model of a `NodeKind`: the unknown tag is a character sequence.
pub enum NodeKindView {
    Action,
    Condition,
    Decorator,
    Sequence,
    Unknown(Seq<char>),
}

impl View for NodeKind {
    type V = NodeKindView;

    open spec fn view(&self) -> NodeKindView {
        match self {
            NodeKind::Action => NodeKindView::Action,
            NodeKind::Condition => NodeKindView::Condition,
            NodeKind::Decorator => NodeKindView::Decorator,
            NodeKind::Sequence => NodeKindView::Sequence,
            NodeKind::Unknown(tag) => NodeKindView::Unknown(tag@),
        }
    }
}

impl DeepView for NodeKind {
    type V = NodeKindView;

    open spec fn deep_view(&self) -> NodeKindView {
        self@
    }
}

impl Clone for NodeKind {
    fn clone(&self) -> (r: Self)
        ensures
            r@ == self@,
    {
        match self {
            NodeKind::Action => NodeKind::Action,
            NodeKind::Condition => NodeKind::Condition,
            NodeKind::Decorator => NodeKind::Decorator,
            NodeKind::Sequence => NodeKind::Sequence,
            NodeKind::Unknown(tag) => NodeKind::Unknown(tag.clone()),
        }
    }
}

/// A node's identity and shape: its unique name, its category, and the
/// ordered names of its children (empty for leaves). Child names are
/// resolved against the node table at enumeration time.
#[derive(Debug)]
pub struct NodeRef {
    pub name: String,
    pub kind: NodeKind,
    pub children: Vec<String>,
}

/// Mathematical model of a `NodeRef`.
#[verifier::ext_equal]
pub struct NodeView {
    pub name: Seq<char>,
    pub kind: NodeKindView,
    pub children: Seq<Seq<char>>,
}

impl View for NodeRef {
    type V = NodeView;

    open spec fn view(&self) -> NodeView {
        NodeView { name: self.name@, kind: self.kind@, children: self.children.deep_view() }
    }
}

impl DeepView for NodeRef {
    type V = NodeView;

    open spec fn deep_view(&self) -> NodeView {
        self@
    }
}

impl Clone for NodeRef {
    fn clone(&self) -> (r: Self)
        ensures
            r@ == self@,
    {
        let r = NodeRef {
            name: self.name.clone(),
            kind: self.kind.clone(),
            children: clone_names(&self.children),
        };
        proof {
            assert(r@ =~= self@);
        }
        r
    }
}

/// Clones a list of node names, preserving its model exactly.
fn clone_names(names: &Vec<String>) -> (r: Vec<String>)
    ensures
        r.deep_view() == names.deep_view(),
{
    let mut r: Vec<String> = Vec::new();
    let mut i: usize = 0;
    while i < names.len()
        invariant
            i <= names.len(),
            r.deep_view() == names.deep_view().take(i as int),
        decreases names.len() - i,
    {
        let ghost pre = r@;
        let c = names[i].clone();
        r.push(c);
        proof {
            assert(pre.len() == Seq::new(pre.len(), |j: int| pre[j].deep_view()).len());
            assert(pre.len() == i);
            assert(r.deep_view() =~= names.deep_view().take(i + 1 as int));
        }
        i = i + 1;
    }
    proof {
        assert(names.deep_view().take(names@.len() as int) =~= names.deep_view());
    }
    r
}

/// A behavior tree as the enumerator sees it: a distinguished root node and
/// the flat table of all nodes, indexed by name.
#[derive(Debug)]
pub struct BehaviorTree {
    pub root_node: NodeRef,
    pub handles: Vec<NodeRef>,
}

/// Fatal errors of one enumeration call.
///
/// `MissingChild` reports a child name that some node lists but the node
/// table does not contain: the tree is malformed and no partial trace set is
/// returned. `CycleDetected` reports that enumeration descended through more
/// nodes than the table holds; name lookup is deterministic, so such a chain
/// must revisit a node and the name references form a cycle.
#[derive(Debug, PartialEq, Eq)]
pub enum TraceError {
    MissingChild(String),
    CycleDetected,
}

impl Clone for TraceError {
    fn clone(&self) -> (r: Self)
        ensures
            r@ == self@,
    {
        match self {
            TraceError::MissingChild(name) => TraceError::MissingChild(name.clone()),
            TraceError::CycleDetected => TraceError::CycleDetected,
        }
    }
}

/// Mathematical model of a `TraceError`.
pub enum TraceErrorView {
    MissingChild(Seq<char>),
    CycleDetected,
}

impl View for TraceError {
    type V = TraceErrorView;

    open spec fn view(&self) -> TraceErrorView {
        match self {
            TraceError::MissingChild(name) => TraceErrorView::MissingChild(name@),
            TraceError::CycleDetected => TraceErrorView::CycleDetected,
        }
    }
}

/// The node a name denotes: the first entry of the table whose name matches,
/// if any.
pub open spec fn lookup(table: Seq<NodeView>, name: Seq<char>) -> Option<NodeView>
    decreases table.len(),
{
    if table.len() == 0 {
        None
    } else if table[0].name == name {
        Some(table[0])
    } else {
        lookup(table.skip(1), name)
    }
}

/// Finds the first node of the table carrying the given name.
pub fn find_node(handles: &Vec<NodeRef>, name: &String) -> (r: Option<usize>)
    ensures
        match r {
            Some(i) => i < handles.len() && lookup(handles.deep_view(), name@) == Some(
                handles.deep_view()[i as int],
            ),
            None => lookup(handles.deep_view(), name@) is None,
        },
{
    proof {
        assert(handles.deep_view().skip(0) =~= handles.deep_view());
    }
    let mut i: usize = 0;
    while i < handles.len()
        invariant
            i <= handles.len(),
            lookup(handles.deep_view(), name@) == lookup(
                handles.deep_view().skip(i as int),
                name@,
            ),
            forall|j: int| 0 <= j < i ==> handles.deep_view()[j].name != name@,
        decreases handles.len() - i,
    {
        if handles[i].name == *name {
            proof {
                let t = handles.deep_view().skip(i as int);
                assert(t[0] == handles.deep_view()[i as int]);
            }
            return Some(i);
        }
        proof {
            let t = handles.deep_view().skip(i as int);
            assert(t[0] == handles.deep_view()[i as int]);
            assert(t.skip(1) =~= handles.deep_view().skip(i + 1 as int));
        }
        i = i + 1;
    }
    proof {
        assert(handles.deep_view().skip(i as int) =~= Seq::<NodeView>::empty());
    }
    None
}

} // verus!
