//! Edges and the output handles they leave from.

use vstd::prelude::*;

use crate::node::NodeState;

verus! {

/// Reserved output handles.
#[derive(Debug, Clone, Copy, PartialEq, Eq, Structural)]
pub enum FixedHandle {
    Source,
    True,
    False,
    FailBranch,
}

/// The output port an edge leaves from: a reserved one, or a free-form name
/// (a case id of a branching node).
#[derive(Debug, Clone)]
pub enum SourceHandle {
    Fixed(FixedHandle),
    Node(String),
}

/// What a handle denotes.
pub enum HandleView {
    Fixed(FixedHandle),
    Named(Seq<char>),
}

impl View for SourceHandle {
    type V = HandleView;

    open spec fn view(&self) -> HandleView {
        match self {
            SourceHandle::Fixed(h) => HandleView::Fixed(*h),
            SourceHandle::Node(n) => HandleView::Named(n@),
        }
    }
}

pub open spec fn fixed_name(h: FixedHandle) -> Seq<char> {
    match h {
        FixedHandle::Source => seq!['s', 'o', 'u', 'r', 'c', 'e'],
        FixedHandle::True => seq!['t', 'r', 'u', 'e'],
        FixedHandle::False => seq!['f', 'a', 'l', 's', 'e'],
        FixedHandle::FailBranch => seq!['f', 'a', 'i', 'l', '_', 'b', 'r', 'a', 'n', 'c', 'h'],
    }
}

/// The handle a name in a workflow definition denotes: a reserved name gives
/// the reserved handle, any other name a free-form one.
pub open spec fn handle_of_name(n: Seq<char>) -> HandleView {
    if n == fixed_name(FixedHandle::Source) {
        HandleView::Fixed(FixedHandle::Source)
    } else if n == fixed_name(FixedHandle::True) {
        HandleView::Fixed(FixedHandle::True)
    } else if n == fixed_name(FixedHandle::False) {
        HandleView::Fixed(FixedHandle::False)
    } else if n == fixed_name(FixedHandle::FailBranch) {
        HandleView::Fixed(FixedHandle::FailBranch)
    } else {
        HandleView::Named(n)
    }
}

impl FixedHandle {
    /// Name of the handle in snake case.
    pub fn as_str(&self) -> (r: &'static str)
        ensures
            r@ == fixed_name(*self),
    {
        proof {
            reveal_strlit("source");
            reveal_strlit("true");
            reveal_strlit("false");
            reveal_strlit("fail_branch");
        }
        match self {
            FixedHandle::Source => "source",
            FixedHandle::True => "true",
            FixedHandle::False => "false",
            FixedHandle::FailBranch => "fail_branch",
        }
    }
}

impl SourceHandle {
    /// The default handle, `source`.
    pub fn source() -> (r: SourceHandle)
        ensures
            r@ == HandleView::Fixed(FixedHandle::Source),
    {
        SourceHandle::Fixed(FixedHandle::Source)
    }

    /// The handle a name denotes.
    pub fn from_name(name: &String) -> (r: SourceHandle)
        ensures
            r@ == handle_of_name(name@),
    {
        let source = FixedHandle::Source.as_str().to_owned();
        let t = FixedHandle::True.as_str().to_owned();
        let f = FixedHandle::False.as_str().to_owned();
        let fb = FixedHandle::FailBranch.as_str().to_owned();
        if *name == source {
            SourceHandle::Fixed(FixedHandle::Source)
        } else if *name == t {
            SourceHandle::Fixed(FixedHandle::True)
        } else if *name == f {
            SourceHandle::Fixed(FixedHandle::False)
        } else if *name == fb {
            SourceHandle::Fixed(FixedHandle::FailBranch)
        } else {
            SourceHandle::Node(name.clone())
        }
    }

    /// The name of the handle.
    pub fn name(&self) -> (r: String)
        ensures
            handle_of_name(r@) == self@ || self@ is Named,
            self@ is Named ==> r@ == self@->Named_0,
            self@ is Fixed ==> r@ == fixed_name(self@->Fixed_0),
    {
        match self {
            SourceHandle::Fixed(h) => h.as_str().to_owned(),
            SourceHandle::Node(n) => n.clone(),
        }
    }

    /// Whether two handles are the same port.
    pub fn same(&self, other: &SourceHandle) -> (r: bool)
        ensures
            r == (self@ == other@),
    {
        match (self, other) {
            (SourceHandle::Fixed(a), SourceHandle::Fixed(b)) => *a == *b,
            (SourceHandle::Node(a), SourceHandle::Node(b)) => *a == *b,
            _ => false,
        }
    }

    /// A copy of the handle.
    pub fn copied(&self) -> (r: SourceHandle)
        ensures
            r == *self,
    {
        match self {
            SourceHandle::Fixed(h) => SourceHandle::Fixed(*h),
            SourceHandle::Node(n) => SourceHandle::Node(n.clone()),
        }
    }
}

/// An edge of the runtime graph.
#[derive(Debug, Clone)]
pub struct Edge {
    pub id: String,
    /// Id of the node the edge leaves.
    pub source: String,
    /// Id of the node the edge enters.
    pub target: String,
    pub source_handle: SourceHandle,
    pub status: NodeState,
}

impl Edge {
    /// A copy of this edge whose state is `status`.
    pub fn with_status(&self, status: NodeState) -> (r: Edge)
        ensures
            r == (Edge { status, ..*self }),
    {
        Edge {
            id: self.id.clone(),
            source: self.source.clone(),
            target: self.target.clone(),
            source_handle: self.source_handle.copied(),
            status,
        }
    }
}

/// Which outgoing edges a completed node follows.
#[derive(Debug, Clone)]
pub struct EdgeSelectOptions {
    pub source_handle: SourceHandle,
}

} // verus!
