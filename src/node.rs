//! Node definitions: execution states, retry policy and the runtime node.

use vstd::prelude::*;

use crate::action::ActionType;

verus! {

/// Execution state of a node or an edge.
#[derive(Debug, Clone, Copy, PartialEq, Eq, Structural)]
pub enum NodeState {
    Unknown,
    Taken,
    Executed,
    Skipped,
}

/// How far along a state is: states only ever move to a higher rank.
pub open spec fn rank(s: NodeState) -> nat {
    match s {
        NodeState::Unknown => 0,
        NodeState::Taken => 1,
        NodeState::Executed => 2,
        NodeState::Skipped => 2,
    }
}

/// The state a node holds after being marked `target` in state `cur`: the mark
/// applies only when it moves the node forward.
pub open spec fn advance(cur: NodeState, target: NodeState) -> NodeState {
    if rank(cur) < rank(target) {
        target
    } else {
        cur
    }
}

/// Whether a node or edge has finished (executed or skipped).
pub open spec fn is_terminal(s: NodeState) -> bool {
    s == NodeState::Executed || s == NodeState::Skipped
}

impl NodeState {
    /// Name of the state in snake case.
    pub fn as_str(&self) -> (r: &'static str)
        ensures
            r@ == state_name(*self),
    {
        proof {
            reveal_strlit("unknown");
            reveal_strlit("taken");
            reveal_strlit("executed");
            reveal_strlit("skipped");
        }
        match self {
            NodeState::Unknown => "unknown",
            NodeState::Taken => "taken",
            NodeState::Executed => "executed",
            NodeState::Skipped => "skipped",
        }
    }
}

pub open spec fn state_name(s: NodeState) -> Seq<char> {
    match s {
        NodeState::Unknown => seq!['u', 'n', 'k', 'n', 'o', 'w', 'n'],
        NodeState::Taken => seq!['t', 'a', 'k', 'e', 'n'],
        NodeState::Executed => seq!['e', 'x', 'e', 'c', 'u', 't', 'e', 'd'],
        NodeState::Skipped => seq!['s', 'k', 'i', 'p', 'p', 'e', 'd'],
    }
}

pub(crate) fn advance_state(cur: NodeState, target: NodeState) -> (r: NodeState)
    ensures
        r == advance(cur, target),
{
    let rc: u8 = match cur {
        NodeState::Unknown => 0,
        NodeState::Taken => 1,
        _ => 2,
    };
    let rt: u8 = match target {
        NodeState::Unknown => 0,
        NodeState::Taken => 1,
        _ => 2,
    };
    if rc < rt {
        target
    } else {
        cur
    }
}


/// What a node does when its action fails.
#[derive(Debug, Clone, Copy, PartialEq, Eq, Structural)]
pub enum ErrorStrategy {
    Unset,
    DefaultValue,
    FailBranch,
}

/// Retry policy of a node.
#[derive(Debug, Clone, Copy, PartialEq, Eq, Structural)]
pub struct RetryConfig {
    /// How many more times a failed attempt is run again.
    pub times: u64,
    /// Pause between attempts, in milliseconds.
    pub interval: u64,
}

/// A node of the runtime graph.
#[derive(Debug, Clone)]
pub struct Node {
    pub id: String,
    pub title: String,
    pub desc: String,
    pub error_strategy: ErrorStrategy,
    pub retry: Option<RetryConfig>,
    pub uses: ActionType,
    pub status: NodeState,
    /// Time limit of one attempt, in milliseconds.
    pub timeout: Option<u64>,
}

impl Node {
    /// A copy of this node whose state is `status`.
    pub fn with_status(&self, status: NodeState) -> (r: Node)
        ensures
            r == (Node { status, ..*self }),
    {
        Node {
            id: self.id.clone(),
            title: self.title.clone(),
            desc: self.desc.clone(),
            error_strategy: self.error_strategy,
            retry: self.retry,
            uses: self.uses,
            status,
            timeout: self.timeout,
        }
    }
}

} // verus!
