//! Events published while a workflow runs.

use vstd::prelude::*;

use crate::json::Vars;
use crate::text::{push_str, string_of};

verus! {

/// Why a node ended in error.
#[derive(Debug, Clone)]
pub enum ErrorReason {
    Timeout,
    Failed(String),
    Exception(String),
}

pub open spec fn reason_text(r: ErrorReason) -> Seq<char> {
    match r {
        ErrorReason::Timeout => seq!['T', 'i', 'm', 'e', 'o', 'u', 't'],
        ErrorReason::Failed(m) => seq!['F', 'a', 'i', 'l', 'e', 'd', ':', ' '] + m@,
        ErrorReason::Exception(m) => seq!['E', 'x', 'c', 'e', 'p', 't', 'i', 'o', 'n', ':', ' '] + m@,
    }
}

impl ErrorReason {
    /// The text of the reason.
    pub fn to_string(&self) -> (r: String)
        ensures
            r@ == reason_text(*self),
    {
        let mut out: Vec<char> = Vec::new();
        proof {
            reveal_strlit("Timeout");
            reveal_strlit("Failed: ");
            reveal_strlit("Exception: ");
        }
        match self {
            ErrorReason::Timeout => push_str(&mut out, "Timeout"),
            ErrorReason::Failed(m) => {
                push_str(&mut out, "Failed: ");
                push_str(&mut out, m.as_str());
            },
            ErrorReason::Exception(m) => {
                push_str(&mut out, "Exception: ");
                push_str(&mut out, m.as_str());
            },
        }
        string_of(&out)
    }
}

/// The message of a reason: the action's own text, or `Timeout`.
pub open spec fn reason_message(r: ErrorReason) -> Seq<char> {
    match r {
        ErrorReason::Timeout => seq!['T', 'i', 'm', 'e', 'o', 'u', 't'],
        ErrorReason::Failed(m) => m@,
        ErrorReason::Exception(m) => m@,
    }
}

impl ErrorReason {
    /// The message of the reason, without its kind.
    pub fn message(&self) -> (r: String)
        ensures
            r@ == reason_message(*self),
    {
        proof {
            reveal_strlit("Timeout");
        }
        match self {
            ErrorReason::Timeout => "Timeout".to_owned(),
            ErrorReason::Failed(m) => m.clone(),
            ErrorReason::Exception(m) => m.clone(),
        }
    }
}

/// What happened to a node. Timestamps are milliseconds since the epoch.
#[derive(Debug, Clone)]
pub enum NodeEvent {
    Running(i64),
    Stopped(i64),
    Paused(i64),
    Skipped,
    Succeeded(i64),
    Error(ErrorReason),
    Retry,
}

/// The kind of a node event, without its data.
#[derive(Debug, Clone, Copy, PartialEq, Eq, Structural)]
pub enum NodeEventKind {
    Running,
    Stopped,
    Paused,
    Skipped,
    Succeeded,
    Error,
    Retry,
}

pub open spec fn node_event_kind(e: NodeEvent) -> NodeEventKind {
    match e {
        NodeEvent::Running(_) => NodeEventKind::Running,
        NodeEvent::Stopped(_) => NodeEventKind::Stopped,
        NodeEvent::Paused(_) => NodeEventKind::Paused,
        NodeEvent::Skipped => NodeEventKind::Skipped,
        NodeEvent::Succeeded(_) => NodeEventKind::Succeeded,
        NodeEvent::Error(_) => NodeEventKind::Error,
        NodeEvent::Retry => NodeEventKind::Retry,
    }
}

pub open spec fn node_event_name(k: NodeEventKind) -> Seq<char> {
    match k {
        NodeEventKind::Running => seq!['R', 'u', 'n', 'n', 'i', 'n', 'g'],
        NodeEventKind::Stopped => seq!['S', 't', 'o', 'p', 'p', 'e', 'd'],
        NodeEventKind::Paused => seq!['P', 'a', 'u', 's', 'e', 'd'],
        NodeEventKind::Skipped => seq!['S', 'k', 'i', 'p', 'p', 'e', 'd'],
        NodeEventKind::Succeeded => seq!['S', 'u', 'c', 'c', 'e', 'e', 'd', 'e', 'd'],
        NodeEventKind::Error => seq!['E', 'r', 'r', 'o', 'r'],
        NodeEventKind::Retry => seq!['R', 'e', 't', 'r', 'y'],
    }
}

impl NodeEvent {
    /// The kind of the event.
    pub fn kind(&self) -> (r: NodeEventKind)
        ensures
            r == node_event_kind(*self),
    {
        match self {
            NodeEvent::Running(_) => NodeEventKind::Running,
            NodeEvent::Stopped(_) => NodeEventKind::Stopped,
            NodeEvent::Paused(_) => NodeEventKind::Paused,
            NodeEvent::Skipped => NodeEventKind::Skipped,
            NodeEvent::Succeeded(_) => NodeEventKind::Succeeded,
            NodeEvent::Error(_) => NodeEventKind::Error,
            NodeEvent::Retry => NodeEventKind::Retry,
        }
    }

    /// The name of the event's kind.
    pub fn str(&self) -> (r: &'static str)
        ensures
            r@ == node_event_name(node_event_kind(*self)),
    {
        proof {
            reveal_strlit("Running");
            reveal_strlit("Stopped");
            reveal_strlit("Paused");
            reveal_strlit("Skipped");
            reveal_strlit("Succeeded");
            reveal_strlit("Error");
            reveal_strlit("Retry");
        }
        match self {
            NodeEvent::Running(_) => "Running",
            NodeEvent::Stopped(_) => "Stopped",
            NodeEvent::Paused(_) => "Paused",
            NodeEvent::Skipped => "Skipped",
            NodeEvent::Succeeded(_) => "Succeeded",
            NodeEvent::Error(_) => "Error",
            NodeEvent::Retry => "Retry",
        }
    }
}

/// A workflow started; it lists every node id.
#[derive(Debug, Clone)]
pub struct WorkflowStartEvent {
    pub node_ids: Vec<String>,
}

/// A workflow failed.
#[derive(Debug, Clone)]
pub struct WorkflowFailedEvent {
    pub error: String,
}

/// A workflow was aborted, with the outputs collected until then.
#[derive(Debug)]
pub struct WorkflowAbortedEvent {
    pub reason: String,
    pub outputs: Vec<(String, Vars)>,
}

/// A workflow was paused.
#[derive(Debug)]
pub struct WorkflowPausedEvent {
    pub reason: String,
    pub outputs: Vars,
}

/// What happened to a workflow.
#[derive(Debug)]
pub enum WorkflowEvent {
    Start(WorkflowStartEvent),
    Succeeded,
    Failed(WorkflowFailedEvent),
    Aborted(WorkflowAbortedEvent),
    Paused(WorkflowPausedEvent),
}

pub open spec fn workflow_event_name(e: WorkflowEvent) -> Seq<char> {
    match e {
        WorkflowEvent::Start(_) => seq!['R', 'u', 'n', 'n', 'i', 'n', 'g'],
        WorkflowEvent::Succeeded => seq!['S', 'u', 'c', 'c', 'e', 'e', 'd', 'e', 'd'],
        WorkflowEvent::Failed(_) => seq!['F', 'a', 'i', 'l', 'e', 'd'],
        WorkflowEvent::Aborted(_) => seq!['A', 'b', 'o', 'r', 't', 'e', 'd'],
        WorkflowEvent::Paused(_) => seq!['P', 'a', 'u', 's', 'e', 'd'],
    }
}

/// Succeeded, Failed and Aborted end a workflow.
pub open spec fn ends_workflow(e: WorkflowEvent) -> bool {
    e is Succeeded || e is Failed || e is Aborted
}

impl WorkflowEvent {
    /// The name of the event's kind.
    pub fn str(&self) -> (r: &'static str)
        ensures
            r@ == workflow_event_name(*self),
    {
        proof {
            reveal_strlit("Running");
            reveal_strlit("Succeeded");
            reveal_strlit("Failed");
            reveal_strlit("Aborted");
            reveal_strlit("Paused");
        }
        match self {
            WorkflowEvent::Start(_) => "Running",
            WorkflowEvent::Succeeded => "Succeeded",
            WorkflowEvent::Failed(_) => "Failed",
            WorkflowEvent::Aborted(_) => "Aborted",
            WorkflowEvent::Paused(_) => "Paused",
        }
    }

    /// Whether the event ends the workflow.
    pub fn is_terminal(&self) -> (r: bool)
        ensures
            r == ends_workflow(*self),
    {
        match self {
            WorkflowEvent::Succeeded | WorkflowEvent::Failed(_) | WorkflowEvent::Aborted(_) => true,
            _ => false,
        }
    }
}

/// An event of a workflow or of one of its nodes.
#[derive(Debug)]
pub enum GraphEvent {
    Workflow(WorkflowEvent),
    Node(NodeEvent),
}

impl GraphEvent {
    /// Whether the workflow succeeded.
    pub fn is_complete(&self) -> (r: bool)
        ensures
            r == (*self matches GraphEvent::Workflow(w) && w is Succeeded),
    {
        match self {
            GraphEvent::Workflow(WorkflowEvent::Succeeded) => true,
            _ => false,
        }
    }

    /// Whether the workflow failed.
    pub fn is_error(&self) -> (r: bool)
        ensures
            r == (*self matches GraphEvent::Workflow(w) && w is Failed),
    {
        match self {
            GraphEvent::Workflow(WorkflowEvent::Failed(_)) => true,
            _ => false,
        }
    }
}

/// An event with the process and node it concerns (the node id is empty for
/// workflow events).
#[derive(Debug)]
pub struct Message {
    pub pid: String,
    pub nid: String,
    pub event: GraphEvent,
}

/// A log line of a node.
#[derive(Debug, Clone)]
pub struct Log {
    pub pid: String,
    pub nid: String,
    pub content: String,
    /// Milliseconds since the epoch.
    pub timestamp: i64,
}

/// An immutable message as delivered to subscribers.
#[derive(Debug)]
pub struct Event<T> {
    inner: T,
}

impl<T> Event<T> {
    pub closed spec fn inner_view(&self) -> T {
        self.inner
    }

    pub fn new(inner: T) -> (r: Event<T>)
        ensures
            r.inner_view() == inner,
    {
        Event { inner }
    }

    pub fn inner(&self) -> (r: &T)
        ensures
            *r == self.inner_view(),
    {
        &self.inner
    }
}

} // verus!
