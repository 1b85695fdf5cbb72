//! The decisions of the scheduler, as state machines: what a worker does after
//! each attempt of a node, and what the dispatcher does on each command and on
//! each node completion. The caller performs the actions (publishing, spawning
//! workers, sleeping, racing timers) and feeds back what happened.

use vstd::prelude::*;

use crate::action::{selected_handle, selected_handle_of, ActionType, NodeExecutionStatus, NodeResult};
use crate::edge::{EdgeSelectOptions, FixedHandle, HandleView, SourceHandle};
use crate::events::{
    ends_workflow, reason_message, ErrorReason, GraphEvent, Message, NodeEvent, NodeEventKind, WorkflowAbortedEvent,
    WorkflowEvent, WorkflowFailedEvent, WorkflowStartEvent,
};
use crate::graph::{lemma_push_contains, lemma_ready_ids_distinct, Workflow};
use crate::json::{lookup, Vars};
use crate::node::{advance, Node, NodeState};
use crate::template::Context;

verus! {

/// The events of one node so far: `Running` followed by `Retry` events.
pub open spec fn running_trace(t: Seq<NodeEventKind>) -> bool {
    &&& t.len() >= 1
    &&& t[0] == NodeEventKind::Running
    &&& forall|i: int| 1 <= i < t.len() ==> #[trigger] t[i] == NodeEventKind::Retry
}

/// The events of one finished node: `Running`, `Retry` events, and one of
/// `Succeeded`, `Error`, `Stopped` or `Paused`.
pub open spec fn finished_trace(t: Seq<NodeEventKind>) -> bool {
    &&& t.len() >= 2
    &&& running_trace(t.drop_last())
    &&& (t.last() == NodeEventKind::Succeeded || t.last() == NodeEventKind::Error || t.last()
        == NodeEventKind::Stopped || t.last() == NodeEventKind::Paused)
}

/// The node event an attempt's final status maps to.
pub open spec fn outcome_event(s: NodeExecutionStatus) -> NodeEventKind {
    match s {
        NodeExecutionStatus::Succeeded => NodeEventKind::Succeeded,
        NodeExecutionStatus::Failed => NodeEventKind::Error,
        NodeExecutionStatus::Exception => NodeEventKind::Error,
        NodeExecutionStatus::Stopped => NodeEventKind::Stopped,
        _ => NodeEventKind::Paused,
    }
}

/// The events that attempts ending with statuses `os` give after `Running`,
/// with `r` retries allowed: a failure with retries left gives `Retry` and
/// another attempt; any other status gives its final event and ends the
/// execution.
pub open spec fn attempt_events(r: nat, os: Seq<NodeExecutionStatus>) -> Seq<NodeEventKind>
    decreases os.len(),
{
    if os.len() == 0 {
        seq![]
    } else if os[0] == NodeExecutionStatus::Failed && r > 0 {
        seq![NodeEventKind::Retry] + attempt_events((r - 1) as nat, os.drop_first())
    } else {
        seq![outcome_event(os[0])]
    }
}

/// All events of an execution with `r` retries allowed whose attempts ended
/// with statuses `os`.
pub open spec fn execution_events(r: nat, os: Seq<NodeExecutionStatus>) -> Seq<NodeEventKind> {
    seq![NodeEventKind::Running] + attempt_events(r, os)
}

/// Whatever the retry budget and the statuses the attempts end with, an
/// execution's events read `Running`, then `Retry` events, then at most one
/// of `Succeeded`, `Error`, `Stopped` or `Paused`, which is last.
pub proof fn lemma_execution_events_shape(r: nat, os: Seq<NodeExecutionStatus>)
    ensures
        execution_events(r, os)[0] == NodeEventKind::Running,
        forall|i: int|
            1 <= i < execution_events(r, os).len() - 1 ==> #[trigger] execution_events(r, os)[i] == NodeEventKind::Retry,
        execution_events(r, os).len() > 1 ==> {
            let l = execution_events(r, os).last();
            l == NodeEventKind::Retry || l == NodeEventKind::Succeeded || l == NodeEventKind::Error || l
                == NodeEventKind::Stopped || l == NodeEventKind::Paused
        },
    decreases os.len(),
{
    lemma_attempt_events_shape(r, os);
    let a = attempt_events(r, os);
    let e = execution_events(r, os);
    assert forall|i: int| 1 <= i < e.len() - 1 implies #[trigger] e[i] == NodeEventKind::Retry by {
        assert(e[i] == a[i - 1]);
    }
    if e.len() > 1 {
        assert(e.last() == a.last());
    }
}

proof fn lemma_attempt_events_shape(r: nat, os: Seq<NodeExecutionStatus>)
    ensures
        forall|i: int| 0 <= i < attempt_events(r, os).len() - 1 ==> #[trigger] attempt_events(r, os)[i] == NodeEventKind::Retry,
        attempt_events(r, os).len() > 0 ==> {
            let l = attempt_events(r, os).last();
            l == NodeEventKind::Retry || l == NodeEventKind::Succeeded || l == NodeEventKind::Error || l
                == NodeEventKind::Stopped || l == NodeEventKind::Paused
        },
    decreases os.len(),
{
    if os.len() > 0 && os[0] == NodeExecutionStatus::Failed && r > 0 {
        lemma_attempt_events_shape((r - 1) as nat, os.drop_first());
        let rest = attempt_events((r - 1) as nat, os.drop_first());
        let a = attempt_events(r, os);
        assert forall|i: int| 0 <= i < a.len() - 1 implies #[trigger] a[i] == NodeEventKind::Retry by {
            if i > 0 {
                assert(a[i] == rest[i - 1]);
            }
        }
        if rest.len() > 0 {
            assert(a.last() == rest.last());
        }
    }
}

/// Attempts that all failed within the budget, followed by one more.
proof fn lemma_attempt_events_push(r: nat, os: Seq<NodeExecutionStatus>, s: NodeExecutionStatus)
    requires
        os.len() <= r,
        forall|i: int| 0 <= i < os.len() ==> #[trigger] os[i] == NodeExecutionStatus::Failed,
    ensures
        attempt_events(r, os.push(s)) == attempt_events(r, os) + if s == NodeExecutionStatus::Failed && os.len() < r {
            seq![NodeEventKind::Retry]
        } else {
            seq![outcome_event(s)]
        },
    decreases os.len(),
{
    let x: Seq<NodeEventKind> = if s == NodeExecutionStatus::Failed && os.len() < r {
        seq![NodeEventKind::Retry]
    } else {
        seq![outcome_event(s)]
    };
    if os.len() > 0 {
        assert(os.push(s).drop_first() =~= os.drop_first().push(s));
        assert(os.push(s)[0] == os[0]);
        assert(forall|i: int| 0 <= i < os.drop_first().len() ==> #[trigger] os.drop_first()[i] == os[i + 1]);
        lemma_attempt_events_push((r - 1) as nat, os.drop_first(), s);
        let rest = attempt_events((r - 1) as nat, os.drop_first());
        assert(attempt_events(r, os) == seq![NodeEventKind::Retry] + rest);
        assert(attempt_events(r, os.push(s)) == seq![NodeEventKind::Retry] + attempt_events(
            (r - 1) as nat,
            os.push(s).drop_first(),
        ));
        assert(seq![NodeEventKind::Retry] + (rest + x) =~= (seq![NodeEventKind::Retry] + rest) + x);
    } else {
        assert(os.push(s) =~= seq![s]);
        assert(seq![s].drop_first() =~= Seq::<NodeExecutionStatus>::empty());
        assert(attempt_events(r, os) =~= Seq::<NodeEventKind>::empty());
        if r > 0 {
            assert(attempt_events((r - 1) as nat, Seq::<NodeExecutionStatus>::empty()) =~= Seq::<NodeEventKind>::empty());
        }
        assert(attempt_events(r, seq![s]) =~= x);
        assert(attempt_events(r, os) + x =~= x);
    }
}

/// What a worker does after an attempt.
#[derive(Debug)]
pub enum WorkerStep {
    /// Run again, after sleeping this long if at all.
    Retry { sleep_ms: Option<u64> },
    /// Report this event; `outputs` are stored before it when present.
    Finish { event: NodeEvent, outputs: Option<Vars> },
}

/// One execution of a node: its attempts, retries and final event.
pub struct NodeRun {
    retries_left: u64,
    interval: u64,
    timeout: Option<u64>,
    waiting: bool,
    finished: bool,
    trace: Ghost<Seq<NodeEventKind>>,
    budget: Ghost<nat>,
    outcomes: Ghost<Seq<NodeExecutionStatus>>,
    stopped: Ghost<bool>,
}

impl NodeRun {
    /// The node events this execution has produced, in order.
    pub closed spec fn trace(&self) -> Seq<NodeEventKind> {
        self.trace@
    }

    pub closed spec fn is_finished(&self) -> bool {
        self.finished
    }

    pub closed spec fn is_waiting(&self) -> bool {
        self.waiting
    }

    pub closed spec fn timeout_view(&self) -> Option<u64> {
        self.timeout
    }

    pub closed spec fn interval_view(&self) -> u64 {
        self.interval
    }

    pub closed spec fn retries_left_view(&self) -> u64 {
        self.retries_left
    }

    /// The events so far follow `Running Retry*`, and end with one terminal
    /// event once the execution finished.
    /// The retries the node allows.
    pub closed spec fn budget(&self) -> nat {
        self.budget@
    }

    /// The statuses the attempts so far ended with.
    pub closed spec fn outcomes(&self) -> Seq<NodeExecutionStatus> {
        self.outcomes@
    }

    /// Whether the execution ended by shutdown.
    pub closed spec fn stopped_by_shutdown(&self) -> bool {
        self.stopped@
    }

    /// The events so far follow `Running Retry*`, with one terminal event once
    /// the execution finished; unless it was stopped by shutdown they are
    /// exactly the events the statuses of its attempts give (the `Retry` of a
    /// pending pause counted).
    pub closed spec fn wf(&self) -> bool {
        &&& if self.finished {
            finished_trace(self.trace@)
        } else {
            running_trace(self.trace@)
        }
        &&& !self.stopped@ ==> (if self.waiting {
            self.trace@.push(NodeEventKind::Retry)
        } else {
            self.trace@
        }) == execution_events(self.budget@, self.outcomes@)
        &&& !self.finished ==> !self.stopped@ && self.retries_left as nat + self.outcomes@.len() == self.budget@
            && forall|i: int| 0 <= i < self.outcomes@.len() ==> #[trigger] self.outcomes@[i] == NodeExecutionStatus::Failed
        &&& self.waiting ==> !self.finished && self.outcomes@.len() > 0
    }

    /// A running execution's events are those its attempts' statuses give.
    pub proof fn lemma_trace_follows_outcomes(&self)
        requires
            self.wf(),
        ensures
            !self.is_finished() && !self.is_waiting() ==> self.trace() == execution_events(self.budget(), self.outcomes()),
            self.is_waiting() ==> self.trace().push(NodeEventKind::Retry) == execution_events(self.budget(), self.outcomes()),
            self.is_finished() && !self.stopped_by_shutdown() ==> self.trace() == execution_events(
                self.budget(),
                self.outcomes(),
            ),
    {
    }

    /// Starts executing `node`: the first event is `Running(now)`.
    pub fn start(node: &Node, now: i64) -> (r: (NodeRun, NodeEvent))
        ensures
            r.0.wf(),
            !r.0.is_finished(),
            !r.0.is_waiting(),
            r.0.trace() == seq![NodeEventKind::Running],
            r.0.outcomes().len() == 0,
            !r.0.stopped_by_shutdown(),
            r.0.budget() == match node.retry {
                Some(c) => c.times as nat,
                None => 0nat,
            },
            r.0.retries_left_view() == match node.retry {
                Some(c) => c.times,
                None => 0,
            },
            r.1 == NodeEvent::Running(now),
            r.0.timeout_view() == node.timeout,
            r.0.interval_view() == match node.retry {
                Some(c) => c.interval,
                None => 0,
            },
    {
        let (times, interval) = match node.retry {
            Some(c) => (c.times, c.interval),
            None => (0, 0),
        };
        let ghost t0 = seq![NodeEventKind::Running];
        let ghost o0 = Seq::<NodeExecutionStatus>::empty();
        let run = NodeRun {
            retries_left: times,
            interval,
            timeout: node.timeout,
            waiting: false,
            finished: false,
            trace: Ghost(t0),
            budget: Ghost(times as nat),
            outcomes: Ghost(o0),
            stopped: Ghost(false),
        };
        proof {
            assert(execution_events(times as nat, o0) =~= t0);
        }
        (run, NodeEvent::Running(now))
    }

    /// The time limit to race an attempt against: none when the node has no
    /// timeout or a timeout of 0.
    pub fn attempt_timeout(&self) -> (r: Option<u64>)
        ensures
            r == match self.timeout_view() {
                Some(t) => if t == 0 {
                    None
                } else {
                    Some(t)
                },
                None => None,
            },
    {
        match self.timeout {
            Some(t) => if t == 0 {
                None
            } else {
                Some(t)
            },
            None => None,
        }
    }

    /// Decides after an attempt: a failure with retries left is retried
    /// (sleeping first unless the interval is 0); anything else finishes the
    /// execution with the event its status maps to.
    pub fn on_outcome(&mut self, result: NodeResult, now: i64) -> (r: WorkerStep)
        requires
            old(self).wf(),
            !old(self).is_finished(),
            !old(self).is_waiting(),
            result.status != NodeExecutionStatus::Pending,
        ensures
            final(self).wf(),
            result.status == NodeExecutionStatus::Failed && old(self).retries_left_view() > 0 ==> {
                &&& r matches WorkerStep::Retry { sleep_ms }
                &&& sleep_ms == if old(self).interval_view() == 0 {
                    None
                } else {
                    Some(old(self).interval_view())
                }
                &&& final(self).is_waiting()
                &&& !final(self).is_finished()
                &&& final(self).retries_left_view() == old(self).retries_left_view() - 1
                &&& final(self).trace() == old(self).trace()
            },
            final(self).interval_view() == old(self).interval_view(),
            final(self).timeout_view() == old(self).timeout_view(),
            final(self).outcomes() == old(self).outcomes().push(result.status),
            final(self).budget() == old(self).budget(),
            !final(self).stopped_by_shutdown(),
            !(result.status == NodeExecutionStatus::Failed && old(self).retries_left_view() > 0) ==> {
                &&& r matches WorkerStep::Finish { event, outputs }
                &&& final(self).is_finished()
                &&& final(self).trace() == old(self).trace().push(crate::events::node_event_kind(event))
                &&& (result.status == NodeExecutionStatus::Succeeded ==> event == NodeEvent::Succeeded(now)
                    && outputs == Some(result.outputs))
                &&& (result.status != NodeExecutionStatus::Succeeded ==> outputs is None)
                &&& (result.status == NodeExecutionStatus::Stopped ==> event == NodeEvent::Stopped(now))
                &&& (result.status == NodeExecutionStatus::Paused ==> event == NodeEvent::Paused(now))
                &&& (result.status == NodeExecutionStatus::Failed ==> (event matches NodeEvent::Error(
                    ErrorReason::Failed(m),
                ) && m@ == match result.error {
                    Some(e) => e@,
                    None => Seq::<char>::empty(),
                }))
                &&& (result.status == NodeExecutionStatus::Exception ==> (event matches NodeEvent::Error(
                    ErrorReason::Exception(m),
                ) && m@ == match result.exception {
                    Some(e) => e@,
                    None => Seq::<char>::empty(),
                }))
            },
    {
        let ghost os1 = self.outcomes@.push(result.status);
        proof {
            lemma_attempt_events_push(self.budget@, self.outcomes@, result.status);
        }
        self.outcomes = Ghost(os1);
        if result.status == NodeExecutionStatus::Failed && self.retries_left > 0 {
            self.retries_left = self.retries_left - 1;
            self.waiting = true;
            proof {
                assert(execution_events(self.budget@, self.outcomes@) =~= execution_events(
                    self.budget@,
                    old(self).outcomes@,
                ).push(NodeEventKind::Retry));
                assert forall|i: int| 0 <= i < self.outcomes@.len() implies #[trigger] self.outcomes@[i]
                    == NodeExecutionStatus::Failed by {
                    if i < old(self).outcomes@.len() {
                        assert(self.outcomes@[i] == old(self).outcomes@[i]);
                    }
                }
            }
            let sleep_ms = if self.interval == 0 {
                None
            } else {
                Some(self.interval)
            };
            return WorkerStep::Retry { sleep_ms };
        }
        let (event, outputs) = match result.status {
            NodeExecutionStatus::Succeeded => (NodeEvent::Succeeded(now), Some(result.outputs)),
            NodeExecutionStatus::Failed => {
                let m = match result.error {
                    Some(e) => e,
                    None => String::new(),
                };
                (NodeEvent::Error(ErrorReason::Failed(m)), None)
            },
            NodeExecutionStatus::Exception => {
                let m = match result.exception {
                    Some(e) => e,
                    None => String::new(),
                };
                (NodeEvent::Error(ErrorReason::Exception(m)), None)
            },
            NodeExecutionStatus::Stopped => (NodeEvent::Stopped(now), None),
            _ => (NodeEvent::Paused(now), None),
        };
        self.finished = true;
        let ghost t1 = self.trace@.push(crate::events::node_event_kind(event));
        self.trace = Ghost(t1);
        proof {
            assert(self.trace@.drop_last() =~= old(self).trace@);
            assert(crate::events::node_event_kind(event) == outcome_event(result.status));
            assert(execution_events(self.budget@, self.outcomes@) =~= execution_events(
                self.budget@,
                old(self).outcomes@,
            ).push(outcome_event(result.status)));
        }
        WorkerStep::Finish { event, outputs }
    }

    /// After the retry pause: the `Retry` event, before the next attempt.
    pub fn resume(&mut self) -> (r: NodeEvent)
        requires
            old(self).wf(),
            !old(self).is_finished(),
            old(self).is_waiting(),
        ensures
            final(self).wf(),
            !final(self).is_finished(),
            !final(self).is_waiting(),
            r == NodeEvent::Retry,
            final(self).trace() == old(self).trace().push(NodeEventKind::Retry),
            final(self).retries_left_view() == old(self).retries_left_view(),
            final(self).interval_view() == old(self).interval_view(),
            final(self).timeout_view() == old(self).timeout_view(),
            final(self).outcomes() == old(self).outcomes(),
            final(self).budget() == old(self).budget(),
            !final(self).stopped_by_shutdown(),
    {
        self.waiting = false;
        let ghost t1 = self.trace@.push(NodeEventKind::Retry);
        self.trace = Ghost(t1);
        NodeEvent::Retry
    }

    /// The process shut down while an attempt or a pause was pending: the
    /// execution ends `Stopped(now)`.
    pub fn on_shutdown(&mut self, now: i64) -> (r: NodeEvent)
        requires
            old(self).wf(),
            !old(self).is_finished(),
        ensures
            final(self).wf(),
            final(self).is_finished(),
            r == NodeEvent::Stopped(now),
            final(self).trace() == old(self).trace().push(NodeEventKind::Stopped),
            final(self).interval_view() == old(self).interval_view(),
            final(self).timeout_view() == old(self).timeout_view(),
            final(self).stopped_by_shutdown(),
            final(self).outcomes() == old(self).outcomes(),
    {
        self.finished = true;
        self.waiting = false;
        self.stopped = Ghost(true);
        let ghost t1 = self.trace@.push(NodeEventKind::Stopped);
        self.trace = Ghost(t1);
        proof {
            assert(self.trace@.drop_last() =~= old(self).trace@);
        }
        NodeEvent::Stopped(now)
    }
}

/// The events of a node execution always read `Running Retry*` and, once it
/// finished, one terminal event after them.
pub proof fn lemma_node_trace_shape(run: NodeRun)
    requires
        run.wf(),
    ensures
        run.trace().len() >= 1,
        run.trace()[0] == NodeEventKind::Running,
        !run.is_finished() ==> forall|i: int| 1 <= i < run.trace().len() ==> #[trigger] run.trace()[i]
            == NodeEventKind::Retry,
        run.is_finished() ==> {
            &&& forall|i: int| 1 <= i < run.trace().len() - 1 ==> #[trigger] run.trace()[i] == NodeEventKind::Retry
            &&& (run.trace().last() == NodeEventKind::Succeeded || run.trace().last() == NodeEventKind::Error
                || run.trace().last() == NodeEventKind::Stopped || run.trace().last() == NodeEventKind::Paused)
        },
{
    if run.is_finished() {
        let t = run.trace();
        assert forall|i: int| 1 <= i < t.len() - 1 implies #[trigger] t[i] == NodeEventKind::Retry by {
            assert(t.drop_last()[i] == t[i]);
        }
        assert(t.drop_last()[0] == t[0]);
    }
}


/// Commands a process sends its dispatcher.
#[derive(Debug, Clone, Copy, PartialEq, Eq, Structural)]
pub enum WorkflowCommand {
    Start,
    Abort,
}

/// What the dispatcher asks its caller to do, in order.
#[derive(Debug)]
pub enum DispatchAction {
    /// Publish the message on the channel.
    Publish(Message),
    /// Start a worker for the node with this id (already marked taken).
    Spawn(String),
    /// Raise the process's shutdown signal.
    Shutdown,
}

/// The action publishes an event that ends the workflow.
pub open spec fn ends_process(a: DispatchAction) -> bool {
    match a {
        DispatchAction::Publish(m) => match m.event {
            GraphEvent::Workflow(w) => ends_workflow(w),
            _ => false,
        },
        _ => false,
    }
}

/// How many actions of `s` publish an event that ends the workflow.
pub open spec fn count_ending(s: Seq<DispatchAction>) -> nat
    decreases s.len(),
{
    if s.len() == 0 {
        0
    } else {
        count_ending(s.drop_last()) + if ends_process(s.last()) {
            1nat
        } else {
            0nat
        }
    }
}

pub open spec fn spawns_none(s: Seq<DispatchAction>) -> bool {
    forall|i: int| 0 <= i < s.len() ==> !(#[trigger] s[i] is Spawn)
}

proof fn lemma_push_action(s: Seq<DispatchAction>, a: DispatchAction)
    ensures
        count_ending(s.push(a)) == count_ending(s) + if ends_process(a) {
            1nat
        } else {
            0nat
        },
        spawns_none(s) && !(a is Spawn) ==> spawns_none(s.push(a)),
{
    assert(s.push(a).drop_last() =~= s);
    if spawns_none(s) && !(a is Spawn) {
        assert forall|i: int| 0 <= i < s.push(a).len() implies !(#[trigger] s.push(a)[i] is Spawn) by {
            if i < s.len() {
                assert(s.push(a)[i] == s[i]);
            }
        }
    }
}

/// Node `k` is the root: the first node, in definition order, that no edge
/// enters.
pub open spec fn is_root(w: Workflow, k: int) -> bool {
    0 <= k < w.node_count() && !w.has_incoming(k) && forall|i: int| 0 <= i < k ==> #[trigger] w.has_incoming(i)
}

/// The ids of all nodes, in definition order.
pub open spec fn all_node_ids(w: Workflow) -> Seq<Seq<char>> {
    Seq::new(w.node_count(), |k: int| w.node_at(k).id@)
}

pub open spec fn aborted_reason() -> Seq<char> {
    seq!['A', 'b', 'o', 'r', 't', 'e', 'd', ' ', 'b', 'y', ' ', 'c', 'o', 'm', 'm', 'a', 'n', 'd']
}

/// The action publishes node event `e` for node `nid` of process `pid`.
pub open spec fn publishes_node(a: DispatchAction, pid: Seq<char>, nid: Seq<char>, e: NodeEvent) -> bool {
    a matches DispatchAction::Publish(m) && m.pid@ == pid && m.nid@ == nid && m.event == GraphEvent::Node(e)
}

/// The action spawns a worker for node `id`.
pub open spec fn spawns(a: DispatchAction, id: Seq<char>) -> bool {
    a matches DispatchAction::Spawn(x) && x@ == id
}

/// The action publishes the start event of process `pid` listing `ids`.
pub open spec fn publishes_start(a: DispatchAction, pid: Seq<char>, ids: Seq<Seq<char>>) -> bool {
    a matches DispatchAction::Publish(m) && m.pid@ == pid && m.nid@.len() == 0 && (m.event matches GraphEvent::Workflow(
        WorkflowEvent::Start(s),
    ) && s.node_ids@.map_values(|x: String| x@) == ids)
}

/// The action publishes the abort of process `pid`.
pub open spec fn publishes_aborted(a: DispatchAction, pid: Seq<char>) -> bool {
    a matches DispatchAction::Publish(m) && m.pid@ == pid && (m.event matches GraphEvent::Workflow(
        WorkflowEvent::Aborted(ab),
    ) && ab.reason@ == aborted_reason() && ab.outputs@.len() == 0)
}

/// The action publishes the failure of process `pid` with message `msg`.
pub open spec fn publishes_failed(a: DispatchAction, pid: Seq<char>, msg: Seq<char>) -> bool {
    a matches DispatchAction::Publish(m) && m.pid@ == pid && (m.event matches GraphEvent::Workflow(
        WorkflowEvent::Failed(f),
    ) && f.error@ == msg)
}

/// The action publishes the success of process `pid`.
pub open spec fn publishes_succeeded(a: DispatchAction, pid: Seq<char>) -> bool {
    a matches DispatchAction::Publish(m) && m.pid@ == pid && (m.event matches GraphEvent::Workflow(w) && w is Succeeded)
}

/// The handle a completed node `nid` selects with stored outputs `vars`: a
/// branching node's `selected` output, if it names one.
pub open spec fn branch_handle(w: Workflow, nid: Seq<char>, vars: Vars) -> Option<HandleView> {
    if exists|k: int| #[trigger] w.names_node(k, nid) && w.node_at(k).uses == ActionType::IfElse {
        selected_handle_of(vars@)
    } else {
        None
    }
}

/// The handle whose edges a completed node follows.
pub open spec fn followed_handle(w: Workflow, nid: Seq<char>, vars: Vars) -> HandleView {
    match branch_handle(w, nid, vars) {
        Some(h) => h,
        None => HandleView::Fixed(FixedHandle::Source),
    }
}

/// The successors of `nid` ready by handle `h`, each once, in edge order.
pub open spec fn ready_after(w: Workflow, nid: Seq<char>, h: HandleView) -> Seq<Seq<char>> {
    if w.has_node(nid) {
        w.ready_ids(choose|k: int| w.names_node(k, nid), h, w.edge_count() as int)
    } else {
        seq![]
    }
}

/// What handling the success of node `nid` did, going from `d0` to `d1` with
/// actions `r`: `wx` is the graph once `nid` is executed, `wm` the graph once
/// the unselected branches of a branching node are skipped (`sk` lists the
/// nodes skipped). One `Skipped` event follows per skipped node; then either
/// the ready successors are marked taken and spawned, or, when there are
/// none and every node is executed or skipped, the workflow succeeds.
pub open spec fn success_step(
    d0: Dispatcher,
    d1: Dispatcher,
    nid: Seq<char>,
    r: Seq<DispatchAction>,
    wx: Workflow,
    wm: Workflow,
    sk: Seq<(String, String)>,
) -> bool {
    let w = d0.workflow_view();
    let pid = d0.context_view().pid_view();
    let vars = lookup(d1.context_view().outputs_view(), nid)->Some_0;
    let h = followed_handle(w, nid, vars);
    let ready = ready_after(wm, nid, h);
    &&& wx.node_marked(&w, nid, NodeState::Executed)
    &&& (branch_handle(w, nid, vars) matches Some(hb) ==> wm.unselected_skipped(&wx, nid, hb, sk))
    &&& (branch_handle(w, nid, vars) is None ==> wm == wx && sk.len() == 0)
    &&& r.len() >= 1 + sk.len()
    &&& forall|i: int| 0 <= i < sk.len() ==> publishes_node(r[1 + i], pid, (#[trigger] sk[i]).0@, NodeEvent::Skipped)
    &&& if ready.len() == 0 && wm.all_terminal() {
        &&& r.len() == 2 + sk.len()
        &&& publishes_succeeded(r.last(), pid)
        &&& d1.complete()
        &&& d1.endings() == 1
        &&& d1.context_view().is_done_view()
        &&& d1.workflow_view() == wm
    } else {
        &&& r.len() == 1 + sk.len() + ready.len()
        &&& forall|j: int| 0 <= j < ready.len() ==> spawns(r[1 + sk.len() + j], #[trigger] ready[j])
        &&& forall|a: int, b: int| 0 <= a < b < ready.len() ==> #[trigger] ready[a] != #[trigger] ready[b]
        &&& !d1.complete()
        &&& d1.endings() == 0
        &&& d1.workflow_view().wf()
        &&& d1.workflow_view().same_topology(&wm)
        &&& d1.workflow_view().same_edge_states(&wm)
        &&& forall|k: int|
            0 <= k < wm.node_count() ==> #[trigger] d1.workflow_view().node_state(k) == if ready.contains(
                wm.node_at(k).id@,
            ) {
                advance(wm.node_state(k), NodeState::Taken)
            } else {
                wm.node_state(k)
            }
    }
}

/// The scheduler of one workflow execution.
pub struct Dispatcher {
    ctx: Context,
    workflow: Workflow,
    terminated: bool,
    halted: bool,
    endings: Ghost<nat>,
}

impl Dispatcher {
    pub closed spec fn context_view(&self) -> Context {
        self.ctx
    }

    pub closed spec fn workflow_view(&self) -> Workflow {
        self.workflow
    }

    /// How many events ending the workflow were published.
    pub closed spec fn endings(&self) -> nat {
        self.endings@
    }

    pub closed spec fn complete(&self) -> bool {
        self.terminated || self.halted
    }

    /// At most one ending event was published, and every executed node has
    /// outputs in the context.
    pub closed spec fn wf(&self) -> bool {
        &&& self.workflow.wf()
        &&& self.endings@ == if self.terminated {
            1nat
        } else {
            0nat
        }
        &&& forall|k: int|
            0 <= k < self.workflow.node_count() && #[trigger] self.workflow.node_state(k) == NodeState::Executed
                ==> lookup(self.ctx.outputs_view(), self.workflow.node_at(k).id@) is Some
    }

    /// A dispatcher for `workflow`, none of whose nodes has executed yet.
    pub fn new(ctx: Context, workflow: Workflow) -> (r: Dispatcher)
        requires
            workflow.wf(),
            forall|k: int| 0 <= k < workflow.node_count() ==> #[trigger] workflow.node_state(k) != NodeState::Executed,
        ensures
            r.wf(),
            !r.complete(),
            r.endings() == 0,
            r.context_view() == ctx,
            r.workflow_view() == workflow,
    {
        Dispatcher { ctx, workflow, terminated: false, halted: false, endings: Ghost(0) }
    }

    /// Whether the execution ended: a terminal event was published or the
    /// dispatcher was stopped.
    pub fn is_complete(&self) -> (r: bool)
        ensures
            r == self.complete(),
    {
        self.terminated || self.halted
    }

    /// Stops the dispatcher: it handles nothing more.
    pub fn stop(&mut self)
        requires
            old(self).wf(),
        ensures
            final(self).wf(),
            final(self).complete(),
            final(self).endings() == old(self).endings(),
    {
        self.halted = true;
    }

    pub fn context(&self) -> (r: &Context)
        ensures
            *r == self.context_view(),
    {
        &self.ctx
    }

    pub fn workflow(&self) -> (r: &Workflow)
        ensures
            *r == self.workflow_view(),
    {
        &self.workflow
    }

    fn message(&self, nid: String, event: GraphEvent) -> (r: Message)
        ensures
            r.event == event,
            r.nid == nid,
            r.pid@ == self.ctx.pid_view(),
    {
        Message { pid: self.ctx.pid(), nid, event }
    }

    /// Handles a command. `Start` publishes the start event with every node
    /// id and spawns the root, if the root has not run yet; `Abort` publishes
    /// the abort and raises shutdown. A complete dispatcher does nothing.
    pub fn handle_command(&mut self, cmd: WorkflowCommand) -> (r: Vec<DispatchAction>)
        requires
            old(self).wf(),
        ensures
            command_handled(*old(self), *final(self), cmd, r@),
    {
        let mut out: Vec<DispatchAction> = Vec::new();
        if self.terminated || self.halted {
            return out;
        }
        match cmd {
            WorkflowCommand::Start => {
                let ghost w = self.workflow;
                match self.workflow.get_root_node() {
                    Some(root) => {
                        let ghost kr = choose|k: int|
                            0 <= k < w.node_count() && !w.has_incoming(k) && root == w.node_snapshot(k)
                                && forall|i: int| 0 <= i < k ==> #[trigger] w.has_incoming(i);
                        proof {
                            assert(is_root(w, kr));
                            assert forall|k: int| #[trigger] is_root(w, k) implies k == kr by {
                                if k < kr {
                                    assert(w.has_incoming(k));
                                } else if kr < k {
                                    assert(w.has_incoming(kr));
                                }
                            }
                        }
                        if root.status == NodeState::Unknown {
                            let node_ids = self.workflow.get_all_node_ids();
                            proof {
                                assert(node_ids@.map_values(|x: String| x@) =~= all_node_ids(w));
                            }
                            let m = self.message(
                                String::new(),
                                GraphEvent::Workflow(WorkflowEvent::Start(WorkflowStartEvent { node_ids })),
                            );
                            proof {
                                lemma_push_action(out@, DispatchAction::Publish(m));
                            }
                            out.push(DispatchAction::Publish(m));
                            let ghost w0 = self.workflow;
                            self.workflow.mark_node_taken(&root.id);
                            proof {
                                self.lemma_marked_keeps_outputs(w0);
                                lemma_push_action(out@, DispatchAction::Spawn(root.id));
                            }
                            out.push(DispatchAction::Spawn(root.id));
                        } else {
                            proof {
                                assert(!(exists|k: int| #[trigger] is_root(w, k) && w.node_state(k) == NodeState::Unknown));
                            }
                        }
                    },
                    None => {
                        proof {
                            assert forall|k: int| !(#[trigger] is_root(w, k)) by {
                                if 0 <= k < w.node_count() {
                                    assert(w.has_incoming(k));
                                }
                            }
                        }
                    },
                }
            },
            WorkflowCommand::Abort => {
                proof {
                    reveal_strlit("Aborted by command");
                    assert("Aborted by command"@ =~= aborted_reason());
                }
                let ev = WorkflowAbortedEvent { reason: "Aborted by command".to_owned(), outputs: Vec::new() };
                let m = self.message(String::new(), GraphEvent::Workflow(WorkflowEvent::Aborted(ev)));
                proof {
                    lemma_push_action(out@, DispatchAction::Publish(m));
                }
                out.push(DispatchAction::Publish(m));
                proof {
                    lemma_push_action(out@, DispatchAction::Shutdown);
                }
                out.push(DispatchAction::Shutdown);
                self.terminated = true;
                self.endings = Ghost(1nat);
            },
        }
        out
    }

    /// Marking nodes taken keeps every executed node's outputs in place.
    proof fn lemma_marked_keeps_outputs(&self, w0: Workflow)
        requires
            w0.wf(),
            exists|id: Seq<char>| #[trigger] self.workflow.node_marked(&w0, id, NodeState::Taken),
            forall|k: int|
                0 <= k < w0.node_count() && #[trigger] w0.node_state(k) == NodeState::Executed
                    ==> lookup(self.ctx.outputs_view(), w0.node_at(k).id@) is Some,
        ensures
            forall|k: int|
                0 <= k < self.workflow.node_count() && #[trigger] self.workflow.node_state(k) == NodeState::Executed
                    ==> lookup(self.ctx.outputs_view(), self.workflow.node_at(k).id@) is Some,
    {
        let id = choose|id: Seq<char>| #[trigger] self.workflow.node_marked(&w0, id, NodeState::Taken);
        assert forall|k: int|
            0 <= k < self.workflow.node_count() && #[trigger] self.workflow.node_state(k) == NodeState::Executed
                implies lookup(self.ctx.outputs_view(), self.workflow.node_at(k).id@) is Some by {
            assert(self.workflow.node_at(k) == w0.node_at(k));
            assert(w0.node_state(k) == NodeState::Executed);
        }
    }
}


impl Dispatcher {
    /// Handles the completion event of node `nid` (with the outputs of a
    /// success). The event is republished. On success the outputs are stored,
    /// the node is marked executed, a branching node's unselected branches are
    /// skipped (publishing `Skipped` for each node skipped), and the ready
    /// successors are marked taken and spawned; when none is ready and every
    /// node is executed or skipped, the workflow succeeds. On an error the
    /// workflow fails with the error's message and shutdown is raised. Any
    /// other event changes nothing more. A complete dispatcher does nothing.
    pub fn handle_completion(&mut self, nid: String, event: NodeEvent, outputs: Option<Vars>) -> (r: Vec<
        DispatchAction,
    >)
        requires
            old(self).wf(),
        ensures
            completion_handled(*old(self), *final(self), nid@, event, outputs, r@),
    {
        let mut out: Vec<DispatchAction> = Vec::new();
        if self.terminated || self.halted {
            return out;
        }
        let ghost d0 = *self;
        let ghost pid = self.ctx.pid_view();
        let ghost ev = event;
        let is_success = match &event {
            NodeEvent::Succeeded(_) => true,
            _ => false,
        };
        let failure = match &event {
            NodeEvent::Error(reason) => Some(reason.message()),
            _ => None,
        };
        let m = self.message(nid.clone(), GraphEvent::Node(event));
        proof {
            lemma_push_action(out@, DispatchAction::Publish(m));
        }
        out.push(DispatchAction::Publish(m));
        match failure {
            Some(error) => {
                let m = self.message(
                    nid,
                    GraphEvent::Workflow(WorkflowEvent::Failed(WorkflowFailedEvent { error })),
                );
                proof {
                    lemma_push_action(out@, DispatchAction::Publish(m));
                }
                out.push(DispatchAction::Publish(m));
                proof {
                    lemma_push_action(out@, DispatchAction::Shutdown);
                }
                out.push(DispatchAction::Shutdown);
                self.terminated = true;
                self.endings = Ghost(1nat);
                return out;
            },
            None => {},
        }
        if !is_success {
            return out;
        }
        let vars = match outputs {
            Some(v) => v,
            None => Vars::new(),
        };
        self.ctx.add_output(nid.clone(), vars);
        let ghost w = self.workflow;
        self.workflow.mark_node_executed(&nid);
        let ghost wx = self.workflow;
        proof {
            assert forall|k: int|
                0 <= k < self.workflow.node_count() && #[trigger] self.workflow.node_state(k) == NodeState::Executed
                    implies lookup(self.ctx.outputs_view(), self.workflow.node_at(k).id@) is Some by {
                assert(self.workflow.node_at(k) == w.node_at(k));
                if !w.names_node(k, nid@) {
                    assert(w.node_state(k) == NodeState::Executed);
                }
            }
        }
        let ghost stored = lookup(self.ctx.outputs_view(), nid@)->Some_0;
        let ghost c1 = self.ctx;
        let mut handle = SourceHandle::source();
        let found = self.workflow.get_node(&nid);
        let is_branch = match &found {
            Some(node) => node.uses == ActionType::IfElse,
            None => false,
        };
        proof {
            if is_branch {
                let k = choose|k: int| wx.names_node(k, nid@) && wx.node_at(k).uses == ActionType::IfElse;
                assert(wx.node_at(k) == w.node_at(k));
                assert(w.names_node(k, nid@));
            } else {
                wx.lemma_wf();
                assert forall|k: int| #[trigger] w.names_node(k, nid@) implies w.node_at(k).uses != ActionType::IfElse by {
                    assert(wx.node_at(k) == w.node_at(k));
                    assert(wx.names_node(k, nid@));
                    if let Some(node) = found {
                        let k2 = choose|k2: int| wx.names_node(k2, nid@) && node == wx.node_snapshot(k2);
                        if k2 != k {
                            assert(wx.node_at(k2).id@ != wx.node_at(k).id@);
                        }
                    }
                }
            }
        }
        let mut skipped: Vec<(String, String)> = Vec::new();
        if is_branch {
            let selected = match self.ctx.get_output(&nid) {
                Some(v) => selected_handle(v),
                None => None,
            };
            match selected {
                Some(h) => {
                    skipped = self.workflow.skip_unselected_branches(&nid, &h);
                    let ghost w1 = self.workflow;
                    proof {
                        assert forall|k: int|
                            0 <= k < self.workflow.node_count() && #[trigger] self.workflow.node_state(k)
                                == NodeState::Executed implies lookup(
                                self.ctx.outputs_view(),
                                self.workflow.node_at(k).id@,
                            ) is Some by {
                            assert(self.workflow.node_at(k) == wx.node_at(k));
                            assert(wx.node_state(k) == NodeState::Executed);
                        }
                    }
                    handle = h;
                },
                None => {},
            }
        }
        let ghost wm = self.workflow;
        let ghost sk = skipped@;
        proof {
            assert(branch_handle(d0.workflow_view(), nid@, stored) is None ==> wm == wx && sk.len() == 0);
            assert(handle@ == followed_handle(d0.workflow_view(), nid@, stored));
        }
        let mut i: usize = 0;
        while i < skipped.len()
            invariant
                self.wf(),
                !self.terminated,
                !self.halted,
                self.ctx.pid_view() == pid,
                self.workflow == wm,
                self.ctx == c1,
                self.endings@ == 0,
                skipped@ == sk,
                i <= sk.len(),
                out@.len() == 1 + i,
                publishes_node(out@[0], pid, nid@, ev),
                forall|q: int| 0 <= q < i ==> publishes_node(out@[1 + q], pid, (#[trigger] sk[q]).0@, NodeEvent::Skipped),
                count_ending(out@) == 0,
                spawns_none(out@),
            decreases sk.len() - i,
        {
            let m = self.message(skipped[i].0.clone(), GraphEvent::Node(NodeEvent::Skipped));
            proof {
                lemma_push_action(out@, DispatchAction::Publish(m));
            }
            out.push(DispatchAction::Publish(m));
            i = i + 1;
        }
        let ghost base = out@;
        let next = self.workflow.get_next_ready_node(&nid, &EdgeSelectOptions { source_handle: handle });
        let all_done = self.workflow.is_all_node_executed();
        proof {
            let ready = ready_after(wm, nid@, handle@);
            if wm.has_node(nid@) {
                let k = choose|k: int| wm.names_node(k, nid@);
                assert(wm.names_node(k, nid@));
                lemma_ready_ids_distinct(wm, k, handle@, wm.edge_count() as int);
            }
            assert(next@.map_values(|s: String| s@) =~= ready);
        }
        if next.len() == 0 && all_done {
            let m = self.message(nid, GraphEvent::Workflow(WorkflowEvent::Succeeded));
            proof {
                lemma_push_action(out@, DispatchAction::Publish(m));
            }
            out.push(DispatchAction::Publish(m));
            self.ctx.done();
            self.terminated = true;
            self.endings = Ghost(1nat);
            proof {
                assert(success_step(d0, *self, nid@, out@, wx, wm, sk));
            }
            return out;
        }
        let ghost ready = next@.map_values(|s: String| s@);
        let mut j: usize = 0;
        while j < next.len()
            invariant
                self.wf(),
                !self.terminated,
                !self.halted,
                self.ctx.pid_view() == pid,
                self.ctx == c1,
                self.endings@ == 0,
                wm.wf(),
                ready == next@.map_values(|s: String| s@),
                j <= next@.len(),
                out@.len() == base.len() + j,
                forall|q: int| 0 <= q < base.len() ==> #[trigger] out@[q] == base[q],
                forall|q: int| 0 <= q < j ==> spawns(out@[base.len() + q], #[trigger] ready[q]),
                count_ending(out@) == 0,
                self.workflow.wf(),
                self.workflow.same_topology(&wm),
                self.workflow.same_edge_states(&wm),
                forall|k: int|
                    0 <= k < wm.node_count() ==> #[trigger] self.workflow.node_state(k) == if ready.subrange(0, j as int).contains(
                        wm.node_at(k).id@,
                    ) {
                        advance(wm.node_state(k), NodeState::Taken)
                    } else {
                        wm.node_state(k)
                    },
            decreases next@.len() - j,
        {
            let ghost w2 = self.workflow;
            self.workflow.mark_node_taken(&next[j]);
            let id = next[j].clone();
            proof {
                assert(self.workflow.node_marked(&w2, id@, NodeState::Taken));
                self.lemma_marked_keeps_outputs(w2);
                lemma_push_action(out@, DispatchAction::Spawn(id));
                assert(ready[j as int] == id@);
                assert forall|k: int| 0 <= k < wm.node_count() implies #[trigger] self.workflow.node_state(k)
                    == if ready.subrange(0, j + 1).contains(wm.node_at(k).id@) {
                    advance(wm.node_state(k), NodeState::Taken)
                } else {
                    wm.node_state(k)
                } by {
                    assert(w2.node_at(k) == wm.node_at(k));
                    lemma_push_contains(ready.subrange(0, j as int), id@);
                    assert(ready.subrange(0, j + 1) =~= ready.subrange(0, j as int).push(id@));
                    let _ = w2.node_state(k);
                }
                assert forall|jj: int| 0 <= jj < self.workflow.edge_count() implies #[trigger] self.workflow.edge_state(jj)
                    == wm.edge_state(jj) by {
                    let _ = w2.edge_state(jj);
                }
                assert(self.workflow.same_topology(&wm)) by {
                    assert forall|k: int| 0 <= k < self.workflow.node_count() implies #[trigger] self.workflow.node_at(k)
                        == wm.node_at(k) by {
                        assert(w2.node_at(k) == wm.node_at(k));
                    }
                    assert forall|e: int| 0 <= e < self.workflow.edge_count() implies {
                        &&& #[trigger] self.workflow.edge_at(e) == wm.edge_at(e)
                        &&& self.workflow.source_of(e) == wm.source_of(e)
                        &&& self.workflow.target_of(e) == wm.target_of(e)
                    } by {
                        assert(w2.edge_at(e) == wm.edge_at(e));
                    }
                }
            }
            out.push(DispatchAction::Spawn(id));
            j = j + 1;
        }
        proof {
            assert(ready.subrange(0, next@.len() as int) =~= ready);
            assert(success_step(d0, *self, nid@, out@, wx, wm, sk));
        }
        out
    }
}

/// What handling command `cmd` did, going from `d0` to `d1` with actions `r`.
pub open spec fn command_handled(d0: Dispatcher, d1: Dispatcher, cmd: WorkflowCommand, r: Seq<DispatchAction>) -> bool {
    &&& d1.wf()
    &&& d1.endings() == d0.endings() + count_ending(r)
    &&& d1.endings() <= 1
    &&& d0.complete() ==> r.len() == 0 && d1 == d0
    &&& d1.complete() ==> spawns_none(r)
    &&& cmd == WorkflowCommand::Abort ==> d1.complete()
    &&& d0.complete() ==> d1.complete()
    &&& !d0.complete() && cmd == WorkflowCommand::Start ==> {
        let w = d0.workflow_view();
        let pid = d0.context_view().pid_view();
        &&& d1.context_view() == d0.context_view()
        &&& !d1.complete()
        &&& d1.endings() == 0
        &&& (forall|k: int|
            #![trigger is_root(w, k)]
            is_root(w, k) && w.node_state(k) == NodeState::Unknown ==> {
                &&& r.len() == 2
                &&& publishes_start(r[0], pid, all_node_ids(w))
                &&& spawns(r[1], w.node_at(k).id@)
                &&& d1.workflow_view().node_marked(&w, w.node_at(k).id@, NodeState::Taken)
            })
        &&& (!(exists|k: int| #[trigger] is_root(w, k) && w.node_state(k) == NodeState::Unknown) ==> r.len()
            == 0 && d1 == d0)
    }
    &&& !d0.complete() && cmd == WorkflowCommand::Abort ==> {
        &&& r.len() == 2
        &&& publishes_aborted(r[0], d0.context_view().pid_view())
        &&& r[1] is Shutdown
        &&& d1.endings() == 1
        &&& d1.workflow_view() == d0.workflow_view()
        &&& d1.context_view() == d0.context_view()
    }
}

/// What handling the completion `event` of node `nid`, with `outputs`, did,
/// going from `d0` to `d1` with actions `r`.
pub open spec fn completion_handled(
    d0: Dispatcher,
    d1: Dispatcher,
    nid: Seq<char>,
    event: NodeEvent,
    outputs: Option<Vars>,
    r: Seq<DispatchAction>,
) -> bool {
    &&& d1.wf()
    &&& d1.endings() == d0.endings() + count_ending(r)
    &&& d1.endings() <= 1
    &&& d0.complete() ==> r.len() == 0 && d1 == d0
    &&& d1.complete() ==> spawns_none(r)
    &&& event is Error && !d0.complete() ==> d1.complete()
    &&& d0.complete() ==> d1.complete()
    &&& !d0.complete() ==> r.len() >= 1 && publishes_node(r[0], d0.context_view().pid_view(), nid, event)
    &&& !d0.complete() && event is Error ==> {
        &&& r.len() == 3
        &&& publishes_failed(r[1], d0.context_view().pid_view(), reason_message(event->Error_0))
        &&& r[2] is Shutdown
        &&& d1.endings() == 1
        &&& d1.workflow_view() == d0.workflow_view()
        &&& d1.context_view() == d0.context_view()
    }
    &&& !d0.complete() && !(event is Error) && !(event is Succeeded) ==> r.len() == 1 && d1
        == d0
    &&& !d0.complete() && event is Succeeded ==> {
        &&& (outputs matches Some(v) ==> lookup(d1.context_view().outputs_view(), nid) == Some(v))
        &&& (outputs is None ==> (lookup(d1.context_view().outputs_view(), nid) matches Some(v)
            && v@.len() == 0))
        &&& forall|k: Seq<char>|
            k != nid ==> #[trigger] lookup(d1.context_view().outputs_view(), k) == lookup(
                d0.context_view().outputs_view(),
                k,
            )
        &&& d1.context_view().env_view() == d0.context_view().env_view()
        &&& d1.context_view().pid_view() == d0.context_view().pid_view()
        &&& exists|wx: Workflow, wm: Workflow, sk: Seq<(String, String)>|
            #[trigger] success_step(d0, d1, nid, r, wx, wm, sk)
    }
}

/// At most one event ending the workflow is ever published by a dispatcher:
/// none before it completes on its own, exactly one after.
pub proof fn lemma_at_most_one_ending(d: Dispatcher)
    requires
        d.wf(),
    ensures
        d.endings() <= 1,
        d.endings() == 1 ==> d.complete(),
{
}

/// Every node that a dispatcher marked executed has its outputs in the
/// context.
pub proof fn lemma_executed_nodes_have_outputs(d: Dispatcher)
    requires
        d.wf(),
    ensures
        forall|k: int|
            0 <= k < d.workflow_view().node_count() && #[trigger] d.workflow_view().node_state(k)
                == NodeState::Executed ==> lookup(d.context_view().outputs_view(), d.workflow_view().node_at(k).id@)
                is Some,
{
}

} // verus!
