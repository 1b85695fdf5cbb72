use actflow::action::{if_else_outcome, ActionOutput, ActionType, NodeExecutionStatus, NodeResult};
use actflow::dispatch::{DispatchAction, Dispatcher, NodeRun, WorkerStep, WorkflowCommand};
use actflow::events::{ErrorReason, GraphEvent, NodeEvent, WorkflowEvent};
use actflow::graph::Workflow;
use actflow::json::{JsonValue, Vars};
use actflow::model::{EdgeModel, NodeModel, WorkflowModel};
use actflow::node::{Node, NodeState, RetryConfig};
use actflow::template::Context;

fn node(id: &str, uses: ActionType) -> NodeModel {
    NodeModel {
        id: id.to_string(),
        title: id.to_string(),
        desc: String::new(),
        uses,
        error_strategy: None,
        retry: None,
        timeout: None,
    }
}

fn edge(id: &str, source: &str, target: &str, handle: &str) -> EdgeModel {
    EdgeModel {
        id: id.to_string(),
        source: source.to_string(),
        target: target.to_string(),
        source_handle: handle.to_string(),
    }
}

fn model(nodes: Vec<NodeModel>, edges: Vec<EdgeModel>) -> WorkflowModel {
    WorkflowModel { id: "wf".to_string(), name: "wf".to_string(), desc: String::new(), env: vec![], nodes, edges }
}

fn describe(actions: &[DispatchAction]) -> Vec<String> {
    actions
        .iter()
        .map(|a| match a {
            DispatchAction::Publish(m) => match &m.event {
                GraphEvent::Workflow(w) => format!("workflow:{}", w.str()),
                GraphEvent::Node(e) => format!("{}:{}", m.nid, e.str()),
            },
            DispatchAction::Spawn(id) => format!("spawn:{}", id),
            DispatchAction::Shutdown => "shutdown".to_string(),
        })
        .collect()
}

fn dispatcher(m: &WorkflowModel) -> Dispatcher {
    let wf = Workflow::from_model(m).unwrap();
    Dispatcher::new(Context::new("proc-a".to_string()), wf)
}

#[test]
fn scenario_two_node_success() {
    let m = model(
        vec![node("start", ActionType::Start), node("end", ActionType::HttpRequest)],
        vec![edge("e1", "start", "end", "source")],
    );
    let mut d = dispatcher(&m);
    let mut all = describe(&d.handle_command(WorkflowCommand::Start));
    all.extend(describe(&d.handle_completion("start".to_string(), NodeEvent::Succeeded(1), Some(Vars::new()))));
    let mut out = Vars::new();
    out.set("status_code", JsonValue::Number("200".to_string()));
    out.set("body", JsonValue::Str("ok".to_string()));
    out.set("headers", JsonValue::Object(vec![]));
    all.extend(describe(&d.handle_completion("end".to_string(), NodeEvent::Succeeded(2), Some(out))));
    assert_eq!(
        all,
        vec!["workflow:Running", "spawn:start", "start:Succeeded", "spawn:end", "end:Succeeded", "workflow:Succeeded"]
    );
    assert!(d.is_complete());
    match d.context().get_output(&"end".to_string()).unwrap().get("status_code") {
        Some(JsonValue::Number(n)) => assert_eq!(n, "200"),
        _ => panic!("missing status_code"),
    }
}

#[test]
fn start_event_lists_every_node() {
    let m = model(
        vec![node("start", ActionType::Start), node("end", ActionType::HttpRequest)],
        vec![edge("e1", "start", "end", "source")],
    );
    let mut d = dispatcher(&m);
    let actions = d.handle_command(WorkflowCommand::Start);
    match &actions[0] {
        DispatchAction::Publish(msg) => match &msg.event {
            GraphEvent::Workflow(WorkflowEvent::Start(s)) => assert_eq!(s.node_ids, vec!["start", "end"]),
            _ => panic!("not a start event"),
        },
        _ => panic!("not a publish"),
    }
}

#[test]
fn scenario_if_else_selects_true_branch() {
    let m = model(
        vec![
            node("start", ActionType::Start),
            node("cond", ActionType::IfElse),
            node("a", ActionType::Start),
            node("b", ActionType::Start),
        ],
        vec![edge("e1", "start", "cond", "source"), edge("e2", "cond", "a", "true"), edge("e3", "cond", "b", "false")],
    );
    let mut d = dispatcher(&m);
    d.handle_command(WorkflowCommand::Start);
    d.handle_completion("start".to_string(), NodeEvent::Succeeded(1), Some(Vars::new()));
    let outcome = if_else_outcome(&vec!["true".to_string()], &vec![true]);
    let actions = describe(&d.handle_completion("cond".to_string(), NodeEvent::Succeeded(2), Some(outcome.outputs)));
    assert_eq!(actions, vec!["cond:Succeeded", "b:Skipped", "spawn:a"]);
    let actions = describe(&d.handle_completion("a".to_string(), NodeEvent::Succeeded(3), Some(Vars::new())));
    assert_eq!(actions, vec!["a:Succeeded", "workflow:Succeeded"]);
    let w = d.workflow();
    assert_eq!(w.get_node_state(&"start".to_string()), Some(NodeState::Executed));
    assert_eq!(w.get_node_state(&"cond".to_string()), Some(NodeState::Executed));
    assert_eq!(w.get_node_state(&"a".to_string()), Some(NodeState::Executed));
    assert_eq!(w.get_node_state(&"b".to_string()), Some(NodeState::Skipped));
}

#[test]
fn if_else_without_match_follows_false_branch() {
    let outcome = if_else_outcome(&vec!["c1".to_string(), "c2".to_string()], &vec![false, false]);
    match outcome.outputs.get("selected") {
        Some(JsonValue::Str(s)) => assert_eq!(s, "false"),
        _ => panic!("missing selected"),
    }
    match outcome.outputs.get("result") {
        Some(JsonValue::Bool(b)) => assert!(!b),
        _ => panic!("missing result"),
    }
    let m = model(
        vec![node("cond", ActionType::IfElse), node("a", ActionType::Start), node("b", ActionType::Start)],
        vec![edge("e2", "cond", "a", "true"), edge("e3", "cond", "b", "false")],
    );
    let mut d = dispatcher(&m);
    d.handle_command(WorkflowCommand::Start);
    let actions = describe(&d.handle_completion("cond".to_string(), NodeEvent::Succeeded(2), Some(outcome.outputs)));
    assert_eq!(actions, vec!["cond:Succeeded", "a:Skipped", "spawn:b"]);
}

#[test]
fn first_matching_case_is_selected() {
    let outcome = if_else_outcome(&vec!["c1".to_string(), "c2".to_string(), "c3".to_string()], &vec![false, true, true]);
    match outcome.outputs.get("selected") {
        Some(JsonValue::Str(s)) => assert_eq!(s, "c2"),
        _ => panic!("missing selected"),
    }
}

fn flaky_node(times: u64, interval: u64) -> Node {
    Node {
        id: "flaky".to_string(),
        title: "flaky".to_string(),
        desc: String::new(),
        error_strategy: actflow::node::ErrorStrategy::Unset,
        retry: Some(RetryConfig { times, interval }),
        uses: ActionType::Code,
        status: NodeState::Unknown,
        timeout: None,
    }
}

fn failed(msg: &str) -> NodeResult {
    NodeResult::from_output(ActionOutput::failed(msg.to_string()))
}

#[test]
fn scenario_retry_then_success() {
    let (mut run, first) = NodeRun::start(&flaky_node(2, 10), 0);
    let mut events = vec![first.str().to_string()];
    for _ in 0..2 {
        match run.on_outcome(failed("boom"), 1) {
            WorkerStep::Retry { sleep_ms } => assert_eq!(sleep_ms, Some(10)),
            _ => panic!("expected a retry"),
        }
        events.push(run.resume().str().to_string());
    }
    match run.on_outcome(NodeResult::from_output(ActionOutput::success(Vars::new())), 30) {
        WorkerStep::Finish { event, outputs } => {
            assert!(outputs.is_some());
            events.push(event.str().to_string());
        },
        _ => panic!("expected the end"),
    }
    assert_eq!(events, vec!["Running", "Retry", "Retry", "Succeeded"]);
}

#[test]
fn scenario_retry_exhausted_fails_workflow() {
    let (mut run, _) = NodeRun::start(&flaky_node(2, 10), 0);
    let mut last = None;
    for _ in 0..3 {
        match run.on_outcome(failed("boom"), 1) {
            WorkerStep::Retry { .. } => {
                run.resume();
            },
            WorkerStep::Finish { event, .. } => last = Some(event),
        }
    }
    let event = last.unwrap();
    match &event {
        NodeEvent::Error(ErrorReason::Failed(m)) => assert_eq!(m, "boom"),
        _ => panic!("expected a failure"),
    }
    let m = model(vec![node("flaky", ActionType::Code)], vec![]);
    let mut d = dispatcher(&m);
    d.handle_command(WorkflowCommand::Start);
    let actions = d.handle_completion("flaky".to_string(), event, None);
    assert_eq!(describe(&actions), vec!["flaky:Error", "workflow:Failed", "shutdown"]);
    match &actions[1] {
        DispatchAction::Publish(msg) => match &msg.event {
            GraphEvent::Workflow(WorkflowEvent::Failed(f)) => assert_eq!(f.error, "boom"),
            _ => panic!("not a failure"),
        },
        _ => panic!("not a publish"),
    }
    assert!(d.is_complete());
}

#[test]
fn retry_with_zero_interval_does_not_sleep() {
    let (mut run, _) = NodeRun::start(&flaky_node(1, 0), 0);
    match run.on_outcome(failed("x"), 1) {
        WorkerStep::Retry { sleep_ms } => assert_eq!(sleep_ms, None),
        _ => panic!("expected a retry"),
    }
}

#[test]
fn exception_is_not_retried() {
    let (mut run, _) = NodeRun::start(&flaky_node(3, 5), 0);
    match run.on_outcome(NodeResult::from_output(ActionOutput::exception("bad".to_string())), 1) {
        WorkerStep::Finish { event: NodeEvent::Error(ErrorReason::Exception(m)), .. } => assert_eq!(m, "bad"),
        _ => panic!("expected an exception"),
    }
}

#[test]
fn zero_timeout_disables_the_race() {
    let mut n = flaky_node(0, 0);
    n.timeout = Some(0);
    let (run, _) = NodeRun::start(&n, 0);
    assert_eq!(run.attempt_timeout(), None);
    n.timeout = Some(250);
    let (run, _) = NodeRun::start(&n, 0);
    assert_eq!(run.attempt_timeout(), Some(250));
    n.timeout = None;
    let (run, _) = NodeRun::start(&n, 0);
    assert_eq!(run.attempt_timeout(), None);
}

#[test]
fn scenario_abort_mid_run() {
    let m = model(vec![node("sleeper", ActionType::Code)], vec![]);
    let mut d = dispatcher(&m);
    d.handle_command(WorkflowCommand::Start);
    let (mut run, _) = NodeRun::start(&flaky_node(0, 0), 0);
    let actions = d.handle_command(WorkflowCommand::Abort);
    assert_eq!(describe(&actions), vec!["workflow:Aborted", "shutdown"]);
    match &actions[0] {
        DispatchAction::Publish(msg) => match &msg.event {
            GraphEvent::Workflow(WorkflowEvent::Aborted(a)) => assert_eq!(a.reason, "Aborted by command"),
            _ => panic!("not an abort"),
        },
        _ => panic!("not a publish"),
    }
    assert!(d.is_complete());
    let stopped = run.on_shutdown(120);
    assert_eq!(stopped.str(), "Stopped");
    assert!(d.handle_completion("sleeper".to_string(), stopped, None).is_empty());
    assert!(d.handle_command(WorkflowCommand::Start).is_empty());
}

#[test]
fn at_most_one_terminal_event() {
    let m = model(vec![node("only", ActionType::Start)], vec![]);
    let mut d = dispatcher(&m);
    d.handle_command(WorkflowCommand::Start);
    let a = describe(&d.handle_completion("only".to_string(), NodeEvent::Succeeded(1), Some(Vars::new())));
    assert_eq!(a, vec!["only:Succeeded", "workflow:Succeeded"]);
    assert!(d.handle_command(WorkflowCommand::Abort).is_empty());
    assert!(d.handle_completion("only".to_string(), NodeEvent::Error(ErrorReason::Timeout), None).is_empty());
}

#[test]
fn action_result_maps_errors_to_exceptions() {
    let r = NodeResult::from_result_output(Err(actflow::error::ActflowError::Runtime("oops".to_string())));
    assert_eq!(r.status, NodeExecutionStatus::Exception);
    assert_eq!(r.exception, Some("oops".to_string()));
    let stopped = ActionOutput::stopped();
    assert_eq!(stopped.status, NodeExecutionStatus::Stopped);
}

#[test]
fn node_reached_by_two_edges_is_spawned_once() {
    let m = model(
        vec![node("a", ActionType::Start), node("b", ActionType::Start)],
        vec![edge("e1", "a", "b", "source"), edge("e2", "a", "b", "source")],
    );
    let mut d = dispatcher(&m);
    d.handle_command(WorkflowCommand::Start);
    let actions = describe(&d.handle_completion("a".to_string(), NodeEvent::Succeeded(1), Some(Vars::new())));
    assert_eq!(actions, vec!["a:Succeeded", "spawn:b"]);
}
