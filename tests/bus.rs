use actflow::channel::{ChannelOptions, HandlerKind, Registry};
use actflow::engine::Lifecycle;
use actflow::events::{ErrorReason, GraphEvent, Log, Message, NodeEvent, WorkflowEvent};

fn msg(pid: &str, nid: &str, event: GraphEvent) -> Message {
    Message { pid: pid.to_string(), nid: nid.to_string(), event }
}

#[test]
fn glob_filters_match_pid_and_nid() {
    assert!(ChannelOptions::default().matches("proc-a", "n1"));
    assert!(ChannelOptions::any().matches("", ""));
    let o = ChannelOptions::with_pid("pid1*".to_string());
    assert!(o.matches("pid123", "x"));
    assert!(!o.matches("other", "x"));
    let o = ChannelOptions::with_nid("n?".to_string());
    assert!(o.matches("p", "n1"));
    assert!(!o.matches("p", "n12"));
    assert!(!ChannelOptions::new("[".to_string(), "*".to_string()).matches("p", "n"));
}

#[test]
fn handlers_fire_in_registration_order_when_both_globs_match() {
    let mut r = Registry::new();
    let all = r.register(ChannelOptions::any(), HandlerKind::Event);
    let done = r.register(ChannelOptions::with_pid("proc-a".to_string()), HandlerKind::Complete);
    let err = r.register(ChannelOptions::any(), HandlerKind::Error);
    let logs = r.register(ChannelOptions::with_nid("n1".to_string()), HandlerKind::Log);
    let other = r.register(ChannelOptions::with_pid("proc-b".to_string()), HandlerKind::Event);
    assert_eq!((all, done, err, logs, other), (0, 1, 2, 3, 4));

    let m = msg("proc-a", "", GraphEvent::Workflow(WorkflowEvent::Succeeded));
    assert_eq!(r.event_recipients(&m), vec![0, 1]);
    let m = msg("proc-b", "n", GraphEvent::Node(NodeEvent::Error(ErrorReason::Timeout)));
    assert_eq!(r.event_recipients(&m), vec![0, 4]);
    let m = msg("proc-b", "", GraphEvent::Workflow(WorkflowEvent::Failed(actflow::events::WorkflowFailedEvent {
        error: "x".to_string(),
    })));
    assert_eq!(r.event_recipients(&m), vec![0, 2, 4]);
    let l = Log { pid: "proc-z".to_string(), nid: "n1".to_string(), content: "hi".to_string(), timestamp: 5 };
    assert_eq!(r.log_recipients(&l), vec![3]);
}

#[test]
fn event_names() {
    assert_eq!(NodeEvent::Running(1).str(), "Running");
    assert_eq!(NodeEvent::Retry.str(), "Retry");
    assert_eq!(WorkflowEvent::Succeeded.str(), "Succeeded");
    assert_eq!(ErrorReason::Failed("x".to_string()).to_string(), "Failed: x");
    assert_eq!(ErrorReason::Exception("y".to_string()).to_string(), "Exception: y");
    assert!(GraphEvent::Workflow(WorkflowEvent::Succeeded).is_complete());
    assert!(!GraphEvent::Node(NodeEvent::Skipped).is_error());
}

#[test]
fn launch_and_shutdown_are_idempotent() {
    let mut l = Lifecycle::new();
    assert!(l.launch());
    let after_one = l;
    assert!(!l.launch());
    assert_eq!(l, after_one);
    assert!(l.shutdown());
    let after_stop = l;
    assert!(!l.shutdown());
    assert_eq!(l, after_stop);
    assert!(!l.launch());
}
