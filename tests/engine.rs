use actflow::action::ActionType;
use actflow::dispatch::DispatchAction;
use actflow::model::{NodeModel, WorkflowModel};
use actflow::process::Engine;

fn one_node_model() -> WorkflowModel {
    WorkflowModel {
        id: "wf".to_string(),
        name: "wf".to_string(),
        desc: String::new(),
        env: vec![("HOST".to_string(), "localhost".to_string())],
        nodes: vec![NodeModel {
            id: "start".to_string(),
            title: "start".to_string(),
            desc: String::new(),
            uses: ActionType::Start,
            error_strategy: None,
            retry: None,
            timeout: None,
        }],
        edges: vec![],
    }
}

fn pid(s: &str) -> String {
    s.to_string()
}

#[test]
fn processes_are_evicted_least_recently_used_first() {
    let mut e = Engine::new(2);
    e.launch();
    let m = one_node_model();
    assert_eq!(e.build_workflow_process(pid("a"), &m).unwrap(), None);
    assert_eq!(e.build_workflow_process(pid("b"), &m).unwrap(), None);
    assert!(e.get_process(&pid("a")).is_some());
    assert_eq!(e.build_workflow_process(pid("c"), &m).unwrap(), Some(pid("b")));
    assert!(e.contains(&pid("a")));
    assert!(!e.contains(&pid("b")));
    assert!(e.build_workflow_process(pid("a"), &m).is_err());
}

#[test]
fn built_process_reads_the_definition_env() {
    let mut e = Engine::new(4);
    e.launch();
    e.build_workflow_process(pid("a"), &one_node_model()).unwrap();
    let p = e.get_process(&pid("a")).unwrap();
    assert_eq!(p.id(), "a");
    assert_eq!(p.wid(), "wf");
    assert_eq!(p.context().get_env(&pid("HOST")), Some(&pid("localhost")));
    assert!(!p.is_complete());
}

#[test]
fn invalid_definition_builds_nothing() {
    let mut e = Engine::new(4);
    e.launch();
    let mut m = one_node_model();
    m.nodes[0].uses = ActionType::Unset;
    assert!(e.build_workflow_process(pid("a"), &m).is_err());
    assert!(!e.contains(&pid("a")));
}

#[test]
fn stop_aborts_a_live_process() {
    let mut e = Engine::new(4);
    e.launch();
    e.build_workflow_process(pid("a"), &one_node_model()).unwrap();
    let actions = e.stop(&pid("a")).unwrap();
    assert!(matches!(actions.last(), Some(DispatchAction::Shutdown)));
    assert!(e.get_process(&pid("a")).unwrap().is_complete());
    assert!(e.stop(&pid("a")).unwrap().is_empty());
    assert_eq!(e.stop(&pid("zz")).unwrap_err().to_string(), "Process zz not found");
    assert!(e.remove_process(&pid("a")));
    assert!(!e.remove_process(&pid("a")));
}

#[test]
fn engine_launch_and_shutdown_happen_once() {
    let mut e = Engine::new(4);
    assert!(e.launch());
    assert!(!e.launch());
    e.build_workflow_process(pid("a"), &one_node_model()).unwrap();
    e.build_workflow_process(pid("b"), &one_node_model()).unwrap();
    let aborted = e.shutdown();
    let ids: Vec<String> = aborted.iter().map(|(id, _)| id.clone()).collect();
    assert_eq!(ids, vec!["a", "b"]);
    assert!(e.get_process(&pid("a")).unwrap().is_complete());
    assert!(e.shutdown().is_empty());
    assert!(!e.launch());
}

#[test]
fn process_runs_to_completion() {
    let mut e = Engine::new(4);
    e.launch();
    e.build_workflow_process(pid("a"), &one_node_model()).unwrap();
    let mut p = actflow::process::Process::new(pid("solo"), &one_node_model()).unwrap();
    assert_eq!(p.wid(), "wf");
    let started = p.start();
    assert_eq!(started.len(), 2);
    let done = p.complete_node(pid("start"), actflow::events::NodeEvent::Succeeded(3), None);
    assert_eq!(done.len(), 2);
    assert!(p.is_complete());
    assert!(p.start().is_empty());
}

#[test]
fn engine_not_running_builds_nothing() {
    let mut e = Engine::new(4);
    let err = e.build_workflow_process(pid("a"), &one_node_model()).unwrap_err();
    assert_eq!(err, actflow::error::ActflowError::Engine("Engine is not running".to_string()));
    e.launch();
    e.shutdown();
    assert!(e.build_workflow_process(pid("a"), &one_node_model()).is_err());
    assert!(!e.contains(&pid("a")));
}

#[test]
fn second_shutdown_changes_nothing() {
    let mut e = Engine::new(4);
    e.launch();
    e.build_workflow_process(pid("a"), &one_node_model()).unwrap();
    assert_eq!(e.shutdown().len(), 1);
    assert!(e.shutdown().is_empty());
    assert!(e.get_process(&pid("a")).unwrap().is_complete());
}
