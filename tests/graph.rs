use actflow::action::ActionType;
use actflow::edge::{EdgeSelectOptions, FixedHandle, SourceHandle};
use actflow::error::ActflowError;
use actflow::graph::Workflow;
use actflow::model::{EdgeModel, NodeModel, WorkflowModel};
use actflow::node::NodeState;

fn node(id: &str) -> NodeModel {
    NodeModel {
        id: id.to_string(),
        title: id.to_string(),
        desc: String::new(),
        uses: ActionType::Start,
        error_strategy: None,
        retry: None,
        timeout: None,
    }
}

fn edge(id: &str, source: &str, target: &str, handle: &str) -> EdgeModel {
    EdgeModel {
        id: id.to_string(),
        source: source.to_string(),
        target: target.to_string(),
        source_handle: handle.to_string(),
    }
}

fn model(nodes: Vec<NodeModel>, edges: Vec<EdgeModel>) -> WorkflowModel {
    WorkflowModel { id: "wf".to_string(), name: "wf".to_string(), desc: String::new(), env: vec![], nodes, edges }
}

fn s(v: &str) -> String {
    v.to_string()
}

/// c -> a (true), c -> b (false), a -> j, b -> j, b -> k
fn diamond() -> Workflow {
    Workflow::from_model(&model(
        vec![node("c"), node("a"), node("b"), node("j"), node("k")],
        vec![
            edge("ca", "c", "a", "true"),
            edge("cb", "c", "b", "false"),
            edge("aj", "a", "j", "source"),
            edge("bj", "b", "j", "source"),
            edge("bk", "b", "k", "source"),
        ],
    ))
    .unwrap()
}

#[test]
fn unknown_endpoint_is_rejected() {
    let r = Workflow::from_model(&model(vec![node("a")], vec![edge("e", "a", "zz", "source")]));
    assert_eq!(r.err(), Some(ActflowError::Edge(s("target node zz not found"))));
    let r = Workflow::from_model(&model(vec![node("a")], vec![edge("e", "zz", "a", "source")]));
    assert_eq!(r.err(), Some(ActflowError::Edge(s("source node zz not found"))));
}

#[test]
fn duplicate_node_ids_and_missing_action_are_rejected() {
    assert!(Workflow::from_model(&model(vec![node("a"), node("a")], vec![])).is_err());
    let shared = Workflow::from_model(&model(
        vec![node("a"), node("b")],
        vec![edge("e", "a", "b", "source"), edge("e", "a", "b", "source")],
    ));
    assert!(shared.is_ok());
    let mut n = node("a");
    n.uses = ActionType::Unset;
    assert!(Workflow::from_model(&model(vec![n], vec![])).is_err());
}

#[test]
fn root_is_first_node_without_incoming_edge() {
    let w = diamond();
    assert_eq!(w.get_root_node().unwrap().id, "c");
    assert_eq!(w.get_all_node_ids(), vec!["c", "a", "b", "j", "k"]);
    assert_eq!(w.get_max_parallelism(), 2);
    assert_eq!(w.is_end_node(&s("k")), Some(true));
    assert_eq!(w.is_end_node(&s("b")), Some(false));
    assert_eq!(w.is_end_node(&s("nope")), None);
}

#[test]
fn skipping_propagates_through_joins() {
    let mut w = diamond();
    w.mark_node_executed(&s("c"));
    let skipped = w.skip_unselected_branches(&s("c"), &SourceHandle::Fixed(FixedHandle::True));
    let ids: Vec<String> = skipped.iter().map(|p| p.0.clone()).collect();
    assert_eq!(ids, vec!["b", "k"]);
    assert_eq!(w.get_node_state(&s("b")), Some(NodeState::Skipped));
    assert_eq!(w.get_node_state(&s("k")), Some(NodeState::Skipped));
    assert_eq!(w.get_node_state(&s("j")), Some(NodeState::Unknown));
    assert_eq!(w.get_edge_state(&s("bj")), Some(NodeState::Skipped));
    assert_eq!(w.get_edge_state(&s("ca")), Some(NodeState::Unknown));
    let ready = w.get_next_ready_node(&s("c"), &EdgeSelectOptions { source_handle: SourceHandle::Fixed(FixedHandle::True) });
    assert_eq!(ready, vec!["a"]);
}

#[test]
fn skipped_node_has_all_incoming_edges_skipped() {
    let mut w = diamond();
    let skipped = w.skip_branch(&s("ca"));
    let ids: Vec<String> = skipped.iter().map(|p| p.0.clone()).collect();
    assert_eq!(ids, vec!["a"]);
    assert_eq!(w.get_node_state(&s("j")), Some(NodeState::Unknown));
    w.skip_branch(&s("cb"));
    for id in ["a", "b", "j", "k"] {
        assert_eq!(w.get_node_state(&s(id)), Some(NodeState::Skipped));
    }
    for e in ["ca", "cb", "aj", "bj", "bk"] {
        assert_eq!(w.get_edge_state(&s(e)), Some(NodeState::Skipped));
    }
    assert!(w.skip_branch(&s("cb")).is_empty());
    assert!(w.skip_branch(&s("nope")).is_empty());
}

#[test]
fn marks_are_idempotent_and_monotone() {
    let mut w = diamond();
    w.mark_node_taken(&s("a"));
    w.mark_node_taken(&s("a"));
    assert_eq!(w.get_node_state(&s("a")), Some(NodeState::Taken));
    w.mark_node_executed(&s("a"));
    w.mark_node_executed(&s("a"));
    assert_eq!(w.get_node_state(&s("a")), Some(NodeState::Executed));
    w.mark_node_taken(&s("a"));
    assert_eq!(w.get_node_state(&s("a")), Some(NodeState::Executed));
    w.mark_node_skipped(&s("k"));
    w.mark_node_skipped(&s("k"));
    assert_eq!(w.get_node_state(&s("k")), Some(NodeState::Skipped));
    w.mark_edge_taken(&s("aj"));
    w.mark_edge_skipped(&s("aj"));
    assert_eq!(w.get_edge_state(&s("aj")), Some(NodeState::Taken));
}

#[test]
fn readiness_waits_for_every_predecessor() {
    let mut w = diamond();
    w.mark_node_executed(&s("a"));
    let opts = EdgeSelectOptions { source_handle: SourceHandle::source() };
    assert!(w.get_next_ready_node(&s("a"), &opts).is_empty());
    assert_eq!(w.is_node_ready(&s("j")), Some(false));
    w.mark_node_skipped(&s("b"));
    assert_eq!(w.get_next_ready_node(&s("a"), &opts), vec!["j"]);
    assert_eq!(w.is_node_ready(&s("j")), Some(true));
    assert!(!w.is_all_node_executed());
}

#[test]
fn handle_names_resolve_to_reserved_handles() {
    assert!(SourceHandle::from_name(&s("true")).same(&SourceHandle::Fixed(FixedHandle::True)));
    assert!(SourceHandle::from_name(&s("fail_branch")).same(&SourceHandle::Fixed(FixedHandle::FailBranch)));
    assert!(SourceHandle::from_name(&s("case_1")).same(&SourceHandle::Node(s("case_1"))));
    assert_eq!(SourceHandle::Fixed(FixedHandle::Source).name(), "source");
    assert_eq!(NodeState::Skipped.as_str(), "skipped");
}

#[test]
fn skip_pairs_name_the_completing_edge() {
    let mut w = diamond();
    let skipped = w.skip_branch(&s("cb"));
    assert_eq!(skipped, vec![(s("b"), s("cb")), (s("k"), s("bk"))]);
    let skipped = w.skip_branch(&s("ca"));
    assert_eq!(skipped, vec![(s("a"), s("ca")), (s("j"), s("aj"))]);
}

#[test]
fn target_of_two_edges_is_ready_once() {
    let mut w = Workflow::from_model(&model(
        vec![node("a"), node("b")],
        vec![edge("e", "a", "b", "source"), edge("e", "a", "b", "source")],
    ))
    .unwrap();
    w.mark_node_executed(&s("a"));
    let opts = EdgeSelectOptions { source_handle: SourceHandle::source() };
    assert_eq!(w.get_next_ready_node(&s("a"), &opts), vec!["b"]);
    let skipped = w.skip_branch(&s("e"));
    assert!(skipped.is_empty());
    assert_eq!(w.get_edge_state(&s("e")), Some(NodeState::Skipped));
}
