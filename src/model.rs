//! Workflow definitions as a client supplies them.

use vstd::prelude::*;

use crate::action::ActionType;
use crate::node::{ErrorStrategy, RetryConfig};

verus! {

/// A node as defined.
#[derive(Debug, Clone)]
pub struct NodeModel {
    pub id: String,
    pub title: String,
    pub desc: String,
    pub uses: ActionType,
    pub error_strategy: Option<ErrorStrategy>,
    pub retry: Option<RetryConfig>,
    /// Time limit of one attempt, in milliseconds.
    pub timeout: Option<u64>,
}

/// An edge as defined.
#[derive(Debug, Clone)]
pub struct EdgeModel {
    pub id: String,
    pub source: String,
    pub target: String,
    /// Name of the output handle the edge leaves from.
    pub source_handle: String,
}

/// A workflow as defined.
#[derive(Debug, Clone)]
pub struct WorkflowModel {
    pub id: String,
    pub name: String,
    pub desc: String,
    pub env: Vec<(String, String)>,
    pub nodes: Vec<NodeModel>,
    pub edges: Vec<EdgeModel>,
}

/// Node `k` of `m` has id `id`.
pub open spec fn model_names_node(m: WorkflowModel, k: int, id: Seq<char>) -> bool {
    0 <= k < m.nodes@.len() && m.nodes@[k].id@ == id
}

/// A definition the engine accepts: every node names an action, node ids are
/// unique, and every edge endpoint is a node of the workflow.
pub open spec fn model_valid(m: WorkflowModel) -> bool {
    &&& forall|k: int| 0 <= k < m.nodes@.len() ==> (#[trigger] m.nodes@[k]).uses != ActionType::Unset
    &&& forall|a: int, b: int|
        0 <= a < b < m.nodes@.len() ==> (#[trigger] m.nodes@[a]).id@ != (#[trigger] m.nodes@[b]).id@
    &&& forall|j: int| 0 <= j < m.edges@.len() ==> #[trigger] edge_resolves(m, j)
}

/// Both endpoints of edge `j` of `m` are nodes of `m`.
pub open spec fn edge_resolves(m: WorkflowModel, j: int) -> bool {
    &&& exists|k: int| model_names_node(m, k, m.edges@[j].source@)
    &&& exists|k: int| model_names_node(m, k, m.edges@[j].target@)
}

} // verus!
