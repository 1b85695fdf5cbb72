//! The runtime workflow graph: immutable topology plus per-node and per-edge
//! execution state.

use vstd::prelude::*;

use crate::action::ActionType;
use crate::edge::{handle_of_name, Edge, EdgeSelectOptions, HandleView, SourceHandle};
use crate::error::ActflowError;
use crate::model::{edge_resolves, model_names_node, model_valid, WorkflowModel};
use crate::node::ErrorStrategy;
use crate::node::{advance, advance_state, is_terminal, Node, NodeState};

verus! {

/// A workflow graph being executed. Node ids and edge ids are unique, and each
/// edge is resolved to the positions of its two endpoints.
pub struct Workflow {
    nodes: Vec<Node>,
    edges: Vec<Edge>,
    ends: Vec<(usize, usize)>,
    node_status: Vec<NodeState>,
    edge_status: Vec<NodeState>,
}

impl Workflow {
    pub closed spec fn node_count(&self) -> nat {
        self.nodes@.len()
    }

    pub closed spec fn edge_count(&self) -> nat {
        self.edges@.len()
    }

    /// The node at position `k`, as defined (its own `status` field is not used).
    pub closed spec fn node_at(&self, k: int) -> Node {
        self.nodes@[k]
    }

    /// The edge at position `j`, as defined.
    pub closed spec fn edge_at(&self, j: int) -> Edge {
        self.edges@[j]
    }

    pub closed spec fn node_state(&self, k: int) -> NodeState {
        self.node_status@[k]
    }

    pub closed spec fn edge_state(&self, j: int) -> NodeState {
        self.edge_status@[j]
    }

    /// Position of the node edge `j` leaves.
    pub closed spec fn source_of(&self, j: int) -> int {
        self.ends@[j].0 as int
    }

    /// Position of the node edge `j` enters.
    pub closed spec fn target_of(&self, j: int) -> int {
        self.ends@[j].1 as int
    }

    pub closed spec fn wf(&self) -> bool {
        &&& self.ends@.len() == self.edges@.len()
        &&& self.node_status@.len() == self.nodes@.len()
        &&& self.edge_status@.len() == self.edges@.len()
        &&& forall|j: int|
            0 <= j < self.edges@.len() ==> {
                &&& (#[trigger] self.ends@[j]).0 < self.nodes@.len()
                &&& self.ends@[j].1 < self.nodes@.len()
                &&& self.nodes@[self.ends@[j].0 as int].id@ == self.edges@[j].source@
                &&& self.nodes@[self.ends@[j].1 as int].id@ == self.edges@[j].target@
            }
        &&& forall|a: int, b: int|
            0 <= a < self.nodes@.len() && 0 <= b < self.nodes@.len() && a != b
                ==> #[trigger] self.nodes@[a].id@ != #[trigger] self.nodes@[b].id@
    }

    /// Facts of well-formedness that callers use.
    pub proof fn lemma_wf(&self)
        requires
            self.wf(),
        ensures
            forall|j: int|
                0 <= j < self.edge_count() ==> 0 <= #[trigger] self.source_of(j) < self.node_count()
                    && 0 <= self.target_of(j) < self.node_count(),
            forall|j: int|
                0 <= j < self.edge_count() ==> #[trigger] self.node_at(self.source_of(j)).id@
                    == self.edge_at(j).source@,
            forall|j: int|
                0 <= j < self.edge_count() ==> #[trigger] self.node_at(self.target_of(j)).id@
                    == self.edge_at(j).target@,
            forall|a: int, b: int|
                0 <= a < self.node_count() && 0 <= b < self.node_count() && a != b
                    ==> #[trigger] self.node_at(a).id@ != #[trigger] self.node_at(b).id@,
    {
        assert forall|j: int| 0 <= j < self.edge_count() implies 0 <= #[trigger] self.source_of(j)
            < self.node_count() && 0 <= self.target_of(j) < self.node_count() by {
            let _ = self.ends@[j];
        }
        assert forall|j: int| 0 <= j < self.edge_count() implies #[trigger] self.node_at(
            self.source_of(j),
        ).id@ == self.edge_at(j).source@ by {
            let _ = self.ends@[j];
        }
        assert forall|j: int| 0 <= j < self.edge_count() implies #[trigger] self.node_at(
            self.target_of(j),
        ).id@ == self.edge_at(j).target@ by {
            let _ = self.ends@[j];
        }
    }

    /// Node `k` exists and has id `id`.
    pub open spec fn names_node(&self, k: int, id: Seq<char>) -> bool {
        0 <= k < self.node_count() && self.node_at(k).id@ == id
    }

    /// Edge `j` exists and has id `id`.
    pub open spec fn names_edge(&self, j: int, id: Seq<char>) -> bool {
        0 <= j < self.edge_count() && self.edge_at(j).id@ == id
    }

    /// Edge `j` is the first edge, in definition order, with id `id`.
    pub open spec fn is_first_edge(&self, j: int, id: Seq<char>) -> bool {
        self.names_edge(j, id) && forall|i: int| 0 <= i < j ==> !#[trigger] self.names_edge(i, id)
    }

    pub open spec fn has_node(&self, id: Seq<char>) -> bool {
        exists|k: int| self.names_node(k, id)
    }

    /// The topology is that of `o`; states may differ.
    pub open spec fn same_topology(&self, o: &Workflow) -> bool {
        &&& self.node_count() == o.node_count()
        &&& self.edge_count() == o.edge_count()
        &&& forall|k: int| 0 <= k < self.node_count() ==> #[trigger] self.node_at(k) == o.node_at(k)
        &&& forall|j: int|
            0 <= j < self.edge_count() ==> {
                &&& #[trigger] self.edge_at(j) == o.edge_at(j)
                &&& self.source_of(j) == o.source_of(j)
                &&& self.target_of(j) == o.target_of(j)
            }
    }

    pub open spec fn same_node_states(&self, o: &Workflow) -> bool {
        forall|k: int| 0 <= k < self.node_count() ==> #[trigger] self.node_state(k) == o.node_state(k)
    }

    pub open spec fn same_edge_states(&self, o: &Workflow) -> bool {
        forall|j: int| 0 <= j < self.edge_count() ==> #[trigger] self.edge_state(j) == o.edge_state(j)
    }

    /// Every predecessor of node `t` (the source of each edge entering it) is
    /// executed or skipped.
    pub open spec fn preds_done(&self, t: int) -> bool {
        forall|j: int|
            0 <= j < self.edge_count() && #[trigger] self.target_of(j) == t ==> is_terminal(
                self.node_state(self.source_of(j)),
            )
    }

    /// Every edge entering node `t` is skipped.
    pub open spec fn all_incoming_skipped(&self, t: int) -> bool {
        forall|j: int|
            0 <= j < self.edge_count() && #[trigger] self.target_of(j) == t ==> self.edge_state(j)
                == NodeState::Skipped
    }

    pub open spec fn has_incoming(&self, k: int) -> bool {
        exists|j: int| 0 <= j < self.edge_count() && #[trigger] self.target_of(j) == k
    }

    pub open spec fn has_outgoing(&self, k: int) -> bool {
        exists|j: int| 0 <= j < self.edge_count() && #[trigger] self.source_of(j) == k
    }

    /// Every node is executed or skipped.
    pub open spec fn all_terminal(&self) -> bool {
        forall|k: int| 0 <= k < self.node_count() ==> is_terminal(#[trigger] self.node_state(k))
    }

    /// Edge `j` leaves node `from` by handle `h` and enters a node that is
    /// still unknown and whose predecessors are all done.
    pub open spec fn ready_via(&self, j: int, from: int, h: HandleView) -> bool {
        &&& self.source_of(j) == from
        &&& self.edge_at(j).source_handle@ == h
        &&& self.node_state(self.target_of(j)) == NodeState::Unknown
        &&& self.preds_done(self.target_of(j))
    }

    /// Ids of the targets of the first `n` edges that are ready by `ready_via`,
    /// in edge order, each once.
    pub open spec fn ready_ids(&self, from: int, h: HandleView, n: int) -> Seq<Seq<char>>
        decreases n,
    {
        if n <= 0 {
            seq![]
        } else {
            let p = self.ready_ids(from, h, n - 1);
            if self.ready_via(n - 1, from, h) && !p.contains(self.node_at(self.target_of(n - 1)).id@) {
                p.push(self.node_at(self.target_of(n - 1)).id@)
            } else {
                p
            }
        }
    }

    /// Node `k` with its current state in its `status` field.
    pub open spec fn node_snapshot(&self, k: int) -> Node {
        Node { status: self.node_state(k), ..self.node_at(k) }
    }

    /// Edge `j` with its current state in its `status` field.
    pub open spec fn edge_snapshot(&self, j: int) -> Edge {
        Edge { status: self.edge_state(j), ..self.edge_at(j) }
    }

    /// Position of the node with id `id`.
    pub fn find_node(&self, id: &String) -> (r: Option<usize>)
        requires
            self.wf(),
        ensures
            r matches Some(k) ==> self.names_node(k as int, id@),
            r is None ==> !self.has_node(id@),
    {
        let mut i: usize = 0;
        while i < self.nodes.len()
            invariant
                self.wf(),
                i <= self.nodes@.len(),
                forall|k: int| 0 <= k < i ==> !self.names_node(k, id@),
            decreases self.nodes@.len() - i,
        {
            if self.nodes[i].id == *id {
                return Some(i);
            }
            i = i + 1;
        }
        None
    }

    /// Position of the edge with id `id`.
    pub fn find_edge(&self, id: &String) -> (r: Option<usize>)
        requires
            self.wf(),
        ensures
            r matches Some(j) ==> self.is_first_edge(j as int, id@),
            r is None ==> forall|j: int| !self.names_edge(j, id@),
    {
        let mut i: usize = 0;
        while i < self.edges.len()
            invariant
                self.wf(),
                i <= self.edges@.len(),
                forall|j: int| 0 <= j < i ==> !self.names_edge(j, id@),
            decreases self.edges@.len() - i,
        {
            if self.edges[i].id == *id {
                return Some(i);
            }
            i = i + 1;
        }
        None
    }

    /// The node with id `id`, carrying its current state.
    pub fn get_node(&self, id: &String) -> (r: Option<Node>)
        requires
            self.wf(),
        ensures
            r matches Some(n) ==> exists|k: int| self.names_node(k, id@) && n == self.node_snapshot(k),
            r is None ==> !self.has_node(id@),
    {
        match self.find_node(id) {
            Some(k) => {
                let n = self.nodes[k].with_status(self.node_status[k]);
                assert(self.names_node(k as int, id@) && n == self.node_snapshot(k as int));
                Some(n)
            },
            None => None,
        }
    }

    /// The first edge with id `id`, carrying its current state.
    pub fn get_edge(&self, id: &String) -> (r: Option<Edge>)
        requires
            self.wf(),
        ensures
            r matches Some(e) ==> exists|j: int| self.is_first_edge(j, id@) && e == self.edge_snapshot(j),
            r is None ==> forall|j: int| !self.names_edge(j, id@),
    {
        match self.find_edge(id) {
            Some(j) => {
                let e = self.edges[j].with_status(self.edge_status[j]);
                assert(self.is_first_edge(j as int, id@) && e == self.edge_snapshot(j as int));
                Some(e)
            },
            None => None,
        }
    }

    /// Current state of the node with id `id`.
    pub fn get_node_state(&self, id: &String) -> (r: Option<NodeState>)
        requires
            self.wf(),
        ensures
            r matches Some(s) ==> exists|k: int| self.names_node(k, id@) && s == self.node_state(k),
            r is None ==> !self.has_node(id@),
    {
        match self.find_node(id) {
            Some(k) => {
                assert(self.names_node(k as int, id@) && self.node_status[k as int] == self.node_state(k as int));
                Some(self.node_status[k])
            },
            None => None,
        }
    }

    /// Current state of the first edge with id `id`.
    pub fn get_edge_state(&self, id: &String) -> (r: Option<NodeState>)
        requires
            self.wf(),
        ensures
            r matches Some(s) ==> exists|j: int| self.is_first_edge(j, id@) && s == self.edge_state(j),
            r is None ==> forall|j: int| !self.names_edge(j, id@),
    {
        match self.find_edge(id) {
            Some(j) => {
                assert(self.is_first_edge(j as int, id@) && self.edge_status[j as int] == self.edge_state(j as int));
                Some(self.edge_status[j])
            },
            None => None,
        }
    }

    /// Ids of all nodes, in definition order.
    pub fn get_all_node_ids(&self) -> (r: Vec<String>)
        requires
            self.wf(),
        ensures
            r@.len() == self.node_count(),
            forall|k: int| 0 <= k < self.node_count() ==> #[trigger] r@[k]@ == self.node_at(k).id@,
    {
        let mut out: Vec<String> = Vec::new();
        let mut i: usize = 0;
        while i < self.nodes.len()
            invariant
                self.wf(),
                i <= self.nodes@.len(),
                out@.len() == i,
                forall|k: int| 0 <= k < i ==> #[trigger] out@[k]@ == self.node_at(k).id@,
            decreases self.nodes@.len() - i,
        {
            out.push(self.nodes[i].id.clone());
            i = i + 1;
        }
        out
    }

    /// Whether some edge enters node `k`.
    fn incoming_exists(&self, k: usize) -> (r: bool)
        requires
            self.wf(),
        ensures
            r == self.has_incoming(k as int),
    {
        let mut j: usize = 0;
        while j < self.ends.len()
            invariant
                self.wf(),
                j <= self.edges@.len(),
                forall|i: int| 0 <= i < j ==> #[trigger] self.target_of(i) != k,
            decreases self.edges@.len() - j,
        {
            if self.ends[j].1 == k {
                assert(self.target_of(j as int) == k);
                return true;
            }
            j = j + 1;
        }
        false
    }

    /// The first node, in definition order, that no edge enters.
    pub fn get_root_node(&self) -> (r: Option<Node>)
        requires
            self.wf(),
        ensures
            r matches Some(n) ==> exists|k: int|
                0 <= k < self.node_count() && !self.has_incoming(k) && n == self.node_snapshot(k)
                    && forall|i: int| 0 <= i < k ==> #[trigger] self.has_incoming(i),
            r is None ==> forall|k: int| 0 <= k < self.node_count() ==> #[trigger] self.has_incoming(k),
    {
        let mut i: usize = 0;
        while i < self.nodes.len()
            invariant
                self.wf(),
                i <= self.nodes@.len(),
                forall|k: int| 0 <= k < i ==> #[trigger] self.has_incoming(k),
            decreases self.nodes@.len() - i,
        {
            if !self.incoming_exists(i) {
                return Some(self.nodes[i].with_status(self.node_status[i]));
            }
            i = i + 1;
        }
        None
    }

    /// Whether every node is executed or skipped.
    pub fn is_all_node_executed(&self) -> (r: bool)
        requires
            self.wf(),
        ensures
            r == self.all_terminal(),
    {
        let mut i: usize = 0;
        while i < self.node_status.len()
            invariant
                self.wf(),
                i <= self.nodes@.len(),
                forall|k: int| 0 <= k < i ==> is_terminal(#[trigger] self.node_state(k)),
            decreases self.nodes@.len() - i,
        {
            let s = self.node_status[i];
            if !(s == NodeState::Executed || s == NodeState::Skipped) {
                assert(!is_terminal(self.node_state(i as int)));
                return false;
            }
            i = i + 1;
        }
        true
    }

    /// Whether every predecessor of node `t` is executed or skipped.
    fn predecessors_done(&self, t: usize) -> (r: bool)
        requires
            self.wf(),
        ensures
            r == self.preds_done(t as int),
    {
        proof {
            self.lemma_wf();
        }
        let mut j: usize = 0;
        while j < self.ends.len()
            invariant
                self.wf(),
                j <= self.edges@.len(),
                forall|i: int|
                    0 <= i < j && #[trigger] self.target_of(i) == t ==> is_terminal(
                        self.node_state(self.source_of(i)),
                    ),
            decreases self.edges@.len() - j,
        {
            let (s, d) = self.ends[j];
            if d == t {
                let st = self.node_status[s];
                if !(st == NodeState::Executed || st == NodeState::Skipped) {
                    assert(self.target_of(j as int) == t && !is_terminal(
                        self.node_state(self.source_of(j as int)),
                    ));
                    return false;
                }
            }
            j = j + 1;
        }
        true
    }

    /// Whether every edge entering the node with id `nid` has left the unknown
    /// state.
    pub fn is_node_ready(&self, nid: &String) -> (r: Option<bool>)
        requires
            self.wf(),
        ensures
            r is None <==> !self.has_node(nid@),
            r matches Some(b) ==> exists|k: int|
                self.names_node(k, nid@) && b == forall|j: int|
                    0 <= j < self.edge_count() && #[trigger] self.target_of(j) == k ==> self.node_state(
                        self.source_of(j),
                    ) != NodeState::Unknown,
    {
        proof {
            self.lemma_wf();
        }
        let k = match self.find_node(nid) {
            Some(k) => k,
            None => return None,
        };
        let mut j: usize = 0;
        while j < self.ends.len()
            invariant
                self.wf(),
                self.names_node(k as int, nid@),
                j <= self.edges@.len(),
                forall|i: int|
                    0 <= i < j && #[trigger] self.target_of(i) == k ==> self.node_state(
                        self.source_of(i),
                    ) != NodeState::Unknown,
            decreases self.edges@.len() - j,
        {
            let (s, d) = self.ends[j];
            if d == k && self.node_status[s] == NodeState::Unknown {
                assert(self.target_of(j as int) == k && self.node_state(self.source_of(j as int))
                    == NodeState::Unknown);
                return Some(false);
            }
            j = j + 1;
        }
        Some(true)
    }

    /// Whether no edge leaves the node with id `nid`.
    pub fn is_end_node(&self, nid: &String) -> (r: Option<bool>)
        requires
            self.wf(),
        ensures
            r is None <==> !self.has_node(nid@),
            r matches Some(b) ==> exists|k: int| self.names_node(k, nid@) && b == !self.has_outgoing(k),
    {
        let k = match self.find_node(nid) {
            Some(k) => k,
            None => return None,
        };
        let mut j: usize = 0;
        while j < self.ends.len()
            invariant
                self.wf(),
                self.names_node(k as int, nid@),
                j <= self.edges@.len(),
                forall|i: int| 0 <= i < j ==> #[trigger] self.source_of(i) != k,
            decreases self.edges@.len() - j,
        {
            if self.ends[j].0 == k {
                assert(self.source_of(j as int) == k);
                assert(self.has_outgoing(k as int));
                assert(self.names_node(k as int, nid@) && false == !self.has_outgoing(k as int));
                return Some(false);
            }
            j = j + 1;
        }
        assert(!self.has_outgoing(k as int));
        assert(self.names_node(k as int, nid@) && true == !self.has_outgoing(k as int));
        Some(true)
    }

    /// Ids of the successors of `nid` that are ready to run: each reached by an
    /// edge leaving by the selected handle, still unknown, and with every
    /// predecessor executed or skipped. Each such node once, in the order of
    /// the first edge reaching it.
    pub fn get_next_ready_node(&self, nid: &String, edge_select: &EdgeSelectOptions) -> (r: Vec<String>)
        requires
            self.wf(),
        ensures
            forall|k: int|
                #![trigger self.names_node(k, nid@)]
                self.names_node(k, nid@) ==> r@.map_values(|s: String| s@) == self.ready_ids(
                    k,
                    edge_select.source_handle@,
                    self.edge_count() as int,
                ),
            !self.has_node(nid@) ==> r@.len() == 0,
    {
        proof {
            self.lemma_wf();
        }
        let mut out: Vec<String> = Vec::new();
        let k = match self.find_node(nid) {
            Some(k) => k,
            None => return out,
        };
        let h = &edge_select.source_handle;
        let mut j: usize = 0;
        while j < self.edges.len()
            invariant
                self.wf(),
                self.names_node(k as int, nid@),
                j <= self.edges@.len(),
                out@.map_values(|s: String| s@) == self.ready_ids(k as int, h@, j as int),
            decreases self.edges@.len() - j,
        {
            let (s, d) = self.ends[j];
            if s == k && self.edges[j].source_handle.same(h) && self.node_status[d]
                == NodeState::Unknown && self.predecessors_done(d) && !contains_id(&out, &self.nodes[d].id) {
                out.push(self.nodes[d].id.clone());
                proof {
                    assert(out@.map_values(|s: String| s@) =~= self.ready_ids(
                        k as int,
                        h@,
                        j as int,
                    ).push(self.node_at(d as int).id@));
                }
            }
            j = j + 1;
        }
        proof {
            assert forall|k2: int| self.names_node(k2, nid@) implies k2 == k by {
                if k2 != k {
                    assert(self.node_at(k2).id@ != self.node_at(k as int).id@);
                }
            }
        }
        out
    }

    /// The largest number of edges leaving one node.
    pub fn get_max_parallelism(&self) -> (r: usize)
        requires
            self.wf(),
        ensures
            forall|k: int| 0 <= k < self.node_count() ==> self.out_degree(k) <= r,
            self.node_count() == 0 ==> r == 0,
            self.node_count() > 0 ==> exists|k: int| 0 <= k < self.node_count() && self.out_degree(k) == r,
    {
        let mut best: usize = 0;
        let mut i: usize = 0;
        while i < self.nodes.len()
            invariant
                self.wf(),
                i <= self.nodes@.len(),
                best <= self.edges@.len(),
                forall|k: int| 0 <= k < i ==> self.out_degree(k) <= best,
                i > 0 ==> exists|k: int| 0 <= k < i && self.out_degree(k) == best,
                i == 0 ==> best == 0,
            decreases self.nodes@.len() - i,
        {
            let d = self.count_outgoing(i);
            if i == 0 || d > best {
                best = d;
            }
            i = i + 1;
        }
        best
    }

    /// Number of edges among the first `n` that leave node `k`.
    pub open spec fn out_degree_upto(&self, k: int, n: int) -> nat
        decreases n,
    {
        if n <= 0 {
            0
        } else {
            self.out_degree_upto(k, n - 1) + if self.source_of(n - 1) == k {
                1nat
            } else {
                0nat
            }
        }
    }

    pub open spec fn out_degree(&self, k: int) -> nat {
        self.out_degree_upto(k, self.edge_count() as int)
    }

    fn count_outgoing(&self, k: usize) -> (r: usize)
        requires
            self.wf(),
        ensures
            r == self.out_degree(k as int),
            r <= self.edge_count(),
    {
        let mut c: usize = 0;
        let mut j: usize = 0;
        while j < self.ends.len()
            invariant
                self.wf(),
                j <= self.edges@.len(),
                c == self.out_degree_upto(k as int, j as int),
                c <= j,
            decreases self.edges@.len() - j,
        {
            if self.ends[j].0 == k {
                c = c + 1;
            }
            j = j + 1;
        }
        c
    }

    /// `self` is `o` after marking the node with id `id` as `target`.
    pub open spec fn node_marked(&self, o: &Workflow, id: Seq<char>, target: NodeState) -> bool {
        &&& self.wf()
        &&& self.same_topology(o)
        &&& self.same_edge_states(o)
        &&& forall|k: int|
            0 <= k < self.node_count() ==> #[trigger] self.node_state(k) == if o.names_node(k, id) {
                advance(o.node_state(k), target)
            } else {
                o.node_state(k)
            }
    }

    /// `self` is `o` after marking the edge with id `id` as `target`.
    pub open spec fn edge_marked(&self, o: &Workflow, id: Seq<char>, target: NodeState) -> bool {
        &&& self.wf()
        &&& self.same_topology(o)
        &&& self.same_node_states(o)
        &&& forall|j: int|
            0 <= j < self.edge_count() ==> #[trigger] self.edge_state(j) == if o.is_first_edge(j, id) {
                edge_advance(o.edge_state(j), target)
            } else {
                o.edge_state(j)
            }
    }

    fn mark_node(&mut self, id: &String, target: NodeState)
        requires
            old(self).wf(),
        ensures
            final(self).node_marked(old(self), id@, target),
    {
        match self.find_node(id) {
            Some(k) => {
                let s = advance_state(self.node_status[k], target);
                self.node_status.set(k, s);
                proof {
                    assert forall|k2: int| old(self).names_node(k2, id@) implies k2 == k by {
                        if k2 != k {
                            assert(old(self).nodes@[k2].id@ != old(self).nodes@[k as int].id@);
                        }
                    }
                }
            },
            None => {},
        }
    }

    fn mark_edge(&mut self, id: &String, target: NodeState)
        requires
            old(self).wf(),
        ensures
            final(self).edge_marked(old(self), id@, target),
    {
        match self.find_edge(id) {
            Some(j) => {
                let cur = self.edge_status[j];
                let s = if cur == NodeState::Unknown {
                    target
                } else {
                    cur
                };
                self.edge_status.set(j, s);
                proof {
                    assert forall|j2: int| old(self).is_first_edge(j2, id@) implies j2 == j by {
                        if j2 < j {
                            assert(old(self).names_edge(j2, id@));
                        } else if j < j2 {
                            assert(old(self).names_edge(j as int, id@));
                        }
                    }
                }
            },
            None => {},
        }
    }

    /// Marks the node with id `id` as taken, if it is still unknown.
    pub fn mark_node_taken(&mut self, id: &String)
        requires
            old(self).wf(),
        ensures
            final(self).node_marked(old(self), id@, NodeState::Taken),
    {
        self.mark_node(id, NodeState::Taken)
    }

    /// Marks the node with id `id` as executed, unless it already finished.
    pub fn mark_node_executed(&mut self, id: &String)
        requires
            old(self).wf(),
        ensures
            final(self).node_marked(old(self), id@, NodeState::Executed),
    {
        self.mark_node(id, NodeState::Executed)
    }

    /// Marks the node with id `id` as skipped, unless it already finished.
    pub fn mark_node_skipped(&mut self, id: &String)
        requires
            old(self).wf(),
        ensures
            final(self).node_marked(old(self), id@, NodeState::Skipped),
    {
        self.mark_node(id, NodeState::Skipped)
    }

    /// Marks the first edge with id `id` as taken, if it is still unknown.
    pub fn mark_edge_taken(&mut self, id: &String)
        requires
            old(self).wf(),
        ensures
            final(self).edge_marked(old(self), id@, NodeState::Taken),
    {
        self.mark_edge(id, NodeState::Taken)
    }

    /// Marks the first edge with id `id` as executed, if it is still unknown.
    pub fn mark_edge_executed(&mut self, id: &String)
        requires
            old(self).wf(),
        ensures
            final(self).edge_marked(old(self), id@, NodeState::Executed),
    {
        self.mark_edge(id, NodeState::Executed)
    }

    /// Marks the first edge with id `id` as skipped, if it is still unknown.
    pub fn mark_edge_skipped(&mut self, id: &String)
        requires
            old(self).wf(),
        ensures
            final(self).edge_marked(old(self), id@, NodeState::Skipped),
    {
        self.mark_edge(id, NodeState::Skipped)
    }
}

/// An edge leaves the unknown state once and keeps the state it then took.
pub open spec fn edge_advance(cur: NodeState, target: NodeState) -> NodeState {
    if cur == NodeState::Unknown {
        target
    } else {
        cur
    }
}

/// Marking a node, or an edge, a second time in the same way changes nothing:
/// the states after two equal marks are those after the first.
pub proof fn lemma_marks_idempotent(
    w0: Workflow,
    w1: Workflow,
    w2: Workflow,
    id: Seq<char>,
    target: NodeState,
)
    ensures
        w1.node_marked(&w0, id, target) && w2.node_marked(&w1, id, target) ==> w2.same_node_states(&w1)
            && w2.same_edge_states(&w1),
        w1.edge_marked(&w0, id, target) && w2.edge_marked(&w1, id, target) ==> w2.same_node_states(&w1)
            && w2.same_edge_states(&w1),
{
    if w1.node_marked(&w0, id, target) && w2.node_marked(&w1, id, target) {
        assert forall|k: int| 0 <= k < w2.node_count() implies #[trigger] w2.node_state(k) == w1.node_state(k) by {
            assert(w1.node_at(k) == w0.node_at(k));
            let _ = w1.node_state(k);
            let _ = w0.node_state(k);
        }
    }
    if w1.edge_marked(&w0, id, target) && w2.edge_marked(&w1, id, target) {
        assert forall|j: int| 0 <= j < w2.edge_count() implies #[trigger] w2.edge_state(j) == w1.edge_state(j) by {
            assert(w1.edge_at(j) == w0.edge_at(j));
            assert forall|i: int| 0 <= i < j implies #[trigger] w1.names_edge(i, id) == w0.names_edge(i, id) by {
                assert(w1.edge_at(i) == w0.edge_at(i));
            }
            if w0.is_first_edge(j, id) {
                assert forall|i: int| 0 <= i < j implies !#[trigger] w1.names_edge(i, id) by {
                    assert(!w0.names_edge(i, id));
                }
                assert(w1.is_first_edge(j, id));
            }
            if w1.is_first_edge(j, id) {
                assert forall|i: int| 0 <= i < j implies !#[trigger] w0.names_edge(i, id) by {
                    assert(!w1.names_edge(i, id));
                }
                assert(w0.is_first_edge(j, id));
            }
            let _ = w1.edge_state(j);
            let _ = w0.edge_state(j);
        }
    }
}


/// Number of unknown states in `s`.
pub open spec fn count_unknown(s: Seq<NodeState>) -> nat
    decreases s.len(),
{
    if s.len() == 0 {
        0
    } else {
        count_unknown(s.drop_last()) + if s.last() == NodeState::Unknown {
            1nat
        } else {
            0nat
        }
    }
}

proof fn lemma_count_unknown_update(s: Seq<NodeState>, k: int)
    requires
        0 <= k < s.len(),
        s[k] == NodeState::Unknown,
    ensures
        count_unknown(s.update(k, NodeState::Skipped)) + 1 == count_unknown(s),
    decreases s.len(),
{
    let t = s.update(k, NodeState::Skipped);
    if k == s.len() - 1 {
        assert(t.drop_last() =~= s.drop_last());
    } else {
        assert(t.drop_last() =~= s.drop_last().update(k, NodeState::Skipped));
        lemma_count_unknown_update(s.drop_last(), k);
    }
}

proof fn lemma_topology_step(a: &Workflow, b: &Workflow, c: &Workflow)
    requires
        b.same_topology(c),
        a.nodes@ == b.nodes@,
        a.edges@ == b.edges@,
        a.ends@ == b.ends@,
    ensures
        a.same_topology(c),
{
    assert forall|k: int| 0 <= k < a.node_count() implies #[trigger] a.node_at(k) == c.node_at(k) by {
        assert(b.node_at(k) == c.node_at(k));
    }
    assert forall|j: int| 0 <= j < a.edge_count() implies {
        &&& #[trigger] a.edge_at(j) == c.edge_at(j)
        &&& a.source_of(j) == c.source_of(j)
        &&& a.target_of(j) == c.target_of(j)
    } by {
        assert(b.edge_at(j) == c.edge_at(j));
    }
}

/// An edge that is skipped stays skipped, so the edges entering a node stay.
proof fn lemma_entered_stays(a: &Workflow, b: &Workflow, k: int, eid: Seq<char>)
    requires
        a.entered_by_skipped(k, eid),
        b.same_topology(a),
        b.only_skips_since(a),
    ensures
        b.entered_by_skipped(k, eid),
{
    let j = choose|j: int|
        0 <= j < a.edge_count() && #[trigger] a.target_of(j) == k && a.edge_at(j).id@ == eid && a.edge_state(j)
            == NodeState::Skipped;
    assert(b.edge_at(j) == a.edge_at(j));
    assert(b.edge_state(j) == a.edge_state(j) || a.edge_state(j) == NodeState::Unknown);
    assert(b.target_of(j) == k);
}


/// What skipping leaves behind so far: each edge leaving a newly skipped node
/// is settled or still pending on `stack`, and each newly skipped edge enters
/// a node that is settled or still has an incoming edge not skipped.
#[verifier::opaque]
spec fn closure_inv(cur: &Workflow, w0: &Workflow, stack: Seq<usize>) -> bool {
    &&& forall|k: int, j: int|
        #![trigger cur.newly_skipped_node(w0, k), cur.source_of(j)]
        cur.newly_skipped_node(w0, k) && 0 <= j < cur.edge_count() && cur.source_of(j) == k ==> cur.edge_state(j)
            != NodeState::Unknown || stack.contains(j as usize)
    &&& forall|j: int|
        0 <= j < cur.edge_count() && w0.edge_state(j) == NodeState::Unknown && #[trigger] cur.edge_state(j)
            == NodeState::Skipped ==> cur.node_state(cur.target_of(j)) != NodeState::Unknown
            || !cur.all_incoming_skipped(cur.target_of(j))
}

proof fn lemma_closure_start(w0: &Workflow, stack: Seq<usize>)
    requires
        w0.wf(),
    ensures
        closure_inv(w0, w0, stack),
{
    reveal(closure_inv);
}

proof fn lemma_closure_end(cur: &Workflow, w0: &Workflow)
    requires
        closure_inv(cur, w0, Seq::<usize>::empty()),
    ensures
        cur.skip_closed(w0),
{
    reveal(closure_inv);
}

/// One step of `skip_branch` keeps the closure facts.
#[verifier::spinoff_prover]
proof fn lemma_closure_step(
    w0: &Workflow,
    prev: &Workflow,
    cur: &Workflow,
    prev_stack: Seq<usize>,
    after_pop: Seq<usize>,
    stack: Seq<usize>,
    j: usize,
    changed_j: bool,
    changed_t: bool,
)
    requires
        closure_inv(prev, w0, prev_stack),
        prev.wf(),
        cur.wf(),
        prev.same_topology(w0),
        cur.same_topology(w0),
        prev.only_skips_since(w0),
        cur.only_skips_since(w0),
        cur.nodes@ == prev.nodes@,
        cur.edges@ == prev.edges@,
        cur.ends@ == prev.ends@,
        j < cur.edge_count(),
        cur.edge_count() <= usize::MAX,
        prev_stack == after_pop.push(j),
        forall|x: usize| after_pop.contains(x) ==> #[trigger] stack.contains(x),
        !changed_j ==> cur.edge_status@ == prev.edge_status@ && prev.edge_state(j as int) != NodeState::Unknown,
        changed_j ==> prev.edge_state(j as int) == NodeState::Unknown && cur.edge_status@ == prev.edge_status@.update(
            j as int,
            NodeState::Skipped,
        ),
        !changed_t ==> cur.node_status@ == prev.node_status@,
        !changed_t && changed_j ==> !(prev.node_state(cur.target_of(j as int)) == NodeState::Unknown
            && cur.all_incoming_skipped(cur.target_of(j as int))),
        changed_t ==> {
            let t = cur.target_of(j as int);
            &&& changed_j
            &&& prev.node_state(t) == NodeState::Unknown
            &&& cur.node_status@ == prev.node_status@.update(t, NodeState::Skipped)
            &&& forall|e: int| 0 <= e < cur.edge_count() && #[trigger] cur.source_of(e) == t ==> stack.contains(e as usize)
        },
    ensures
        closure_inv(cur, w0, stack),
{
    reveal(closure_inv);
    cur.lemma_wf();
    let t = cur.target_of(j as int);
    assert forall|k: int, j3: int|
        #![trigger cur.newly_skipped_node(w0, k), cur.source_of(j3)]
        cur.newly_skipped_node(w0, k) && 0 <= j3 < cur.edge_count() && cur.source_of(j3) == k implies cur.edge_state(j3)
            != NodeState::Unknown || stack.contains(j3 as usize) by {
        if changed_t && k == t {
            assert(cur.source_of(j3) == k);
        } else {
            assert(cur.node_state(k) == prev.node_state(k));
            assert(prev.newly_skipped_node(w0, k));
            assert(prev.source_of(j3) == k);
            if prev.edge_state(j3) == NodeState::Unknown {
                assert(prev_stack.contains(j3 as usize));
                if j3 != j {
                    assert((j3 as usize) != j);
                    lemma_push_contains(after_pop, j);
                    assert(after_pop.contains(j3 as usize));
                    assert(stack.contains(j3 as usize));
                }
            } else {
                assert(cur.edge_state(j3) == prev.edge_state(j3));
            }
        }
    }
    assert forall|j3: int|
        0 <= j3 < cur.edge_count() && w0.edge_state(j3) == NodeState::Unknown && #[trigger] cur.edge_state(j3)
            == NodeState::Skipped implies cur.node_state(cur.target_of(j3)) != NodeState::Unknown
            || !cur.all_incoming_skipped(cur.target_of(j3)) by {
        let t3 = cur.target_of(j3);
        if changed_j && j3 == j {
        } else {
            assert(cur.edge_state(j3) == prev.edge_state(j3));
            assert(prev.target_of(j3) == t3);
            if prev.node_state(t3) == NodeState::Unknown && !prev.all_incoming_skipped(t3) {
                let jx = choose|jx: int|
                    0 <= jx < prev.edge_count() && #[trigger] prev.target_of(jx) == t3 && prev.edge_state(jx)
                        != NodeState::Skipped;
                if changed_j && jx == j {
                    assert(cur.target_of(j as int) == t3);
                } else {
                    assert(cur.target_of(jx) == t3);
                    assert(cur.edge_state(jx) == prev.edge_state(jx));
                }
            } else if prev.node_state(t3) != NodeState::Unknown {
                assert(cur.node_state(t3) == prev.node_state(t3) || (changed_t && t3 == t));
            }
        }
    }
}

/// Whether some string of `v` equals `s`.
fn contains_id(v: &Vec<String>, s: &String) -> (r: bool)
    ensures
        r == v@.map_values(|x: String| x@).contains(s@),
{
    let ghost vs = v@.map_values(|x: String| x@);
    let mut i: usize = 0;
    while i < v.len()
        invariant
            i <= v@.len(),
            vs == v@.map_values(|x: String| x@),
            forall|q: int| 0 <= q < i ==> vs[q] != s@,
        decreases v@.len() - i,
    {
        if v[i] == *s {
            proof {
                assert(vs[i as int] == s@);
            }
            return true;
        }
        i = i + 1;
    }
    false
}

/// The ready ids hold no repeats.
pub proof fn lemma_ready_ids_distinct(w: Workflow, from: int, h: HandleView, n: int)
    ensures
        forall|a: int, b: int|
            0 <= a < b < w.ready_ids(from, h, n).len() ==> #[trigger] w.ready_ids(from, h, n)[a]
                != #[trigger] w.ready_ids(from, h, n)[b],
    decreases n,
{
    if n > 0 {
        lemma_ready_ids_distinct(w, from, h, n - 1);
        let p = w.ready_ids(from, h, n - 1);
        let x = w.node_at(w.target_of(n - 1)).id@;
        if w.ready_via(n - 1, from, h) && !p.contains(x) {
            assert forall|a: int, b: int| 0 <= a < b < p.push(x).len() implies #[trigger] p.push(x)[a]
                != #[trigger] p.push(x)[b] by {
                if b == p.len() {
                    assert(p.push(x)[a] == p[a]);
                }
            }
        }
    }
}

pub(crate) proof fn lemma_push_contains<A>(s: Seq<A>, v: A)
    ensures
        s.push(v).contains(v),
        forall|x: A| s.contains(x) ==> #[trigger] s.push(v).contains(x),
        forall|x: A| #[trigger] s.push(v).contains(x) && x != v ==> s.contains(x),
{
    assert(s.push(v)[s.len() as int] == v);
    assert forall|x: A| s.contains(x) implies #[trigger] s.push(v).contains(x) by {
        let i = choose|i: int| 0 <= i < s.len() && s[i] == x;
        assert(s.push(v)[i] == x);
    }
    assert forall|x: A| #[trigger] s.push(v).contains(x) && x != v implies s.contains(x) by {
        let i = choose|i: int| 0 <= i < s.len() + 1 && s.push(v)[i] == x;
        assert(i < s.len());
        assert(s[i] == x);
    }
}


impl Workflow {
    /// Node `k` went from unknown to skipped between `o` and `self`.
    pub open spec fn newly_skipped_node(&self, o: &Workflow, k: int) -> bool {
        0 <= k < self.node_count() && o.node_state(k) == NodeState::Unknown && self.node_state(k)
            == NodeState::Skipped
    }

    /// Between `o` and `self` states only moved from unknown to skipped.
    pub open spec fn only_skips_since(&self, o: &Workflow) -> bool {
        &&& forall|k: int|
            0 <= k < self.node_count() ==> #[trigger] self.node_state(k) == o.node_state(k) || (
            o.node_state(k) == NodeState::Unknown && self.node_state(k) == NodeState::Skipped)
        &&& forall|j: int|
            0 <= j < self.edge_count() ==> #[trigger] self.edge_state(j) == o.edge_state(j) || (
            o.edge_state(j) == NodeState::Unknown && self.edge_state(j) == NodeState::Skipped)
    }

    /// A skipped edge with id `eid` enters node `k`.
    pub open spec fn entered_by_skipped(&self, k: int, eid: Seq<char>) -> bool {
        exists|j: int|
            0 <= j < self.edge_count() && #[trigger] self.target_of(j) == k && self.edge_at(j).id@ == eid
                && self.edge_state(j) == NodeState::Skipped
    }

    /// Some node with id `name` was skipped between `o` and `self`, and a
    /// skipped edge with id `eid` enters it.
    pub open spec fn skip_entry(&self, o: &Workflow, name: Seq<char>, eid: Seq<char>) -> bool {
        exists|k: int|
            #[trigger] self.newly_skipped_node(o, k) && self.node_at(k).id@ == name && self.entered_by_skipped(k, eid)
    }

    /// The first components of `r` are exactly the ids of the nodes skipped
    /// between `o` and `self`, each once; the second component of each names a skipped
    /// edge entering that node.
    pub open spec fn lists_new_skips(&self, o: &Workflow, r: Seq<(String, String)>) -> bool {
        &&& forall|i: int| 0 <= i < r.len() ==> self.skip_entry(o, (#[trigger] r[i]).0@, r[i].1@)
        &&& forall|k: int|
            #![trigger self.newly_skipped_node(o, k)]
            self.newly_skipped_node(o, k) ==> exists|i: int|
                0 <= i < r.len() && #[trigger] r[i].0@ == self.node_at(k).id@
        &&& forall|a: int, b: int| 0 <= a < b < r.len() ==> (#[trigger] r[a]).0@ != (#[trigger] r[b]).0@
    }


    /// Edges leaving nodes skipped between `o` and `self` are settled, and
    /// every edge skipped between them enters a node that is settled or still
    /// has an incoming edge that is not skipped.
    pub open spec fn skip_closed(&self, o: &Workflow) -> bool {
        &&& forall|k: int, j: int|
            #![trigger self.newly_skipped_node(o, k), self.source_of(j)]
            self.newly_skipped_node(o, k) && 0 <= j < self.edge_count() && self.source_of(j) == k ==> self.edge_state(j)
                != NodeState::Unknown
        &&& forall|j: int|
            0 <= j < self.edge_count() && o.edge_state(j) == NodeState::Unknown && #[trigger] self.edge_state(j)
                == NodeState::Skipped ==> self.node_state(self.target_of(j)) != NodeState::Unknown
                || !self.all_incoming_skipped(self.target_of(j))
    }

    /// Whether every edge entering node `t` is skipped.
    fn incoming_all_skipped(&self, t: usize) -> (r: bool)
        requires
            self.wf(),
        ensures
            r == self.all_incoming_skipped(t as int),
    {
        let mut j: usize = 0;
        while j < self.ends.len()
            invariant
                self.wf(),
                j <= self.edges@.len(),
                forall|i: int|
                    0 <= i < j && #[trigger] self.target_of(i) == t ==> self.edge_state(i)
                        == NodeState::Skipped,
            decreases self.edges@.len() - j,
        {
            if self.ends[j].1 == t && self.edge_status[j] != NodeState::Skipped {
                assert(self.target_of(j as int) == t);
                return false;
            }
            j = j + 1;
        }
        true
    }

    /// Skips the branch that starts at the first edge with id `edge_id`; see
    /// `skip_from`. Nothing changes when there is no such edge.
    pub fn skip_branch(&mut self, edge_id: &String) -> (r: Vec<(String, String)>)
        requires
            old(self).wf(),
        ensures
            (forall|j: int| !old(self).names_edge(j, edge_id@)) ==> r@.len() == 0 && *final(self) == *old(self),
            forall|j: int|
                #[trigger] old(self).is_first_edge(j, edge_id@) ==> final(self).skipped_from(old(self), j, r@),
    {
        match self.find_edge(edge_id) {
            Some(j) => {
                let r = self.skip_from(j);
                proof {
                    assert forall|j2: int| #[trigger] old(self).is_first_edge(j2, edge_id@) implies j2 == j by {
                        if j2 < j {
                            assert(old(self).names_edge(j2, edge_id@));
                        } else if j < j2 {
                            assert(old(self).names_edge(j as int, edge_id@));
                        }
                    }
                }
                r
            },
            None => Vec::new(),
        }
    }

    /// `self` is `o` after skipping the branch that starts at edge `start`,
    /// with `r` listing the nodes skipped: only skips happened, the start edge
    /// is settled, every edge that changed is the start edge or leaves a node
    /// skipped here, the skip is closed, and nothing changed at all when the
    /// start edge was already settled.
    pub open spec fn skipped_from(&self, o: &Workflow, start: int, r: Seq<(String, String)>) -> bool {
        &&& self.wf()
        &&& self.same_topology(o)
        &&& self.only_skips_since(o)
        &&& self.lists_new_skips(o, r)
        &&& forall|k: int|
            #![trigger self.newly_skipped_node(o, k)]
            self.newly_skipped_node(o, k) ==> self.all_incoming_skipped(k)
        &&& self.edge_state(start) != NodeState::Unknown
        &&& (o.edge_state(start) != NodeState::Unknown ==> r.len() == 0 && *self == *o)
        &&& forall|j: int|
            0 <= j < self.edge_count() && #[trigger] self.edge_state(j) != o.edge_state(j) ==> j == start
                || self.newly_skipped_node(o, self.source_of(j))
        &&& self.skip_closed(o)
    }

    /// Skips the branch that starts at edge `start`: the edge is skipped, then
    /// each node all of whose incoming edges are skipped and that is still
    /// unknown, then the edges leaving it, and so on. Returns, for each node
    /// skipped by this call, its id and the id of the edge whose skipping
    /// completed it.
    pub fn skip_from(&mut self, start: usize) -> (r: Vec<(String, String)>)
        requires
            old(self).wf(),
            start < old(self).edge_count(),
        ensures
            final(self).skipped_from(old(self), start as int, r@),
    {
        let ghost w0 = *self;
        let mut out: Vec<(String, String)> = Vec::new();
        proof {
            self.lemma_wf();
            lemma_topology_step(self, &w0, &w0);
        }
        if self.edge_status[start] != NodeState::Unknown {
            proof {
                assert forall|k: int| #[trigger] self.newly_skipped_node(&w0, k) implies false by {}
            }
            return out;
        }
        let mut stack: Vec<usize> = Vec::new();
        stack.push(start);
        let ghost mut ks: Seq<int> = seq![];
        proof {
            assert(stack@[0] == start);
            lemma_topology_step(self, &w0, &w0);
            lemma_closure_start(&w0, stack@);
        }
        while stack.len() > 0
            invariant
                closure_inv(self, &w0, stack@),
                self.wf(),
                w0.wf(),
                self.same_topology(&w0),
                self.only_skips_since(&w0),
                start < self.edge_count(),
                forall|i: int| 0 <= i < stack@.len() ==> #[trigger] stack@[i] < self.edge_count(),
                forall|i: int|
                    0 <= i < stack@.len() ==> #[trigger] stack@[i] == start || self.newly_skipped_node(
                        &w0,
                        self.source_of(stack@[i] as int),
                    ),
                forall|j2: int|
                    0 <= j2 < self.edge_count() && #[trigger] self.edge_state(j2) != w0.edge_state(j2) ==> j2 == start
                        || self.newly_skipped_node(&w0, self.source_of(j2)),
                forall|a: int, b: int| 0 <= a < b < ks.len() ==> #[trigger] ks[a] != #[trigger] ks[b],
                ks.len() == out@.len(),
                forall|i: int|
                    0 <= i < ks.len() ==> self.newly_skipped_node(&w0, #[trigger] ks[i])
                        && out@[i].0@ == self.node_at(ks[i]).id@ && self.entered_by_skipped(ks[i], out@[i].1@),
                forall|k: int|
                    #![trigger self.newly_skipped_node(&w0, k)]
                    self.newly_skipped_node(&w0, k) ==> ks.contains(k) && self.all_incoming_skipped(k),
                self.edge_state(start as int) != NodeState::Unknown || stack@.contains(start),
            decreases count_unknown(self.node_status@), stack@.len(),
        {
            let ghost prev = *self;
            let ghost prev_stack = stack@;
            let ghost mut changed_j = false;
            let ghost mut changed_t = false;
            let j = stack.pop().unwrap();
            let ghost after_pop = stack@;
            let nedges = self.edges.len();
            proof {
                assert(prev_stack =~= stack@.push(j));
                assert forall|i: int| 0 <= i < stack@.len() implies #[trigger] stack@[i] == prev_stack[i] by {}
                assert(prev_stack[prev_stack.len() - 1] == j);
                lemma_push_contains(stack@, j);
                self.lemma_wf();
                if start != j && self.edge_state(start as int) == NodeState::Unknown {
                    assert(stack@.push(j).contains(start));
                }
            }
            if self.edge_status[j] == NodeState::Unknown {
                self.edge_status.set(j, NodeState::Skipped);
                let t = self.ends[j].1;
                proof {
                    changed_j = true;
                    lemma_topology_step(self, &prev, &w0);
                    assert forall|j2: int| 0 <= j2 < self.edge_count() implies #[trigger] self.edge_state(j2)
                        == w0.edge_state(j2) || (w0.edge_state(j2) == NodeState::Unknown
                        && self.edge_state(j2) == NodeState::Skipped) by {
                        if j2 != j {
                            assert(self.edge_state(j2) == prev.edge_state(j2));
                        } else {
                            assert(prev.edge_state(j2) == NodeState::Unknown);
                        }
                    }
                    assert forall|k2: int| 0 <= k2 < self.node_count() implies #[trigger] self.node_state(k2)
                        == w0.node_state(k2) || (w0.node_state(k2) == NodeState::Unknown
                        && self.node_state(k2) == NodeState::Skipped) by {
                        assert(self.node_state(k2) == prev.node_state(k2));
                    }
                    assert(self.only_skips_since(&prev)) by {
                        assert forall|k2: int| 0 <= k2 < self.node_count() implies #[trigger] self.node_state(k2)
                            == prev.node_state(k2) || (prev.node_state(k2) == NodeState::Unknown
                            && self.node_state(k2) == NodeState::Skipped) by {}
                        assert forall|j2: int| 0 <= j2 < self.edge_count() implies #[trigger] self.edge_state(j2)
                            == prev.edge_state(j2) || (prev.edge_state(j2) == NodeState::Unknown
                            && self.edge_state(j2) == NodeState::Skipped) by {}
                    }
                    lemma_topology_step(self, &prev, &prev);
                    assert forall|i: int| 0 <= i < stack@.len() implies #[trigger] stack@[i] == start
                        || self.newly_skipped_node(&w0, self.source_of(stack@[i] as int)) by {
                        assert(stack@[i] == prev_stack[i]);
                        assert(prev_stack[i] == start || prev.newly_skipped_node(&w0, prev.source_of(prev_stack[i] as int)));
                        let _ = self.edge_at(stack@[i] as int);
                    }
                    assert forall|a: int, b: int| 0 <= a < b < ks.len() implies #[trigger] ks[a] != #[trigger] ks[b] by {}
                    assert forall|i: int| 0 <= i < ks.len() implies self.entered_by_skipped(
                        #[trigger] ks[i],
                        out@[i].1@,
                    ) by {
                        lemma_entered_stays(&prev, self, ks[i], out@[i].1@);
                    }
                    assert forall|k: int|
                        #![trigger self.newly_skipped_node(&w0, k)]
                        self.newly_skipped_node(&w0, k) implies ks.contains(k) && self.all_incoming_skipped(k) by {
                        assert(prev.newly_skipped_node(&w0, k));
                        assert forall|j3: int|
                            0 <= j3 < self.edge_count() && #[trigger] self.target_of(j3) == k implies
                            self.edge_state(j3) == NodeState::Skipped by {
                            assert(prev.target_of(j3) == k);
                        }
                    }
                    self.lemma_wf();
                }
                if self.node_status[t] == NodeState::Unknown && self.incoming_all_skipped(t) {
                    let ghost before = self.node_status@;
                    let ghost mid = *self;
                    self.node_status.set(t, NodeState::Skipped);
                    proof {
                        changed_t = true;
                        lemma_count_unknown_update(before, t as int);
                        lemma_topology_step(self, &mid, &w0);
                        assert(mid.node_state(t as int) == NodeState::Unknown);
                        assert(mid.node_state(t as int) == w0.node_state(t as int) || (w0.node_state(t as int) == NodeState::Unknown
                            && mid.node_state(t as int) == NodeState::Skipped));
                        assert forall|k2: int| 0 <= k2 < self.node_count() implies #[trigger] self.node_state(k2)
                            == w0.node_state(k2) || (w0.node_state(k2) == NodeState::Unknown
                            && self.node_state(k2) == NodeState::Skipped) by {
                            if k2 != t {
                                assert(self.node_state(k2) == mid.node_state(k2));
                            }
                        }
                        assert forall|j2: int| 0 <= j2 < self.edge_count() implies #[trigger] self.edge_state(j2)
                            == w0.edge_state(j2) || (w0.edge_state(j2) == NodeState::Unknown
                            && self.edge_state(j2) == NodeState::Skipped) by {
                            assert(self.edge_state(j2) == mid.edge_state(j2));
                        }
                        lemma_push_contains(ks, t as int);
                        assert(mid.all_incoming_skipped(t as int));
                        assert forall|k: int|
                            #![trigger self.newly_skipped_node(&w0, k)]
                            self.newly_skipped_node(&w0, k) implies self.all_incoming_skipped(k) by {
                            assert forall|j3: int|
                                0 <= j3 < self.edge_count() && #[trigger] self.target_of(j3) == k implies
                                self.edge_state(j3) == NodeState::Skipped by {
                                assert(mid.target_of(j3) == k);
                                if k != t {
                                    assert(mid.newly_skipped_node(&w0, k));
                                }
                            }
                        }
                    }
                    out.push((self.nodes[t].id.clone(), self.edges[j].id.clone()));
                    proof {
                        let ghost ks0 = ks;
                        assert forall|x: int| 0 <= x < ks0.len() implies #[trigger] ks0[x] != t by {
                            assert(mid.newly_skipped_node(&w0, ks0[x]));
                        }
                        assert(self.newly_skipped_node(&w0, t as int));
                        assert forall|i: int| 0 <= i < stack@.len() implies #[trigger] stack@[i] == start
                            || self.newly_skipped_node(&w0, self.source_of(stack@[i] as int)) by {
                            assert(stack@[i] == start || mid.newly_skipped_node(&w0, mid.source_of(stack@[i] as int)));
                            let _ = self.edge_at(stack@[i] as int);
                            let src = self.source_of(stack@[i] as int);
                            if stack@[i] != start && src != t {
                                assert(self.node_state(src) == mid.node_state(src));
                            }
                        }
                        ks = ks.push(t as int);
                        assert forall|a: int, b: int| 0 <= a < b < ks.len() implies #[trigger] ks[a] != #[trigger] ks[b] by {
                            if b == ks.len() - 1 {
                                assert(ks[a] == ks0[a]);
                            } else {
                                assert(ks[a] == ks0[a] && ks[b] == ks0[b]);
                            }
                        }
                        assert forall|k: int|
                            #![trigger self.newly_skipped_node(&w0, k)]
                            self.newly_skipped_node(&w0, k) implies ks.contains(k) by {
                            if k != t {
                                assert(mid.newly_skipped_node(&w0, k));
                                assert(prev.node_state(k) == mid.node_state(k));
                                assert(prev.newly_skipped_node(&w0, k));
                                assert(ks0.contains(k));
                            }
                        }
                        assert(self.only_skips_since(&mid)) by {
                            assert forall|k2: int| 0 <= k2 < self.node_count() implies #[trigger] self.node_state(k2)
                                == mid.node_state(k2) || (mid.node_state(k2) == NodeState::Unknown
                                && self.node_state(k2) == NodeState::Skipped) by {}
                            assert forall|j2: int| 0 <= j2 < self.edge_count() implies #[trigger] self.edge_state(j2)
                                == mid.edge_state(j2) || (mid.edge_state(j2) == NodeState::Unknown
                                && self.edge_state(j2) == NodeState::Skipped) by {}
                        }
                        lemma_topology_step(self, &mid, &mid);
                        assert forall|i: int|
                            0 <= i < ks.len() implies self.newly_skipped_node(&w0, #[trigger] ks[i])
                                && out@[i].0@ == self.node_at(ks[i]).id@ && self.entered_by_skipped(ks[i], out@[i].1@) by {
                            if i < ks.len() - 1 {
                                assert(mid.newly_skipped_node(&w0, ks[i]));
                                assert(mid.entered_by_skipped(ks[i], out@[i].1@));
                                lemma_entered_stays(&mid, self, ks[i], out@[i].1@);
                            } else {
                                assert(self.target_of(j as int) == t);
                                assert(self.edge_state(j as int) == NodeState::Skipped);
                            }
                        }
                    }
                    let ghost base = stack@;
                    let mut e: usize = 0;
                    while e < self.ends.len()
                        invariant
                            self.wf(),
                            e <= self.edge_count(),
                            forall|i: int| 0 <= i < stack@.len() ==> #[trigger] stack@[i] < self.edge_count(),
                            forall|x: usize| base.contains(x) ==> #[trigger] stack@.contains(x),
                            forall|i: int| 0 <= i < e && #[trigger] self.source_of(i) == t ==> stack@.contains(i as usize),
                            self.newly_skipped_node(&w0, t as int),
                            forall|i: int|
                                0 <= i < stack@.len() ==> #[trigger] stack@[i] == start || self.newly_skipped_node(
                                    &w0,
                                    self.source_of(stack@[i] as int),
                                ),
                        decreases self.edge_count() - e,
                    {
                        if self.ends[e].0 == t {
                            proof {
                                lemma_push_contains(stack@, e);
                            }
                            stack.push(e);
                        }
                        proof {
                            lemma_push_contains(stack@, e);
                        }
                        e = e + 1;
                    }
                    proof {
                        assert(e == self.edge_count());
                    }
                }
            }
            proof {
                assert(forall|x: usize| after_pop.contains(x) ==> #[trigger] stack@.contains(x));
                lemma_topology_step(self, &prev, &prev);
                lemma_closure_step(&w0, &prev, self, prev_stack, after_pop, stack@, j, changed_j, changed_t);
                self.lemma_wf();
                assert forall|k: int| prev.newly_skipped_node(&w0, k) implies #[trigger] self.newly_skipped_node(&w0, k) by {
                    assert(self.node_state(k) == prev.node_state(k) || (prev.node_state(k) == NodeState::Unknown
                        && self.node_state(k) == NodeState::Skipped));
                }
                assert forall|j2: int|
                    0 <= j2 < self.edge_count() && #[trigger] self.edge_state(j2) != w0.edge_state(j2) implies j2 == start
                        || self.newly_skipped_node(&w0, self.source_of(j2)) by {
                    assert(self.source_of(j2) == prev.source_of(j2));
                    if changed_j && j2 == j {
                        assert(prev_stack[prev_stack.len() - 1] == j);
                        if j2 != start {
                            assert(prev.newly_skipped_node(&w0, prev.source_of(j2)));
                        }
                    } else {
                        assert(self.edge_state(j2) == prev.edge_state(j2));
                        if j2 != start {
                            assert(prev.newly_skipped_node(&w0, prev.source_of(j2)));
                        }
                    }
                }
            }
        }
        proof {
            assert(stack@ =~= Seq::<usize>::empty());
            lemma_closure_end(self, &w0);
            self.lemma_wf();
            assert forall|a: int, b: int| 0 <= a < b < out@.len() implies (#[trigger] out@[a]).0@ != (#[trigger] out@[b]).0@ by {
                assert(ks[a] != ks[b]);
                assert(self.node_at(ks[a]).id@ != self.node_at(ks[b]).id@);
            }
            assert forall|k: int| #[trigger] self.newly_skipped_node(&w0, k) implies exists|i: int|
                0 <= i < out@.len() && #[trigger] out@[i].0@ == self.node_at(k).id@ by {
                let i = choose|i: int| 0 <= i < ks.len() && ks[i] == k;
                assert(out@[i].0@ == self.node_at(k).id@);
            }
            assert forall|i: int| 0 <= i < out@.len() implies self.skip_entry(&w0, (#[trigger] out@[i]).0@, out@[i].1@) by {
                assert(self.newly_skipped_node(&w0, ks[i]));
            }
        }
        out
    }
}


/// Skips compose: what was skipped from `a` to `b` and from `b` to `c` is what
/// was skipped from `a` to `c`.
/// The lists of two skips name no node twice between them.
proof fn lemma_compose_distinct(a: &Workflow, b: &Workflow, c: &Workflow, rb: Seq<(String, String)>, rc: Seq<(String, String)>)
    requires
        b.same_topology(a),
        c.same_topology(b),
        b.lists_new_skips(a, rb),
        c.lists_new_skips(b, rc),
        c.wf(),
    ensures
        forall|x: int, y: int| 0 <= x < y < (rb + rc).len() ==> (#[trigger] (rb + rc)[x]).0@ != (#[trigger] (rb + rc)[y]).0@,
{
    c.lemma_wf();
    let r = rb + rc;
    assert forall|x: int, y: int| 0 <= x < y < r.len() implies (#[trigger] r[x]).0@ != (#[trigger] r[y]).0@ by {
        if y < rb.len() {
            assert(r[x] == rb[x] && r[y] == rb[y]);
        } else if x >= rb.len() {
            assert(r[x] == rc[x - rb.len()] && r[y] == rc[y - rb.len()]);
        } else {
            assert(r[x] == rb[x] && r[y] == rc[y - rb.len()]);
            assert(b.skip_entry(a, rb[x].0@, rb[x].1@));
            let k1 = choose|k: int|
                #[trigger] b.newly_skipped_node(a, k) && b.node_at(k).id@ == rb[x].0@ && b.entered_by_skipped(k, rb[x].1@);
            assert(c.skip_entry(b, rc[y - rb.len()].0@, rc[y - rb.len()].1@));
            let k2 = choose|k: int|
                #[trigger] c.newly_skipped_node(b, k) && c.node_at(k).id@ == rc[y - rb.len()].0@ && c.entered_by_skipped(
                    k,
                    rc[y - rb.len()].1@,
                );
            assert(k1 != k2);
            assert(c.node_at(k1) == b.node_at(k1));
            assert(c.node_at(k1).id@ != c.node_at(k2).id@);
        }
    }
}

proof fn lemma_skips_compose(a: &Workflow, b: &Workflow, c: &Workflow, rb: Seq<(String, String)>, rc: Seq<(String, String)>)
    requires
        b.same_topology(a),
        c.same_topology(b),
        b.only_skips_since(a),
        c.only_skips_since(b),
        b.lists_new_skips(a, rb),
        c.lists_new_skips(b, rc),
        forall|k: int| #![trigger b.newly_skipped_node(a, k)] b.newly_skipped_node(a, k) ==> b.all_incoming_skipped(k),
        forall|k: int| #![trigger c.newly_skipped_node(b, k)] c.newly_skipped_node(b, k) ==> c.all_incoming_skipped(k),
        b.skip_closed(a),
        c.skip_closed(b),
        c.wf(),
    ensures
        c.skip_closed(a),
        c.same_topology(a),
        c.only_skips_since(a),
        c.lists_new_skips(a, rb + rc),
        forall|k: int| #![trigger c.newly_skipped_node(a, k)] c.newly_skipped_node(a, k) ==> c.all_incoming_skipped(k),
{
    assert forall|k: int| 0 <= k < c.node_count() implies #[trigger] c.node_at(k) == a.node_at(k) by {
        assert(b.node_at(k) == a.node_at(k));
    }
    assert forall|j: int| 0 <= j < c.edge_count() implies {
        &&& #[trigger] c.edge_at(j) == a.edge_at(j)
        &&& c.source_of(j) == a.source_of(j)
        &&& c.target_of(j) == a.target_of(j)
    } by {
        assert(b.edge_at(j) == a.edge_at(j));
    }
    assert forall|k: int| 0 <= k < c.node_count() implies #[trigger] c.node_state(k) == a.node_state(k) || (
        a.node_state(k) == NodeState::Unknown && c.node_state(k) == NodeState::Skipped) by {
        assert(b.node_state(k) == a.node_state(k) || (a.node_state(k) == NodeState::Unknown
            && b.node_state(k) == NodeState::Skipped));
    }
    assert forall|j: int| 0 <= j < c.edge_count() implies #[trigger] c.edge_state(j) == a.edge_state(j) || (
        a.edge_state(j) == NodeState::Unknown && c.edge_state(j) == NodeState::Skipped) by {
        assert(b.edge_state(j) == a.edge_state(j) || (a.edge_state(j) == NodeState::Unknown
            && b.edge_state(j) == NodeState::Skipped));
    }
    let r = rb + rc;
    assert forall|i: int| 0 <= i < r.len() implies c.skip_entry(a, (#[trigger] r[i]).0@, r[i].1@) by {
        if i < rb.len() {
            assert(r[i] == rb[i]);
            assert(b.skip_entry(a, rb[i].0@, rb[i].1@));
            let k = choose|k: int|
                #[trigger] b.newly_skipped_node(a, k) && b.node_at(k).id@ == rb[i].0@ && b.entered_by_skipped(k, rb[i].1@);
            assert(c.node_state(k) == b.node_state(k) || b.node_state(k) == NodeState::Unknown);
            assert(c.newly_skipped_node(a, k));
            lemma_entered_stays(b, c, k, rb[i].1@);
        } else {
            assert(r[i] == rc[i - rb.len()]);
            assert(c.skip_entry(b, rc[i - rb.len()].0@, rc[i - rb.len()].1@));
            let k = choose|k: int|
                #[trigger] c.newly_skipped_node(b, k) && c.node_at(k).id@ == rc[i - rb.len()].0@ && c.entered_by_skipped(
                    k,
                    rc[i - rb.len()].1@,
                );
            assert(c.newly_skipped_node(a, k));
        }
    }
    assert forall|k: int| #![trigger c.newly_skipped_node(a, k)] c.newly_skipped_node(a, k) implies exists|i: int|
        0 <= i < r.len() && #[trigger] r[i].0@ == c.node_at(k).id@ by {
        if b.node_state(k) == NodeState::Skipped {
            assert(b.newly_skipped_node(a, k));
            let i = choose|i: int| 0 <= i < rb.len() && #[trigger] rb[i].0@ == b.node_at(k).id@;
            assert(r[i] == rb[i]);
        } else {
            assert(b.node_state(k) == a.node_state(k) || (a.node_state(k) == NodeState::Unknown
                && b.node_state(k) == NodeState::Skipped));
            assert(c.node_state(k) == b.node_state(k) || (b.node_state(k) == NodeState::Unknown
                && c.node_state(k) == NodeState::Skipped));
            assert(c.newly_skipped_node(b, k));
            let i = choose|i: int| 0 <= i < rc.len() && #[trigger] rc[i].0@ == c.node_at(k).id@;
            assert(r[i + rb.len()] == rc[i]);
        }
    }
    assert forall|k: int| #![trigger c.newly_skipped_node(a, k)] c.newly_skipped_node(a, k) implies c.all_incoming_skipped(k) by {
        if b.node_state(k) == NodeState::Skipped {
            assert(b.newly_skipped_node(a, k));
            assert forall|j: int| 0 <= j < c.edge_count() && #[trigger] c.target_of(j) == k implies c.edge_state(j)
                == NodeState::Skipped by {
                assert(c.edge_at(j) == b.edge_at(j));
                assert(b.target_of(j) == k);
            }
        } else {
            assert(b.node_state(k) == a.node_state(k) || (a.node_state(k) == NodeState::Unknown
                && b.node_state(k) == NodeState::Skipped));
            assert(c.node_state(k) == b.node_state(k) || (b.node_state(k) == NodeState::Unknown
                && c.node_state(k) == NodeState::Skipped));
            assert(c.newly_skipped_node(b, k));
        }
    }
    assert forall|k: int, j: int|
        #![trigger c.newly_skipped_node(a, k), c.source_of(j)]
        c.newly_skipped_node(a, k) && 0 <= j < c.edge_count() && c.source_of(j) == k implies c.edge_state(j)
            != NodeState::Unknown by {
        assert(b.node_state(k) == a.node_state(k) || (a.node_state(k) == NodeState::Unknown
            && b.node_state(k) == NodeState::Skipped));
        assert(c.node_state(k) == b.node_state(k) || (b.node_state(k) == NodeState::Unknown
            && c.node_state(k) == NodeState::Skipped));
        assert(c.edge_at(j) == b.edge_at(j));
        assert(c.edge_state(j) == b.edge_state(j) || (b.edge_state(j) == NodeState::Unknown
            && c.edge_state(j) == NodeState::Skipped));
        if b.node_state(k) == NodeState::Skipped {
            assert(b.newly_skipped_node(a, k));
            assert(b.source_of(j) == k);
        } else {
            assert(c.newly_skipped_node(b, k));
        }
    }
    assert forall|j: int|
        0 <= j < c.edge_count() && a.edge_state(j) == NodeState::Unknown && #[trigger] c.edge_state(j)
            == NodeState::Skipped implies c.node_state(c.target_of(j)) != NodeState::Unknown
            || !c.all_incoming_skipped(c.target_of(j)) by {
        c.lemma_wf();
        let t = c.target_of(j);
        assert(c.edge_at(j) == b.edge_at(j));
        assert(b.target_of(j) == t);
        assert(b.edge_state(j) == a.edge_state(j) || (a.edge_state(j) == NodeState::Unknown
            && b.edge_state(j) == NodeState::Skipped));
        assert(c.node_state(t) == b.node_state(t) || (b.node_state(t) == NodeState::Unknown
            && c.node_state(t) == NodeState::Skipped));
        if b.edge_state(j) == NodeState::Skipped {
            if b.node_state(t) == NodeState::Unknown && !b.all_incoming_skipped(t) {
                let jx = choose|jx: int|
                    0 <= jx < b.edge_count() && #[trigger] b.target_of(jx) == t && b.edge_state(jx) != NodeState::Skipped;
                assert(c.edge_at(jx) == b.edge_at(jx));
                assert(c.target_of(jx) == t);
                assert(c.edge_state(jx) == b.edge_state(jx) || (b.edge_state(jx) == NodeState::Unknown
                    && c.edge_state(jx) == NodeState::Skipped));
                if c.edge_state(jx) == NodeState::Skipped {
                    assert(b.edge_state(jx) == NodeState::Unknown);
                }
            }
        }
    }
    lemma_compose_distinct(a, b, c, rb, rc);
}

impl Workflow {
    /// `self` is `o` after skipping the branches that leave node `nid` by a
    /// handle other than `h`: only skips happened, `r` lists the nodes
    /// skipped, each of them has all its incoming edges skipped, no edge
    /// leaving `nid` by another handle is still unknown, and every edge that
    /// changed leaves `nid` by another handle or leaves a node skipped here.
    pub open spec fn unselected_skipped(&self, o: &Workflow, nid: Seq<char>, h: HandleView, r: Seq<(String, String)>) -> bool {
        &&& self.wf()
        &&& self.same_topology(o)
        &&& self.only_skips_since(o)
        &&& self.lists_new_skips(o, r)
        &&& self.skip_closed(o)
        &&& forall|k: int|
            #![trigger self.newly_skipped_node(o, k)]
            self.newly_skipped_node(o, k) ==> self.all_incoming_skipped(k)
        &&& forall|k: int, j: int|
            #![trigger o.names_node(k, nid), self.edge_state(j)]
            o.names_node(k, nid) && 0 <= j < self.edge_count() && self.source_of(j) == k
                && self.edge_at(j).source_handle@ != h ==> self.edge_state(j) != NodeState::Unknown
        &&& forall|j: int|
            0 <= j < self.edge_count() && #[trigger] self.edge_state(j) != o.edge_state(j) ==> (o.names_node(
                self.source_of(j),
                nid,
            ) && self.edge_at(j).source_handle@ != h) || self.newly_skipped_node(o, self.source_of(j))
    }

    /// Ids of the edges leaving the node with id `nid`, in edge order, with
    /// their current states.
    pub fn get_outgoing_edges(&self, nid: &String) -> (r: Vec<Edge>)
        requires
            self.wf(),
        ensures
            forall|k: int|
                #![trigger self.names_node(k, nid@)]
                self.names_node(k, nid@) ==> r@ == self.outgoing_upto(k, self.edge_count() as int),
            !self.has_node(nid@) ==> r@.len() == 0,
    {
        let mut out: Vec<Edge> = Vec::new();
        let k = match self.find_node(nid) {
            Some(k) => k,
            None => return out,
        };
        let mut j: usize = 0;
        while j < self.edges.len()
            invariant
                self.wf(),
                self.names_node(k as int, nid@),
                j <= self.edge_count(),
                out@ == self.outgoing_upto(k as int, j as int),
            decreases self.edge_count() - j,
        {
            if self.ends[j].0 == k {
                out.push(self.edges[j].with_status(self.edge_status[j]));
            }
            j = j + 1;
        }
        proof {
            assert forall|k2: int| self.names_node(k2, nid@) implies k2 == k by {
                if k2 != k {
                    assert(self.node_at(k2).id@ != self.node_at(k as int).id@);
                }
            }
        }
        out
    }

    /// Snapshots of the first `n` edges that leave node `k`.
    pub open spec fn outgoing_upto(&self, k: int, n: int) -> Seq<Edge>
        decreases n,
    {
        if n <= 0 {
            seq![]
        } else if self.source_of(n - 1) == k {
            self.outgoing_upto(k, n - 1).push(self.edge_snapshot(n - 1))
        } else {
            self.outgoing_upto(k, n - 1)
        }
    }

    /// Skips every branch leaving the node with id `nid` by a handle other
    /// than `selected_handle`. Returns the nodes skipped, each with the id of
    /// the edge whose skipping completed it.
    pub fn skip_unselected_branches(&mut self, nid: &String, selected_handle: &SourceHandle) -> (r: Vec<(String, String)>)
        requires
            old(self).wf(),
        ensures
            final(self).unselected_skipped(old(self), nid@, selected_handle@, r@),
    {
        let ghost w0 = *self;
        let mut all: Vec<(String, String)> = Vec::new();
        proof {
            lemma_topology_step(self, &w0, &w0);
        }
        let k = match self.find_node(nid) {
            Some(k) => k,
            None => {
                return all;
            },
        };
        proof {
            assert forall|k2: int| w0.names_node(k2, nid@) implies k2 == k by {
                if k2 != k {
                    assert(w0.node_at(k2).id@ != w0.node_at(k as int).id@);
                }
            }
        }
        let mut i: usize = 0;
        while i < self.edges.len()
            invariant
                self.skip_closed(&w0),
                self.wf(),
                w0.wf(),
                k < self.node_count(),
                forall|k2: int| w0.names_node(k2, nid@) ==> k2 == k,
                self.same_topology(&w0),
                self.only_skips_since(&w0),
                self.lists_new_skips(&w0, all@),
                i <= self.edge_count(),
                forall|k2: int|
                    #![trigger self.newly_skipped_node(&w0, k2)]
                    self.newly_skipped_node(&w0, k2) ==> self.all_incoming_skipped(k2),
                forall|j: int|
                    0 <= j < i && self.source_of(j) == k && self.edge_at(j).source_handle@ != selected_handle@
                        ==> #[trigger] self.edge_state(j) != NodeState::Unknown,
                forall|j: int|
                    0 <= j < self.edge_count() && #[trigger] self.edge_state(j) != w0.edge_state(j) ==> (self.source_of(j)
                        == k && self.edge_at(j).source_handle@ != selected_handle@) || self.newly_skipped_node(
                        &w0,
                        self.source_of(j),
                    ),
            decreases self.edge_count() - i,
        {
            if self.ends[i].0 == k && !self.edges[i].source_handle.same(selected_handle) {
                let ghost prev = *self;
                let mut r = self.skip_from(i);
                proof {
                    lemma_skips_compose(&w0, &prev, self, all@, r@);
                    assert forall|k2: int| prev.newly_skipped_node(&w0, k2) implies #[trigger] self.newly_skipped_node(&w0, k2) by {
                        assert(self.node_state(k2) == prev.node_state(k2) || prev.node_state(k2) == NodeState::Unknown);
                    }
                    assert forall|j: int|
                        0 <= j < self.edge_count() && #[trigger] self.edge_state(j) != w0.edge_state(j) implies (
                        self.source_of(j) == k && self.edge_at(j).source_handle@ != selected_handle@)
                            || self.newly_skipped_node(&w0, self.source_of(j)) by {
                        assert(self.edge_at(j) == prev.edge_at(j));
                        assert(self.source_of(j) == prev.source_of(j));
                        if self.edge_state(j) != prev.edge_state(j) {
                            if j != i {
                                let s = self.source_of(j);
                                assert(self.newly_skipped_node(&prev, s));
                                assert(prev.node_state(s) == w0.node_state(s) || prev.node_state(s) != NodeState::Unknown);
                            }
                        } else {
                            assert(prev.edge_state(j) != w0.edge_state(j));
                        }
                    }
                    assert forall|j: int|
                        0 <= j < i + 1 && self.source_of(j) == k && self.edge_at(j).source_handle@ != selected_handle@
                            implies #[trigger] self.edge_state(j) != NodeState::Unknown by {
                        if j < i {
                            assert(prev.edge_state(j) != NodeState::Unknown);
                        }
                    }
                }
                let ghost a0 = all@;
                let ghost r0 = r@;
                all.append(&mut r);
                proof {
                    assert(all@ =~= a0 + r0);
                }
            }
            i = i + 1;
        }
        proof {
            assert forall|j: int|
                0 <= j < self.edge_count() && #[trigger] self.edge_state(j) != w0.edge_state(j) implies (w0.names_node(
                    self.source_of(j),
                    nid@,
                ) && self.edge_at(j).source_handle@ != selected_handle@) || self.newly_skipped_node(&w0, self.source_of(j)) by {
                if self.source_of(j) == k && self.edge_at(j).source_handle@ != selected_handle@ {
                    assert(w0.names_node(k as int, nid@));
                }
            }
        }
        all
    }
}


/// Position of the first node in `nodes` with id `id`.
fn position_of(nodes: &Vec<Node>, id: &String) -> (r: Option<usize>)
    ensures
        r matches Some(k) ==> k < nodes@.len() && nodes@[k as int].id@ == id@,
        r is None ==> forall|k: int| 0 <= k < nodes@.len() ==> (#[trigger] nodes@[k]).id@ != id@,
{
    let mut i: usize = 0;
    while i < nodes.len()
        invariant
            i <= nodes@.len(),
            forall|k: int| 0 <= k < i ==> (#[trigger] nodes@[k]).id@ != id@,
        decreases nodes@.len() - i,
    {
        if nodes[i].id == *id {
            return Some(i);
        }
        i = i + 1;
    }
    None
}

impl Workflow {
    /// `self` is the graph that `m` defines, with every state unknown.
    pub open spec fn built_from(&self, m: WorkflowModel) -> bool {
        &&& self.wf()
        &&& self.node_count() == m.nodes@.len()
        &&& self.edge_count() == m.edges@.len()
        &&& forall|k: int|
            0 <= k < self.node_count() ==> {
                let n = #[trigger] self.node_at(k);
                let d = m.nodes@[k];
                &&& n.id@ == d.id@
                &&& n.title@ == d.title@
                &&& n.desc@ == d.desc@
                &&& n.uses == d.uses
                &&& n.error_strategy == match d.error_strategy {
                    Some(s) => s,
                    None => ErrorStrategy::Unset,
                }
                &&& n.retry == d.retry
                &&& n.timeout == d.timeout
                &&& self.node_state(k) == NodeState::Unknown
            }
        &&& forall|j: int|
            0 <= j < self.edge_count() ==> {
                let e = #[trigger] self.edge_at(j);
                let d = m.edges@[j];
                &&& e.id@ == d.id@
                &&& e.source@ == d.source@
                &&& e.target@ == d.target@
                &&& e.source_handle@ == handle_of_name(d.source_handle@)
                &&& self.edge_state(j) == NodeState::Unknown
            }
    }

    /// Builds the runtime graph of a definition. Fails when a node names no
    /// action, when two nodes share an id, or when an edge names a node that
    /// does not exist. Edges may share ids: they are kept by position.
    pub fn from_model(m: &WorkflowModel) -> (r: Result<Workflow, ActflowError>)
        ensures
            r is Ok <==> model_valid(*m),
            r matches Ok(w) ==> w.built_from(*m),
    {
        let mut nodes: Vec<Node> = Vec::new();
        let mut node_status: Vec<NodeState> = Vec::new();
        let mut i: usize = 0;
        while i < m.nodes.len()
            invariant
                i <= m.nodes@.len(),
                nodes@.len() == i,
                node_status@.len() == i,
                forall|k: int| 0 <= k < i ==> (#[trigger] m.nodes@[k]).uses != ActionType::Unset,
                forall|a: int, b: int| 0 <= a < b < i ==> (#[trigger] m.nodes@[a]).id@ != (#[trigger] m.nodes@[b]).id@,
                forall|k: int|
                    0 <= k < i ==> {
                        let n = #[trigger] nodes@[k];
                        let d = m.nodes@[k];
                        &&& n.id@ == d.id@
                        &&& n.title@ == d.title@
                        &&& n.desc@ == d.desc@
                        &&& n.uses == d.uses
                        &&& n.error_strategy == match d.error_strategy {
                            Some(s) => s,
                            None => ErrorStrategy::Unset,
                        }
                        &&& n.retry == d.retry
                        &&& n.timeout == d.timeout
                        &&& node_status@[k] == NodeState::Unknown
                    },
            decreases m.nodes@.len() - i,
        {
            let d = &m.nodes[i];
            if d.uses == ActionType::Unset {
                proof {
                    reveal_strlit("invalid 'uses'");
                }
                return Err(ActflowError::Node("invalid 'uses'".to_owned()));
            }
            if position_of(&nodes, &d.id).is_some() {
                proof {
                    reveal_strlit("duplicate node id: ");
                }
                return Err(ActflowError::Workflow("duplicate node id: ".to_owned().concat(d.id.as_str())));
            }
            proof {
                assert forall|a: int| 0 <= a < i implies (#[trigger] m.nodes@[a]).id@ != m.nodes@[i as int].id@ by {
                    assert(nodes@[a].id@ == m.nodes@[a].id@);
                }
            }
            let strategy = match d.error_strategy {
                Some(s) => s,
                None => ErrorStrategy::Unset,
            };
            nodes.push(
                Node {
                    id: d.id.clone(),
                    title: d.title.clone(),
                    desc: d.desc.clone(),
                    error_strategy: strategy,
                    retry: d.retry,
                    uses: d.uses,
                    status: NodeState::Unknown,
                    timeout: d.timeout,
                },
            );
            node_status.push(NodeState::Unknown);
            i = i + 1;
        }
        let mut edges: Vec<Edge> = Vec::new();
        let mut ends: Vec<(usize, usize)> = Vec::new();
        let mut edge_status: Vec<NodeState> = Vec::new();
        let mut j: usize = 0;
        while j < m.edges.len()
            invariant
                nodes@.len() == m.nodes@.len(),
                forall|k: int| 0 <= k < m.nodes@.len() ==> (#[trigger] m.nodes@[k]).uses != ActionType::Unset,
                forall|a: int, b: int| 0 <= a < b < m.nodes@.len() ==> (#[trigger] m.nodes@[a]).id@ != (#[trigger] m.nodes@[b]).id@,
                forall|k: int| 0 <= k < m.nodes@.len() ==> (#[trigger] nodes@[k]).id@ == m.nodes@[k].id@,
                j <= m.edges@.len(),
                edges@.len() == j,
                ends@.len() == j,
                edge_status@.len() == j,
                forall|q: int| 0 <= q < j ==> #[trigger] edge_resolves(*m, q),
                forall|q: int|
                    0 <= q < j ==> {
                        let e = #[trigger] edges@[q];
                        let d = m.edges@[q];
                        &&& e.id@ == d.id@
                        &&& e.source@ == d.source@
                        &&& e.target@ == d.target@
                        &&& e.source_handle@ == handle_of_name(d.source_handle@)
                        &&& edge_status@[q] == NodeState::Unknown
                        &&& ends@[q].0 < nodes@.len()
                        &&& ends@[q].1 < nodes@.len()
                        &&& nodes@[ends@[q].0 as int].id@ == d.source@
                        &&& nodes@[ends@[q].1 as int].id@ == d.target@
                    },
            decreases m.edges@.len() - j,
        {
            let d = &m.edges[j];
            let s = match position_of(&nodes, &d.source) {
                Some(s) => s,
                None => {
                    proof {
                        reveal_strlit("source node ");
                        reveal_strlit(" not found");
                        assert(!model_valid(*m)) by {
                            if model_valid(*m) {
                                assert(edge_resolves(*m, j as int));
                                let k = choose|k: int| model_names_node(*m, k, m.edges@[j as int].source@);
                                assert(nodes@[k].id@ == m.nodes@[k].id@);
                            }
                        }
                    }
                    return Err(ActflowError::Edge("source node ".to_owned().concat(d.source.as_str()).concat(" not found")));
                },
            };
            let t = match position_of(&nodes, &d.target) {
                Some(t) => t,
                None => {
                    proof {
                        reveal_strlit("target node ");
                        reveal_strlit(" not found");
                        assert(!model_valid(*m)) by {
                            if model_valid(*m) {
                                assert(edge_resolves(*m, j as int));
                                let k = choose|k: int| model_names_node(*m, k, m.edges@[j as int].target@);
                                assert(nodes@[k].id@ == m.nodes@[k].id@);
                            }
                        }
                    }
                    return Err(ActflowError::Edge("target node ".to_owned().concat(d.target.as_str()).concat(" not found")));
                },
            };
            proof {
                assert(model_names_node(*m, s as int, m.edges@[j as int].source@));
                assert(model_names_node(*m, t as int, m.edges@[j as int].target@));
                assert(exists|k: int| model_names_node(*m, k, m.edges@[j as int].source@));
                assert(exists|k: int| model_names_node(*m, k, m.edges@[j as int].target@));
                assert(edge_resolves(*m, j as int));
            }
            edges.push(
                Edge {
                    id: d.id.clone(),
                    source: d.source.clone(),
                    target: d.target.clone(),
                    source_handle: SourceHandle::from_name(&d.source_handle),
                    status: NodeState::Unknown,
                },
            );
            ends.push((s, t));
            edge_status.push(NodeState::Unknown);
            j = j + 1;
        }
        let w = Workflow { nodes, edges, ends, node_status, edge_status };
        proof {
            assert forall|a: int, b: int|
                0 <= a < w.nodes@.len() && 0 <= b < w.nodes@.len() && a != b implies #[trigger] w.nodes@[a].id@
                != #[trigger] w.nodes@[b].id@ by {
                if a < b {
                    assert(m.nodes@[a].id@ != m.nodes@[b].id@);
                } else {
                    assert(m.nodes@[b].id@ != m.nodes@[a].id@);
                }
            }
            assert forall|q: int| 0 <= q < w.edges@.len() implies {
                &&& (#[trigger] w.ends@[q]).0 < w.nodes@.len()
                &&& w.ends@[q].1 < w.nodes@.len()
                &&& w.nodes@[w.ends@[q].0 as int].id@ == w.edges@[q].source@
                &&& w.nodes@[w.ends@[q].1 as int].id@ == w.edges@[q].target@
            } by {
                let _ = w.edges@[q];
            }
            assert(w.wf());
        }
        Ok(w)
    }
}

} // verus!
