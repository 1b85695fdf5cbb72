//! A running workflow and the engine's table of live processes.

use vstd::prelude::*;

use crate::dispatch::{command_handled, completion_handled, spawns_none, DispatchAction, Dispatcher, WorkflowCommand};
use crate::engine::{after_launch, after_shutdown, Lifecycle};
use crate::error::ActflowError;
use crate::events::NodeEvent;
use crate::graph::Workflow;
use crate::json::Vars;
use crate::model::{model_valid, WorkflowModel};
use crate::node::NodeState;
use crate::template::Context;

verus! {

/// One execution of a workflow: its ids and its dispatcher.
pub struct Process {
    id: String,
    wid: String,
    dispatcher: Dispatcher,
}

impl Process {
    pub closed spec fn id_view(&self) -> Seq<char> {
        self.id@
    }

    pub closed spec fn wid_view(&self) -> Seq<char> {
        self.wid@
    }

    pub closed spec fn dispatcher_view(&self) -> Dispatcher {
        self.dispatcher
    }

    pub open spec fn wf(&self) -> bool {
        self.dispatcher_view().wf()
    }

    pub open spec fn complete(&self) -> bool {
        self.dispatcher_view().complete()
    }

    /// A process `id` of workflow `wid` from a context and a built graph,
    /// none of whose nodes has executed.
    pub fn assemble(id: String, wid: String, ctx: Context, workflow: Workflow) -> (r: Process)
        requires
            workflow.wf(),
            forall|k: int| 0 <= k < workflow.node_count() ==> #[trigger] workflow.node_state(k) != NodeState::Executed,
        ensures
            r.wf(),
            !r.complete(),
            r.id_view() == id@,
            r.wid_view() == wid@,
            r.dispatcher_view().endings() == 0,
            r.dispatcher_view().context_view() == ctx,
            r.dispatcher_view().workflow_view() == workflow,
    {
        Process { id, wid, dispatcher: Dispatcher::new(ctx, workflow) }
    }

    /// A process `id` for a definition: its graph, and a context holding the
    /// definition's environment. Fails exactly when the definition is invalid.
    pub fn new(id: String, model: &WorkflowModel) -> (r: Result<Process, ActflowError>)
        ensures
            r is Ok <==> model_valid(*model),
            r matches Ok(p) ==> {
                &&& p.wf()
                &&& !p.complete()
                &&& p.id_view() == id@
                &&& p.wid_view() == model.id@
                &&& p.dispatcher_view().endings() == 0
                &&& p.dispatcher_view().workflow_view().built_from(*model)
                &&& p.dispatcher_view().context_view().env_view() == model.env@
                &&& p.dispatcher_view().context_view().pid_view() == id@
                &&& p.dispatcher_view().context_view().outputs_view().len() == 0
            },
    {
        let ctx = Context::from_env(id.clone(), &model.env);
        let workflow = match Workflow::from_model(model) {
            Ok(w) => w,
            Err(e) => return Err(e),
        };
        proof {
            assert forall|k: int| 0 <= k < workflow.node_count() implies #[trigger] workflow.node_state(k)
                != NodeState::Executed by {
                let _ = workflow.node_at(k);
            }
        }
        Ok(Process::assemble(id, model.id.clone(), ctx, workflow))
    }

    pub fn id(&self) -> (r: &String)
        ensures
            r@ == self.id_view(),
    {
        &self.id
    }

    pub fn wid(&self) -> (r: &String)
        ensures
            r@ == self.wid_view(),
    {
        &self.wid
    }

    /// Submits the start command.
    pub fn start(&mut self) -> (r: Vec<DispatchAction>)
        requires
            old(self).wf(),
        ensures
            final(self).wf(),
            final(self).id_view() == old(self).id_view(),
            final(self).wid_view() == old(self).wid_view(),
            command_handled(old(self).dispatcher_view(), final(self).dispatcher_view(), WorkflowCommand::Start, r@),
    {
        self.dispatcher.handle_command(WorkflowCommand::Start)
    }

    /// Submits the abort command: a running process completes.
    pub fn abort(&mut self) -> (r: Vec<DispatchAction>)
        requires
            old(self).wf(),
        ensures
            final(self).wf(),
            final(self).id_view() == old(self).id_view(),
            final(self).wid_view() == old(self).wid_view(),
            final(self).complete(),
            spawns_none(r@),
            command_handled(old(self).dispatcher_view(), final(self).dispatcher_view(), WorkflowCommand::Abort, r@),
    {
        self.dispatcher.handle_command(WorkflowCommand::Abort)
    }

    /// Hands a node's completion to the dispatcher.
    pub fn complete_node(&mut self, nid: String, event: NodeEvent, outputs: Option<Vars>) -> (r: Vec<DispatchAction>)
        requires
            old(self).wf(),
        ensures
            final(self).wf(),
            final(self).id_view() == old(self).id_view(),
            final(self).wid_view() == old(self).wid_view(),
            completion_handled(old(self).dispatcher_view(), final(self).dispatcher_view(), nid@, event, outputs, r@),
    {
        self.dispatcher.handle_completion(nid, event, outputs)
    }

    /// Whether a terminal event was published or the process was stopped.
    pub fn is_complete(&self) -> (r: bool)
        ensures
            r == self.complete(),
    {
        self.dispatcher.is_complete()
    }

    /// The context, with the outputs collected so far.
    pub fn context(&self) -> (r: &Context)
        ensures
            *r == self.dispatcher_view().context_view(),
    {
        self.dispatcher.context()
    }

    /// The dispatcher.
    pub fn dispatcher(&self) -> (r: &Dispatcher)
        ensures
            *r == self.dispatcher_view(),
    {
        &self.dispatcher
    }
}

pub open spec fn not_running() -> Seq<char> {
    seq!['E', 'n', 'g', 'i', 'n', 'e', ' ', 'i', 's', ' ', 'n', 'o', 't', ' ', 'r', 'u', 'n', 'n', 'i', 'n', 'g']
}

/// The engine's state: its lifecycle and the live processes, least recently
/// used first, at most `capacity` of them.
pub struct Engine {
    lifecycle: Lifecycle,
    procs: Vec<Process>,
    capacity: usize,
}

impl Engine {
    pub closed spec fn lifecycle_view(&self) -> Lifecycle {
        self.lifecycle
    }

    /// Ids of the live processes, least recently used first.
    pub closed spec fn pids(&self) -> Seq<Seq<char>> {
        self.procs@.map_values(|p: Process| p.id_view())
    }

    /// Every live process is complete.
    pub closed spec fn all_complete(&self) -> bool {
        forall|i: int| 0 <= i < self.procs@.len() ==> (#[trigger] self.procs@[i]).complete()
    }

    /// The live process at position `i`, least recently used first.
    pub closed spec fn process_at(&self, i: int) -> Process {
        self.procs@[i]
    }

    pub open spec fn running(&self) -> bool {
        self.lifecycle_view().launched && !self.lifecycle_view().shut_down
    }

    pub closed spec fn capacity_view(&self) -> nat {
        self.capacity as nat
    }

    pub closed spec fn wf(&self) -> bool {
        &&& self.capacity > 0
        &&& self.procs@.len() <= self.capacity
        &&& forall|i: int| 0 <= i < self.procs@.len() ==> (#[trigger] self.procs@[i]).wf()
        &&& forall|a: int, b: int|
            0 <= a < self.procs@.len() && 0 <= b < self.procs@.len() && a != b ==> (#[trigger] self.procs@[a]).id_view()
                != (#[trigger] self.procs@[b]).id_view()
    }

    /// An engine that keeps at most `capacity` processes.
    pub fn new(capacity: usize) -> (r: Engine)
        requires
            capacity > 0,
        ensures
            r.wf(),
            r.pids().len() == 0,
            r.capacity_view() == capacity,
            !r.lifecycle_view().launched,
            !r.lifecycle_view().shut_down,
    {
        Engine { lifecycle: Lifecycle::new(), procs: Vec::new(), capacity }
    }

    /// Requests a launch; true only for the first request before shutdown.
    pub fn launch(&mut self) -> (r: bool)
        requires
            old(self).wf(),
        ensures
            final(self).wf(),
            final(self).lifecycle_view() == after_launch(old(self).lifecycle_view()),
            r == (!old(self).lifecycle_view().launched && !old(self).lifecycle_view().shut_down),
            final(self).pids() == old(self).pids(),
    {
        self.lifecycle.launch()
    }

    /// Requests a shutdown. The first request aborts every live process and
    /// returns, per process, its id and what its dispatcher asks for; later
    /// requests return nothing.
    pub fn shutdown(&mut self) -> (r: Vec<(String, Vec<DispatchAction>)>)
        requires
            old(self).wf(),
        ensures
            final(self).wf(),
            final(self).lifecycle_view() == after_shutdown(old(self).lifecycle_view()),
            old(self).lifecycle_view().shut_down ==> r@.len() == 0 && *final(self) == *old(self),
            !old(self).lifecycle_view().shut_down ==> r@.len() == old(self).pids().len(),
            final(self).pids() == old(self).pids(),
            !old(self).lifecycle_view().shut_down ==> final(self).all_complete(),
            !old(self).lifecycle_view().shut_down ==> forall|i: int|
                0 <= i < r@.len() ==> (#[trigger] r@[i]).0@ == old(self).pids()[i] && command_handled(
                    old(self).process_at(i).dispatcher_view(),
                    final(self).process_at(i).dispatcher_view(),
                    WorkflowCommand::Abort,
                    r@[i].1@,
                ),
    {
        let mut out: Vec<(String, Vec<DispatchAction>)> = Vec::new();
        if !self.lifecycle.shutdown() {
            return out;
        }
        let ghost before = self.procs@;
        let mut procs: Vec<Process> = Vec::new();
        core::mem::swap(&mut procs, &mut self.procs);
        let ghost orig = procs@;
        let mut kept: Vec<Process> = Vec::new();
        while procs.len() > 0
            invariant
                kept@.len() + procs@.len() == orig.len(),
                procs@ == orig.subrange(kept@.len() as int, orig.len() as int),
                out@.len() == kept@.len(),
                forall|j: int| 0 <= j < orig.len() ==> (#[trigger] orig[j]).wf(),
                forall|j: int|
                    0 <= j < kept@.len() ==> (#[trigger] kept@[j]).wf() && kept@[j].complete() && kept@[j].id_view()
                        == orig[j].id_view(),
                forall|j: int|
                    0 <= j < kept@.len() ==> (#[trigger] out@[j]).0@ == orig[j].id_view() && command_handled(
                        orig[j].dispatcher_view(),
                        kept@[j].dispatcher_view(),
                        WorkflowCommand::Abort,
                        out@[j].1@,
                    ),
            decreases procs@.len(),
        {
            let ghost k = kept@.len() as int;
            let mut p = procs.remove(0);
            proof {
                assert(p == orig[k]);
            }
            let actions = p.abort();
            let id = p.id().clone();
            kept.push(p);
            out.push((id, actions));
            proof {
                assert(kept@.last() == p);
                assert(procs@ =~= orig.subrange(k + 1, orig.len() as int));
            }
        }
        proof {
            assert(kept@.map_values(|p: Process| p.id_view()) =~= orig.map_values(|p: Process| p.id_view()));
            assert(orig == before);
        }
        self.procs = kept;
        out
    }
}


impl Engine {
    fn position(&self, pid: &String) -> (r: Option<usize>)
        ensures
            r matches Some(i) ==> i < self.procs@.len() && self.procs@[i as int].id_view() == pid@,
            r is None ==> forall|i: int| 0 <= i < self.procs@.len() ==> (#[trigger] self.procs@[i]).id_view() != pid@,
    {
        let mut i: usize = 0;
        while i < self.procs.len()
            invariant
                i <= self.procs@.len(),
                forall|j: int| 0 <= j < i ==> (#[trigger] self.procs@[j]).id_view() != pid@,
            decreases self.procs@.len() - i,
        {
            if *self.procs[i].id() == *pid {
                return Some(i);
            }
            i = i + 1;
        }
        None
    }

    /// Whether a live process has id `pid`.
    pub fn contains(&self, pid: &String) -> (r: bool)
        ensures
            r == self.pids().contains(pid@),
    {
        let r = self.position(pid);
        proof {
            match r {
                Some(i) => {
                    assert(self.pids()[i as int] == pid@);
                },
                None => {
                    assert forall|j: int| 0 <= j < self.pids().len() implies #[trigger] self.pids()[j] != pid@ by {
                        assert(self.pids()[j] == self.procs@[j].id_view());
                    }
                },
            }
        }
        r.is_some()
    }

    /// Adds a process as the most recently used. When the table is full, the
    /// least recently used process leaves it and its id is returned. A
    /// process whose id is already live is refused.
    pub fn add_process(&mut self, p: Process) -> (r: Result<Option<String>, ActflowError>)
        requires
            old(self).wf(),
            p.wf(),
        ensures
            final(self).wf(),
            final(self).lifecycle_view() == old(self).lifecycle_view(),
            old(self).pids().contains(p.id_view()) ==> r is Err && final(self).pids() == old(self).pids(),
            !old(self).pids().contains(p.id_view()) && old(self).pids().len() < old(self).capacity_view() ==> r
                == Ok::<Option<String>, ActflowError>(None) && final(self).pids() == old(self).pids().push(p.id_view()),
            !old(self).pids().contains(p.id_view()) && old(self).pids().len() == old(self).capacity_view() ==> (r
                matches Ok(Some(e)) && e@ == old(self).pids()[0]) && final(self).pids() == old(self).pids().drop_first().push(
                p.id_view(),
            ),
            r is Ok ==> final(self).pids().len() > 0 && final(self).process_at(final(self).pids().len() - 1) == p,
    {
        let ghost ids0 = self.pids();
        if self.contains(p.id()) {
            proof {
                reveal_strlit("Process ");
                reveal_strlit(" already exists");
            }
            return Err(ActflowError::Process("Process ".to_owned().concat(p.id().as_str()).concat(" already exists")));
        }
        let mut evicted: Option<String> = None;
        if self.procs.len() == self.capacity {
            let old_p = self.procs.remove(0);
            proof {
                assert(self.pids() =~= ids0.drop_first());
            }
            evicted = Some(old_p.id().clone());
        }
        let ghost ids1 = self.pids();
        let ghost pid = p.id_view();
        let ghost pv = p;
        self.procs.push(p);
        proof {
            assert(self.procs@.last() == pv);
            assert(self.pids() =~= ids1.push(pid));
            assert forall|a: int, b: int|
                0 <= a < self.procs@.len() && 0 <= b < self.procs@.len() && a != b implies (#[trigger] self.procs@[a]).id_view()
                    != (#[trigger] self.procs@[b]).id_view() by {
                let n = self.procs@.len() - 1;
                if a == n {
                    assert(ids1[b] == self.procs@[b].id_view());
                    assert(ids0.contains(ids1[b]));
                } else if b == n {
                    assert(ids1[a] == self.procs@[a].id_view());
                    assert(ids0.contains(ids1[a]));
                }
            }
        }
        Ok(evicted)
    }

    /// The live process with id `pid`, which becomes the most recently used.
    pub fn get_process(&mut self, pid: &String) -> (r: Option<&Process>)
        requires
            old(self).wf(),
        ensures
            final(self).wf(),
            final(self).lifecycle_view() == old(self).lifecycle_view(),
            r is Some <==> old(self).pids().contains(pid@),
            r matches Some(p) ==> p.id_view() == pid@,
            r matches Some(p) ==> final(self).pids().len() > 0 && *p == final(self).process_at(
                final(self).pids().len() - 1,
            ),
            r matches Some(p) ==> exists|i: int|
                0 <= i < old(self).pids().len() && #[trigger] old(self).process_at(i) == *p,
            r is None ==> *final(self) == *old(self),
            r is Some ==> exists|i: int|
                0 <= i < old(self).pids().len() && #[trigger] old(self).pids()[i] == pid@ && final(self).pids()
                    == old(self).pids().remove(i).push(pid@),
    {
        let ghost ids0 = self.pids();
        let ghost procs0 = self.procs@;
        match self.position(pid) {
            Some(i) => {
                let p = self.procs.remove(i);
                self.procs.push(p);
                proof {
                    assert(ids0[i as int] == pid@);
                    assert(self.pids() =~= ids0.remove(i as int).push(pid@));
                    let n = self.procs@.len() - 1;
                    assert forall|x: int| 0 <= x < n implies #[trigger] self.procs@[x] == procs0[if x < i {
                        x
                    } else {
                        x + 1
                    }] by {}
                    assert forall|a: int, b: int|
                        0 <= a < self.procs@.len() && 0 <= b < self.procs@.len() && a != b implies (
                        #[trigger] self.procs@[a]).id_view() != (#[trigger] self.procs@[b]).id_view() by {
                        let pa = if a == n {
                            i as int
                        } else if a < i {
                            a
                        } else {
                            a + 1
                        };
                        let pb = if b == n {
                            i as int
                        } else if b < i {
                            b
                        } else {
                            b + 1
                        };
                        assert(self.procs@[a] == procs0[pa]);
                        assert(self.procs@[b] == procs0[pb]);
                        assert(pa != pb);
                    }
                    assert forall|x: int| 0 <= x < self.procs@.len() implies (#[trigger] self.procs@[x]).wf() by {
                        if x < n {
                            assert(self.procs@[x] == procs0[if x < i {
                                x
                            } else {
                                x + 1
                            }]);
                        }
                    }
                    assert(ids0.contains(pid@));
                    assert(self.procs@[n] == procs0[i as int]);
                    assert(old(self).process_at(i as int) == self.procs@[n]);
                }
                let n = self.procs.len() - 1;
                Some(&self.procs[n])
            },
            None => {
                proof {
                    assert forall|j: int| 0 <= j < ids0.len() implies #[trigger] ids0[j] != pid@ by {
                        assert(ids0[j] == self.procs@[j].id_view());
                    }
                }
                None
            },
        }
    }

    /// Aborts the live process with id `pid`; fails when there is none.
    pub fn stop(&mut self, pid: &String) -> (r: Result<Vec<DispatchAction>, ActflowError>)
        requires
            old(self).wf(),
        ensures
            final(self).wf(),
            final(self).lifecycle_view() == old(self).lifecycle_view(),
            r is Ok <==> old(self).pids().contains(pid@),
            r matches Ok(a) ==> spawns_none(a@),
            final(self).pids() == old(self).pids(),
            r matches Ok(a) ==> exists|i: int|
                0 <= i < old(self).pids().len() && #[trigger] old(self).pids()[i] == pid@ && final(self).process_at(
                    i,
                ).complete() && command_handled(
                    old(self).process_at(i).dispatcher_view(),
                    final(self).process_at(i).dispatcher_view(),
                    WorkflowCommand::Abort,
                    a@,
                ),
            r matches Err(e) ==> (e matches ActflowError::Process(m) && m@ == seq!['P', 'r', 'o', 'c', 'e', 's', 's', ' ']
                + pid@ + seq![' ', 'n', 'o', 't', ' ', 'f', 'o', 'u', 'n', 'd']),
    {
        let ghost ids0 = self.pids();
        let ghost procs0 = self.procs@;
        match self.position(pid) {
            Some(i) => {
                let mut p = self.procs.remove(i);
                let ghost p0 = p;
                let actions = p.abort();
                self.procs.insert(i, p);
                proof {
                    assert(p0 == procs0[i as int]);
                    assert(self.procs@[i as int] == p);
                    assert(self.pids() =~= ids0) by {
                        assert forall|x: int| 0 <= x < ids0.len() implies self.pids()[x] == ids0[x] by {
                            if x != i {
                                assert(self.procs@[x] == procs0[x]);
                            }
                        }
                    }
                    assert(ids0[i as int] == pid@);
                    assert forall|x: int| 0 <= x < self.procs@.len() implies (#[trigger] self.procs@[x]).id_view()
                        == procs0[x].id_view() && self.procs@[x].wf() by {
                        if x != i {
                            assert(self.procs@[x] == procs0[x]);
                        }
                    }
                    assert forall|a: int, b: int|
                        0 <= a < self.procs@.len() && 0 <= b < self.procs@.len() && a != b implies (
                        #[trigger] self.procs@[a]).id_view() != (#[trigger] self.procs@[b]).id_view() by {
                        assert(procs0[a].id_view() != procs0[b].id_view());
                    }
                    assert(ids0.contains(pid@));
                }
                Ok(actions)
            },
            None => {
                proof {
                    assert forall|j: int| 0 <= j < ids0.len() implies #[trigger] ids0[j] != pid@ by {
                        assert(ids0[j] == self.procs@[j].id_view());
                    }
                }
                proof {
                    reveal_strlit("Process ");
                    reveal_strlit(" not found");
                    assert("Process "@ =~= seq!['P', 'r', 'o', 'c', 'e', 's', 's', ' ']);
                    assert(" not found"@ =~= seq![' ', 'n', 'o', 't', ' ', 'f', 'o', 'u', 'n', 'd']);
                }
                Err(ActflowError::Process("Process ".to_owned().concat(pid.as_str()).concat(" not found")))
            },
        }
    }
}


impl Engine {
    /// Builds a process `pid` for a definition and registers it as the most
    /// recently used. Fails when the engine is not running, when the
    /// definition is invalid, or when the id is live; returns the id of the
    /// process evicted to make room, if one was.
    pub fn build_workflow_process(&mut self, pid: String, model: &WorkflowModel) -> (r: Result<Option<String>, ActflowError>)
        requires
            old(self).wf(),
        ensures
            final(self).wf(),
            final(self).lifecycle_view() == old(self).lifecycle_view(),
            r is Err ==> final(self).pids() == old(self).pids(),
            !old(self).running() ==> (r matches Err(e) && e matches ActflowError::Engine(m) && m@ == not_running()),
            old(self).running() && !model_valid(*model) ==> r is Err,
            old(self).running() && old(self).pids().contains(pid@) ==> r is Err,
            old(self).running() && model_valid(*model) && !old(self).pids().contains(pid@) ==> {
                let p = final(self).process_at(final(self).pids().len() - 1);
                &&& r is Ok
                &&& final(self).pids().len() > 0
                &&& p.id_view() == pid@
                &&& p.wid_view() == model.id@
                &&& !p.complete()
                &&& p.dispatcher_view().endings() == 0
                &&& p.dispatcher_view().workflow_view().built_from(*model)
                &&& p.dispatcher_view().context_view().env_view() == model.env@
                &&& p.dispatcher_view().context_view().pid_view() == pid@
                &&& p.dispatcher_view().context_view().outputs_view().len() == 0
            },
    {
        if !self.lifecycle.launched || self.lifecycle.shut_down {
            proof {
                reveal_strlit("Engine is not running");
                assert("Engine is not running"@ =~= not_running());
            }
            return Err(ActflowError::Engine("Engine is not running".to_owned()));
        }
        let p = match Process::new(pid, model) {
            Ok(p) => p,
            Err(e) => return Err(e),
        };
        let ghost pv = p;
        let r = self.add_process(p);
        proof {
            if r is Ok {
                let n = self.pids().len() - 1;
                if old(self).pids().len() < old(self).capacity_view() {
                    assert(old(self).pids().push(pv.id_view()).last() == pv.id_view());
                } else {
                    assert(old(self).pids().drop_first().push(pv.id_view()).last() == pv.id_view());
                }
                assert(self.procs@.last() == pv);
            }
        }
        r
    }

    /// Removes the process `pid`, as done once it completed. Returns whether
    /// it was live.
    pub fn remove_process(&mut self, pid: &String) -> (r: bool)
        requires
            old(self).wf(),
        ensures
            final(self).wf(),
            final(self).lifecycle_view() == old(self).lifecycle_view(),
            r == old(self).pids().contains(pid@),
            !final(self).pids().contains(pid@),
    {
        let ghost ids0 = self.pids();
        let ghost procs0 = self.procs@;
        match self.position(pid) {
            Some(i) => {
                let _gone = self.procs.remove(i);
                proof {
                    assert(ids0[i as int] == pid@);
                    assert(ids0.contains(pid@));
                    assert forall|x: int| 0 <= x < self.procs@.len() implies #[trigger] self.procs@[x] == procs0[if x < i {
                        x
                    } else {
                        x + 1
                    }] by {}
                    assert forall|a: int, b: int|
                        0 <= a < self.procs@.len() && 0 <= b < self.procs@.len() && a != b implies (
                        #[trigger] self.procs@[a]).id_view() != (#[trigger] self.procs@[b]).id_view() by {
                        let pa = if a < i { a } else { a + 1 };
                        let pb = if b < i { b } else { b + 1 };
                        assert(self.procs@[a] == procs0[pa]);
                        assert(self.procs@[b] == procs0[pb]);
                    }
                    assert forall|x: int| 0 <= x < self.procs@.len() implies (#[trigger] self.procs@[x]).wf() by {
                        assert(self.procs@[x] == procs0[if x < i { x } else { x + 1 }]);
                    }
                    assert forall|x: int| 0 <= x < self.pids().len() implies #[trigger] self.pids()[x] != pid@ by {
                        let px = if x < i { x } else { x + 1 };
                        assert(self.procs@[x] == procs0[px]);
                        assert(procs0[px].id_view() != procs0[i as int].id_view());
                    }
                }
                true
            },
            None => {
                proof {
                    assert forall|j: int| 0 <= j < ids0.len() implies #[trigger] ids0[j] != pid@ by {
                        assert(ids0[j] == self.procs@[j].id_view());
                    }
                }
                false
            },
        }
    }
}

} // verus!
