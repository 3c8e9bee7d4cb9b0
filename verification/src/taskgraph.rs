//! Task graph: the tasks and the dependencies between them, in a directed
//! graph that must stay free of cycles.
//!
//! The graph's nodes carry the task identifiers, and the tasks themselves sit
//! beside them at the same indices. A map from identifier to node index finds
//! a task. Removing a task moves the last one into its place, as the graph
//! does, and leaves the map's entry for the moved task as it was.

use vstd::prelude::*;
use std::collections::HashMap;
use crate::digraph::{graph_nodes, graph_edges, graph_outs, graph_ins, index_end, graph_ok, linked, succs_of, preds_of,
    detach, move_node, incoming, outgoing, is_topo_order, acyclic, toposorted, lemma_link_add, lemma_link_undo,
    lemma_link_add_node, lemma_link_remove_node, lemma_linked_same, lemma_linked_lists, lemma_topo_same, graph_new,
    graph_node_count, graph_add_node, graph_node_weight, graph_add_edge, graph_find_edge, graph_remove_edge,
    graph_remove_node, graph_incoming, graph_outgoing, graph_toposort};
use crate::tasks::{TaskNode, TaskStatus, TaskEdge, TaskResult, TaskStatistics, terminal_status, statistics_spec,
    status_text, only_status_changed};
use crate::text::owned;

verus! {

broadcast use vstd::std_specs::hash::group_hash_axioms;

/// Errors of the task graph
#[derive(Debug, Clone)]
pub enum TaskError {
    /// No task has this identifier
    NotFound { id: u128 },
    /// The dependency would close a cycle through these tasks
    CircularDependency { cycle: Vec<u128> },
    /// The task cannot move from one status to the other
    InvalidStateTransition { from: String, to: String },
    /// The task has already finished and cannot be cancelled
    CannotCancel { id: u128, state: String },
}

/// The weight that stands for an edge type in the graph.
pub open spec fn edge_code(e: TaskEdge) -> u8 {
    match e {
        TaskEdge::DependsOn => 0u8,
        TaskEdge::SoftDependsOn => 1u8,
        TaskEdge::ParentOf => 2u8,
    }
}

/// The weight that stands for an edge type in the graph.
fn code_of(e: TaskEdge) -> (c: u8)
    ensures
        c == edge_code(e),
{
    match e {
        TaskEdge::DependsOn => 0,
        TaskEdge::SoftDependsOn => 1,
        TaskEdge::ParentOf => 2,
    }
}

/// The identifiers of some tasks.
pub open spec fn task_ids(ts: Seq<TaskNode>) -> Seq<u128> {
    ts.map_values(|t: TaskNode| t.id)
}

/// The statuses of some tasks.
pub open spec fn task_statuses(ts: Seq<TaskNode>) -> Seq<TaskStatus> {
    ts.map_values(|t: TaskNode| t.status)
}

/// Whether `id` is filed at the index of one of `n` tasks.
pub open spec fn found(index: Map<u128, usize>, n: nat, id: u128) -> bool {
    index.contains_key(id) && index[id] < n
}

/// The identifiers of the tasks that task `id` depends on, newest first;
/// none when `id` finds no task.
pub open spec fn dep_ids(ids: Seq<u128>, deps: Seq<(usize, usize, u8)>, index: Map<u128, usize>, id: u128) -> Seq<u128> {
    if found(index, ids.len(), id) {
        incoming(deps, index[id]).map_values(|p: (usize, u8)| ids[p.0 as int])
    } else {
        Seq::<u128>::empty()
    }
}

/// Whether every task that task `id` depends on is found by its identifier
/// and completed (true when it depends on none).
pub open spec fn all_done(ids: Seq<u128>, st: Seq<TaskStatus>, deps: Seq<(usize, usize, u8)>, index: Map<u128, usize>, id: u128) -> bool {
    let ds = dep_ids(ids, deps, index, id);
    forall|q: int| 0 <= q < ds.len() ==> found(index, ids.len(), #[trigger] ds[q]) && st[index[ds[q]] as int] == TaskStatus::Completed
}

/// Whether a task that task `id` depends on, other than softly, has failed
/// or been cancelled.
pub open spec fn any_failed(st: Seq<TaskStatus>, deps: Seq<(usize, usize, u8)>, index: Map<u128, usize>, id: u128) -> bool {
    found(index, st.len(), id) && exists|q: int| 0 <= q < incoming(deps, index[id]).len() && {
        let p = #[trigger] incoming(deps, index[id])[q];
        p.1 != 1 && (st[p.0 as int] == TaskStatus::Failed || st[p.0 as int] == TaskStatus::Cancelled)
    }
}

/// The statuses after the blocked status of task `id` is brought up to
/// date: a pending task waiting on unfinished work is blocked; a blocked
/// one with its work done and nothing failed is pending again; a pending or
/// blocked one with a failed dependency is skipped.
pub open spec fn blocked_step(ids: Seq<u128>, st: Seq<TaskStatus>, deps: Seq<(usize, usize, u8)>, index: Map<u128, usize>, id: u128) -> Seq<TaskStatus> {
    if found(index, st.len(), id) {
        let p = index[id] as int;
        let should_block = !all_done(ids, st, deps, index, id);
        let failed = any_failed(st, deps, index, id);
        let s = st[p];
        let ns = if s == TaskStatus::Pending && should_block {
            TaskStatus::Blocked
        } else if s == TaskStatus::Blocked && !should_block && !failed {
            TaskStatus::Pending
        } else if (s == TaskStatus::Pending || s == TaskStatus::Blocked) && failed {
            TaskStatus::Skipped
        } else {
            s
        };
        st.update(p, ns)
    } else {
        st
    }
}

/// The statuses after bringing the tasks of `order` up to date, in turn.
pub open spec fn blocked_fold(ids: Seq<u128>, st: Seq<TaskStatus>, deps: Seq<(usize, usize, u8)>, index: Map<u128, usize>, order: Seq<u128>) -> Seq<TaskStatus>
    decreases order.len(),
{
    if order.len() == 0 {
        st
    } else {
        blocked_step(ids, blocked_fold(ids, st, deps, index, order.drop_last()), deps, index, order.last())
    }
}

/// The identifiers of the first `k` tasks that `keep` picks by index, in order.
pub open spec fn pick(ids: Seq<u128>, keep: spec_fn(int) -> bool, k: nat) -> Seq<u128>
    decreases k,
{
    if k == 0 {
        Seq::<u128>::empty()
    } else if keep(k - 1) {
        pick(ids, keep, (k - 1) as nat).push(ids[k - 1])
    } else {
        pick(ids, keep, (k - 1) as nat)
    }
}

/// Whether `b` is `a` with the blocked status of every task brought up to
/// date in node order: only statuses change, as `blocked_fold` says, and a
/// task that changes its completion time gets one.
pub open spec fn blocked_updated(a: TaskGraph, b: TaskGraph) -> bool {
    &&& a.wf() ==> b.wf()
    &&& b.index() == a.index()
    &&& b.deps() == a.deps()
    &&& b.tasks().len() == a.tasks().len()
    &&& b.statuses() == blocked_fold(a.ids(), a.statuses(), a.deps(), a.index(), a.ids())
    &&& forall|i: int| 0 <= i < a.tasks().len() ==> only_status_changed(a.tasks()[i], #[trigger] b.tasks()[i])
        && (b.tasks()[i].completed_at == a.tasks()[i].completed_at || b.tasks()[i].completed_at is Some)
}

/// Task graph - manages tasks and their dependencies
pub struct TaskGraph {
    graph: petgraph::graph::Graph<u128, u8>,
    tasks: Vec<TaskNode>,
    id_to_index: HashMap<u128, usize>,
    /// The dependencies in the order they were added, as the graph's lists
    /// hold them.
    added: Ghost<Seq<(usize, usize, u8)>>,
}

impl TaskGraph {
    /// The tasks, by node index.
    pub closed spec fn tasks(&self) -> Seq<TaskNode> {
        self.tasks@
    }

    /// The node index filed for each identifier.
    pub closed spec fn index(&self) -> Map<u128, usize> {
        self.id_to_index@
    }

    /// The dependencies in the order they were added: from the node that
    /// must finish first to the node that waits, with the edge type's weight.
    pub closed spec fn deps(&self) -> Seq<(usize, usize, u8)> {
        self.added@
    }

    /// What the graph's topological sort gives: node indices, or a node
    /// index found on a cycle.
    pub closed spec fn sorted(&self) -> Result<Seq<usize>, usize> {
        toposorted(self.tasks@.len(), succs_of(self.tasks@.len(), self.added@), preds_of(self.tasks@.len(), self.added@))
    }

    /// A node for each task, edges between them, and every index within the
    /// graph's `u32` indices.
    pub closed spec fn wf(&self) -> bool {
        let n = graph_nodes(self.graph);
        &&& n.len() == self.tasks@.len()
        &&& graph_ok(n.len(), graph_edges(self.graph), graph_outs(self.graph), graph_ins(self.graph))
        &&& linked(n.len(), graph_edges(self.graph), graph_outs(self.graph), graph_ins(self.graph), self.added@)
        &&& n.len() < index_end()
        &&& forall|k: u128| #[trigger] self.id_to_index@.contains_key(k) ==> self.id_to_index@[k] < index_end()
    }

    /// The task that an identifier finds: the one at the node index filed
    /// for it, if there is a task there.
    pub open spec fn task_of(&self, id: u128) -> Option<TaskNode> {
        if self.index().contains_key(id) && self.index()[id] < self.tasks().len() {
            Some(self.tasks()[self.index()[id] as int])
        } else {
            None
        }
    }

    /// Every dependency joins tasks of the graph, and every index fits.
    pub proof fn lemma_wf(&self)
        requires
            self.wf(),
        ensures
            self.tasks().len() < index_end(),
            forall|k: int| 0 <= k < self.deps().len() ==> (#[trigger] self.deps()[k]).0 < self.tasks().len()
                && self.deps()[k].1 < self.tasks().len(),
            forall|id: u128| #[trigger] self.index().contains_key(id) ==> self.index()[id] < index_end(),
    {
    }

    /// The dependents of a task are tasks of the graph.
    pub proof fn lemma_dependents_in_graph(&self, id: u128)
        requires
            self.wf(),
        ensures
            forall|k: int| 0 <= k < self.dependents_of(id).len() ==> self.ids().contains(#[trigger] self.dependents_of(id)[k]),
    {
        self.lemma_wf();
        if self.index().contains_key(id) && self.index()[id] < self.tasks().len() {
            let i = self.index()[id];
            lemma_outgoing_targets(self.deps(), i, self.tasks().len());
            assert forall|k: int| 0 <= k < self.dependents_of(id).len() implies self.ids().contains(#[trigger] self.dependents_of(id)[k]) by {
                let q = outgoing(self.deps(), i)[k];
                assert(self.ids()[q as int] == self.dependents_of(id)[k]);
            }
        }
    }

    /// Create a new empty task graph
    pub fn new() -> (g: Self)
        ensures
            g.wf(),
            g.tasks().len() == 0,
            g.index() == Map::<u128, usize>::empty(),
            g.deps().len() == 0,
    {
        TaskGraph { graph: graph_new(), tasks: Vec::new(), id_to_index: HashMap::new(), added: Ghost(Seq::empty()) }
    }

    /// Get the number of tasks
    pub fn task_count(&self) -> (n: usize)
        requires
            self.wf(),
        ensures
            n == self.tasks().len(),
    {
        graph_node_count(&self.graph)
    }

    /// Check if the graph is empty
    pub fn is_empty(&self) -> (b: bool)
        requires
            self.wf(),
        ensures
            b == (self.tasks().len() == 0),
    {
        graph_node_count(&self.graph) == 0
    }

    /// Add a task to the graph as its last node, filed under its identifier
    pub fn add_task(&mut self, task: TaskNode) -> (id: u128)
        requires
            old(self).wf(),
            old(self).tasks().len() + 1 < index_end(),
        ensures
            final(self).wf(),
            id == task.id,
            final(self).tasks() == old(self).tasks().push(task),
            final(self).index() == old(self).index().insert(task.id, old(self).tasks().len() as usize),
            final(self).deps() == old(self).deps(),
    {
        let id = task.id;
        proof {
            lemma_link_add_node(graph_nodes(self.graph).len(), graph_edges(self.graph), graph_outs(self.graph),
                graph_ins(self.graph), self.added@);
        }
        let index = graph_add_node(&mut self.graph, id);
        self.tasks.push(task);
        self.id_to_index.insert(id, index);
        id
    }

    /// Get a reference to a task
    pub fn get_task(&self, task_id: &u128) -> (r: Option<&TaskNode>)
        requires
            self.wf(),
        ensures
            r == match self.task_of(*task_id) { Some(t) => Some(&t), None => None::<&TaskNode> },
    {
        match self.id_to_index.get(task_id) {
            Some(index) => {
                let index = *index;
                if index < self.tasks.len() {
                    Some(&self.tasks[index])
                } else {
                    None
                }
            },
            None => None,
        }
    }

    /// Get a mutable reference to a task
    pub fn get_task_mut(&mut self, task_id: &u128) -> (r: Option<&mut TaskNode>)
        requires
            old(self).wf(),
        ensures
            final(self).wf(),
            final(self).index() == old(self).index(),
            final(self).deps() == old(self).deps(),
            match r {
                Some(t) => old(self).task_of(*task_id) == Some(*t)
                    && final(self).tasks() == old(self).tasks().update(old(self).index()[*task_id] as int, *final(t)),
                None => old(self).task_of(*task_id) is None && final(self).tasks() == old(self).tasks(),
            },
    {
        match self.id_to_index.get(task_id) {
            Some(index) => {
                let index = *index;
                if index < self.tasks.len() {
                    Some(&mut self.tasks[index])
                } else {
                    None
                }
            },
            None => None,
        }
    }

    /// Remove a task from the graph, with every dependency at it; the last
    /// task takes over its place. An identifier whose filed index has no
    /// task any more loses its entry and nothing else changes.
    pub fn remove_task(&mut self, task_id: &u128) -> (r: Option<TaskNode>)
        requires
            old(self).wf(),
        ensures
            final(self).wf(),
            !old(self).index().contains_key(*task_id) ==> r is None && final(self).tasks() == old(self).tasks()
                && final(self).index() == old(self).index() && final(self).deps() == old(self).deps(),
            old(self).index().contains_key(*task_id) ==> final(self).index() == old(self).index().remove(*task_id),
            old(self).index().contains_key(*task_id) && old(self).index()[*task_id] >= old(self).tasks().len()
                ==> r is None && final(self).tasks() == old(self).tasks() && final(self).deps() == old(self).deps(),
            old(self).index().contains_key(*task_id) && old(self).index()[*task_id] < old(self).tasks().len() ==> {
                let i = old(self).index()[*task_id];
                let t = old(self).tasks();
                &&& r == Some(t[i as int])
                &&& final(self).tasks() == t.update(i as int, t.last()).drop_last()
                &&& final(self).deps() == move_node(detach(old(self).deps(), i), (t.len() - 1) as usize, i)
            },
    {
        match self.id_to_index.get(task_id) {
            Some(index) => {
                let index = *index;
                self.id_to_index.remove(task_id);
                let ghost h = self.added@;
                let ghost g0 = self.graph;
                match graph_remove_node(&mut self.graph, index) {
                    Some(_) => {
                        let ghost last = (graph_nodes(g0).len() - 1) as usize;
                        self.added = Ghost(move_node(detach(h, index), last, index));
                        proof {
                            lemma_link_remove_node(graph_nodes(g0).len(), graph_edges(g0), graph_outs(g0), graph_ins(g0), h,
                                index, graph_edges(self.graph), graph_outs(self.graph), graph_ins(self.graph));
                        }
                        Some(self.tasks.swap_remove(index))
                    },
                    None => None,
                }
            },
            None => None,
        }
    }

    /// The identifiers of the tasks that task `id` depends on, newest
    /// dependency first; none when `id` finds no node.
    pub open spec fn deps_of(&self, id: u128) -> Seq<u128> {
        dep_ids(task_ids(self.tasks()), self.deps(), self.index(), id)
    }

    /// The tasks' identifiers and statuses, by node index.
    pub open spec fn ids(&self) -> Seq<u128> {
        task_ids(self.tasks())
    }

    /// The tasks' statuses, by node index.
    pub open spec fn statuses(&self) -> Seq<TaskStatus> {
        task_statuses(self.tasks())
    }

    /// The tasks ready to run, in node order: pending, with every task they
    /// depend on found and completed.
    pub open spec fn ready_ids(&self) -> Seq<u128> {
        pick(self.ids(), |i: int| self.statuses()[i] == TaskStatus::Pending
            && all_done(self.ids(), self.statuses(), self.deps(), self.index(), self.ids()[i]), self.tasks().len())
    }

    /// The identifiers of the tasks that depend on task `id`, newest
    /// dependency first; none when `id` finds no node.
    pub open spec fn dependents_of(&self, id: u128) -> Seq<u128> {
        if self.index().contains_key(id) && self.index()[id] < self.tasks().len() {
            outgoing(self.deps(), self.index()[id]).map_values(|q: usize| self.tasks()[q as int].id)
        } else {
            Seq::<u128>::empty()
        }
    }

    /// Add a dependency edge (from -> to means "to" depends on "from"). An
    /// edge that would close a cycle is taken out again and refused.
    pub fn add_dependency(&mut self, from: &u128, to: &u128, edge_type: TaskEdge) -> (r: Result<(), TaskError>)
        requires
            old(self).wf(),
            old(self).deps().len() + 1 < index_end(),
            old(self).index().contains_key(*from) && old(self).index().contains_key(*to) ==>
                old(self).index()[*from] < old(self).tasks().len() && old(self).index()[*to] < old(self).tasks().len(),
        ensures
            final(self).wf(),
            final(self).tasks() == old(self).tasks(),
            final(self).index() == old(self).index(),
            acyclic(old(self).tasks().len(), old(self).deps()) ==> acyclic(final(self).tasks().len(), final(self).deps()),
            !old(self).index().contains_key(*from) ==> (r matches Err(TaskError::NotFound { id }) && id == *from)
                && final(self).deps() == old(self).deps(),
            old(self).index().contains_key(*from) && !old(self).index().contains_key(*to)
                ==> (r matches Err(TaskError::NotFound { id }) && id == *to) && final(self).deps() == old(self).deps(),
            old(self).index().contains_key(*from) && old(self).index().contains_key(*to) ==> {
                let added = old(self).deps().push((old(self).index()[*from], old(self).index()[*to], edge_code(edge_type)));
                &&& acyclic(old(self).tasks().len(), added) ==> r is Ok && final(self).deps() == added
                &&& !acyclic(old(self).tasks().len(), added) ==> final(self).deps() == old(self).deps()
                    && (r matches Err(TaskError::CircularDependency { cycle }) && cycle@ == seq![*from, *to])
            },
    {
        let from_idx = match self.id_to_index.get(from) {
            Some(i) => *i,
            None => {
                return Err(TaskError::NotFound { id: *from });
            },
        };
        let to_idx = match self.id_to_index.get(to) {
            Some(i) => *i,
            None => {
                return Err(TaskError::NotFound { id: *to });
            },
        };
        let ghost g0 = self.graph;
        let ghost h = self.added@;
        let code = code_of(edge_type);
        proof {
            lemma_link_add(graph_nodes(g0).len(), graph_edges(g0), graph_outs(g0), graph_ins(g0), h, from_idx, to_idx, code);
            lemma_link_undo(graph_nodes(g0).len(), graph_edges(g0), graph_outs(g0), graph_ins(g0), from_idx, to_idx, code);
        }
        let e = graph_add_edge(&mut self.graph, from_idx, to_idx, code);
        self.added = Ghost(h.push((from_idx, to_idx, code)));
        if self.has_cycle() {
            match graph_find_edge(&self.graph, from_idx, to_idx) {
                Some(edge) => {
                    graph_remove_edge(&mut self.graph, edge);
                    self.added = Ghost(h);
                    proof {
                        assert(graph_edges(self.graph) =~= graph_edges(g0));
                        assert(graph_outs(self.graph) =~= graph_outs(g0));
                        assert(graph_ins(self.graph) =~= graph_ins(g0));
                    }
                },
                None => {},
            }
            let mut cycle: Vec<u128> = Vec::new();
            cycle.push(*from);
            cycle.push(*to);
            assert(cycle@ =~= seq![*from, *to]);
            return Err(TaskError::CircularDependency { cycle });
        }
        Ok(())
    }

    /// Check if the graph has a cycle
    pub fn has_cycle(&self) -> (b: bool)
        requires
            self.wf(),
        ensures
            b == !acyclic(self.tasks().len(), self.deps()),
    {
        proof {
            lemma_linked_same(self.tasks@.len(), graph_edges(self.graph), graph_outs(self.graph), graph_ins(self.graph), self.added@);
            lemma_topo_same(self.tasks@.len(), graph_edges(self.graph), self.added@, Seq::empty());
        }
        graph_toposort(&self.graph).is_err()
    }

    /// Get topological order of tasks: every task once, each after the tasks
    /// it depends on, in the order the graph's sort gives; refused with a
    /// task on a cycle when there is one.
    pub fn topological_order(&self) -> (r: Result<Vec<u128>, TaskError>)
        requires
            self.wf(),
        ensures
            r is Ok <==> acyclic(self.tasks().len(), self.deps()),
            match (r, self.sorted()) {
                (Ok(ids), Ok(v)) => is_topo_order(self.tasks().len(), self.deps(), v)
                    && ids@ == v.map_values(|i: usize| self.tasks()[i as int].id),
                (Err(e), Err(x)) => x < self.tasks().len()
                    && (e matches TaskError::CircularDependency { cycle } && cycle@ == seq![self.tasks()[x as int].id]),
                _ => false,
            },
    {
        proof {
            lemma_linked_same(self.tasks@.len(), graph_edges(self.graph), graph_outs(self.graph), graph_ins(self.graph), self.added@);
            lemma_topo_same(self.tasks@.len(), graph_edges(self.graph), self.added@, Seq::empty());
            lemma_linked_lists(self.tasks@.len(), graph_edges(self.graph), graph_outs(self.graph), graph_ins(self.graph), self.added@);
        }
        match graph_toposort(&self.graph) {
            Ok(v) => {
                proof {
                    lemma_topo_same(self.tasks@.len(), graph_edges(self.graph), self.added@, v@);
                }
                let ghost vv = v@;
                let mut ids: Vec<u128> = Vec::new();
                let mut i: usize = 0;
                while i < v.len()
                    invariant
                        i <= v@.len(),
                        vv == v@,
                        forall|k: int| 0 <= k < v@.len() ==> (#[trigger] v@[k]) < self.tasks@.len(),
                        ids@ == v@.subrange(0, i as int).map_values(|j: usize| self.tasks@[j as int].id),
                    decreases v.len() - i,
                {
                    assert(v@[i as int] < self.tasks@.len());
                    ids.push(self.tasks[v[i]].id);
                    i = i + 1;
                    assert(ids@ =~= v@.subrange(0, i as int).map_values(|j: usize| self.tasks@[j as int].id));
                }
                assert(v@.subrange(0, v@.len() as int) =~= v@);
                Ok(ids)
            },
            Err(x) => {
                let mut cycle: Vec<u128> = Vec::new();
                cycle.push(self.tasks[x].id);
                assert(cycle@ =~= seq![self.tasks@[x as int].id]);
                Err(TaskError::CircularDependency { cycle })
            },
        }
    }

    /// Get direct dependencies of a task (tasks that must complete before
    /// this one), most recently added first
    pub fn get_dependencies(&self, task_id: &u128) -> (r: Vec<u128>)
        requires
            self.wf(),
        ensures
            r@ == self.deps_of(*task_id),
    {
        proof {
            self.lemma_wf();
        }
        let index = match self.id_to_index.get(task_id) {
            Some(i) => *i,
            None => {
                return Vec::new();
            },
        };
        let edges = graph_incoming(&self.graph, index);
        proof {
            if index < self.tasks@.len() {
                lemma_incoming_sources(self.deps(), index, self.tasks@.len());
                assert(edges@ == incoming(self.deps(), index));
            }
        }
        let mut r: Vec<u128> = Vec::new();
        let mut k: usize = 0;
        while k < edges.len()
            invariant
                k <= edges@.len(),
                forall|q: int| 0 <= q < edges@.len() ==> (#[trigger] edges@[q]).0 < self.tasks@.len(),
                r@ == edges@.subrange(0, k as int).map_values(|p: (usize, u8)| self.tasks@[p.0 as int].id),
            decreases edges.len() - k,
        {
            let src = edges[k].0;
            assert(edges@[k as int].0 < self.tasks@.len());
            r.push(self.tasks[src].id);
            k = k + 1;
            assert(r@ =~= edges@.subrange(0, k as int).map_values(|p: (usize, u8)| self.tasks@[p.0 as int].id));
        }
        assert(edges@.subrange(0, edges@.len() as int) =~= edges@);
        r
    }

    /// Get direct dependents of a task (tasks that depend on this one), most
    /// recently added first
    pub fn get_dependents(&self, task_id: &u128) -> (r: Vec<u128>)
        requires
            self.wf(),
        ensures
            r@ == self.dependents_of(*task_id),
    {
        proof {
            self.lemma_wf();
        }
        let index = match self.id_to_index.get(task_id) {
            Some(i) => *i,
            None => {
                return Vec::new();
            },
        };
        let targets = graph_outgoing(&self.graph, index);
        proof {
            if index < self.tasks@.len() {
                lemma_outgoing_targets(self.deps(), index, self.tasks@.len());
                assert(targets@ == outgoing(self.deps(), index));
            }
        }
        let mut r: Vec<u128> = Vec::new();
        let mut k: usize = 0;
        while k < targets.len()
            invariant
                k <= targets@.len(),
                forall|q: int| 0 <= q < targets@.len() ==> (#[trigger] targets@[q]) < self.tasks@.len(),
                r@ == targets@.subrange(0, k as int).map_values(|q: usize| self.tasks@[q as int].id),
            decreases targets.len() - k,
        {
            let t = targets[k];
            assert(targets@[k as int] < self.tasks@.len());
            r.push(self.tasks[t].id);
            k = k + 1;
            assert(r@ =~= targets@.subrange(0, k as int).map_values(|q: usize| self.tasks@[q as int].id));
        }
        assert(targets@.subrange(0, targets@.len() as int) =~= targets@);
        r
    }

    /// Check if all dependencies of a task are completed (each found by its
    /// identifier)
    pub fn dependencies_satisfied(&self, task_id: &u128) -> (b: bool)
        requires
            self.wf(),
        ensures
            b == all_done(self.ids(), self.statuses(), self.deps(), self.index(), *task_id),
    {
        let deps = self.get_dependencies(task_id);
        let ghost ds = deps@;
        let mut k: usize = 0;
        while k < deps.len()
            invariant
                self.wf(),
                k <= deps@.len(),
                ds == deps@,
                ds == dep_ids(self.ids(), self.deps(), self.index(), *task_id),
                forall|q: int| 0 <= q < k ==> found(self.index(), self.ids().len(), #[trigger] ds[q])
                    && self.statuses()[self.index()[ds[q]] as int] == TaskStatus::Completed,
            decreases deps.len() - k,
        {
            match self.get_task(&deps[k]) {
                Some(t) => {
                    if t.status != TaskStatus::Completed {
                        return false;
                    }
                },
                None => {
                    return false;
                },
            }
            k = k + 1;
        }
        true
    }

    /// Check if any dependency of a task, other than a soft one, has failed
    /// or been cancelled
    pub fn has_failed_dependency(&self, task_id: &u128) -> (b: bool)
        requires
            self.wf(),
        ensures
            b == any_failed(self.statuses(), self.deps(), self.index(), *task_id),
    {
        proof {
            self.lemma_wf();
        }
        let index = match self.id_to_index.get(task_id) {
            Some(i) => *i,
            None => {
                return false;
            },
        };
        let edges = graph_incoming(&self.graph, index);
        proof {
            if index < self.tasks@.len() {
                lemma_incoming_sources(self.deps(), index, self.tasks@.len());
                assert(edges@ == incoming(self.deps(), index));
            }
        }
        let mut k: usize = 0;
        while k < edges.len()
            invariant
                k <= edges@.len(),
                self.wf(),
                self.index().contains_key(*task_id) && self.index()[*task_id] == index,
                edges@ == if index < graph_nodes(self.graph).len() { incoming(self.deps(), index) } else { Seq::<(usize, u8)>::empty() },
                forall|q: int| 0 <= q < edges@.len() ==> (#[trigger] edges@[q]).0 < self.tasks@.len(),
                forall|q: int| 0 <= q < k ==> {
                    let p = #[trigger] edges@[q];
                    !(p.1 != 1 && (self.statuses()[p.0 as int] == TaskStatus::Failed || self.statuses()[p.0 as int] == TaskStatus::Cancelled))
                },
            decreases edges.len() - k,
        {
            let (src, weight) = edges[k];
            assert(src < self.tasks@.len());
            if weight != 1 {
                let st = self.tasks[src].status;
                if st == TaskStatus::Failed || st == TaskStatus::Cancelled {
                    assert(edges@[k as int] == (src, weight));
                    assert(index < self.tasks@.len());
                    assert(incoming(self.deps(), index)[k as int] == (src, weight));
                    assert(self.statuses()[src as int] == st);
                    return true;
                }
            }
            k = k + 1;
        }
        false
    }

    /// Get all tasks that are ready to run: pending, with their dependencies
    /// satisfied, in node order
    pub fn get_ready_tasks(&self) -> (r: Vec<u128>)
        requires
            self.wf(),
        ensures
            r@ == self.ready_ids(),
    {
        let ghost keep = |i: int| self.statuses()[i] == TaskStatus::Pending
            && all_done(self.ids(), self.statuses(), self.deps(), self.index(), self.ids()[i]);
        let mut r: Vec<u128> = Vec::new();
        let mut i: usize = 0;
        while i < self.tasks.len()
            invariant
                self.wf(),
                i <= self.tasks@.len(),
                keep == (|i: int| self.statuses()[i] == TaskStatus::Pending
                    && all_done(self.ids(), self.statuses(), self.deps(), self.index(), self.ids()[i])),
                r@ == pick(self.ids(), keep, i as nat),
            decreases self.tasks.len() - i,
        {
            let id = self.tasks[i].id;
            if self.tasks[i].status == TaskStatus::Pending && self.dependencies_satisfied(&id) {
                r.push(id);
            }
            i = i + 1;
        }
        r
    }

    /// Get all tasks with a specific status, in node order
    pub fn get_tasks_by_status(&self, status: TaskStatus) -> (r: Vec<u128>)
        requires
            self.wf(),
        ensures
            r@ == pick(self.ids(), |i: int| self.statuses()[i] == status, self.tasks().len()),
    {
        let ghost keep = |i: int| self.statuses()[i] == status;
        let mut r: Vec<u128> = Vec::new();
        let mut i: usize = 0;
        while i < self.tasks.len()
            invariant
                i <= self.tasks@.len(),
                keep == (|i: int| self.statuses()[i] == status),
                r@ == pick(self.ids(), keep, i as nat),
            decreases self.tasks.len() - i,
        {
            if self.tasks[i].status == status {
                r.push(self.tasks[i].id);
            }
            i = i + 1;
        }
        r
    }

    /// Get all tasks, in node order
    pub fn all_tasks(&self) -> (r: Vec<&TaskNode>)
        requires
            self.wf(),
        ensures
            r@.len() == self.tasks().len(),
            forall|i: int| 0 <= i < r@.len() ==> *(#[trigger] r@[i]) == self.tasks()[i],
    {
        let mut r: Vec<&TaskNode> = Vec::new();
        let mut i: usize = 0;
        while i < self.tasks.len()
            invariant
                i <= self.tasks@.len(),
                r@.len() == i,
                forall|k: int| 0 <= k < i ==> *(#[trigger] r@[k]) == self.tasks@[k],
            decreases self.tasks.len() - i,
        {
            r.push(&self.tasks[i]);
            i = i + 1;
        }
        r
    }

    /// Get all task IDs, in node order
    pub fn all_task_ids(&self) -> (r: Vec<u128>)
        requires
            self.wf(),
        ensures
            r@ == self.ids(),
    {
        let mut r: Vec<u128> = Vec::new();
        let mut i: usize = 0;
        while i < self.tasks.len()
            invariant
                i <= self.tasks@.len(),
                r@ == self.ids().subrange(0, i as int),
            decreases self.tasks.len() - i,
        {
            r.push(self.tasks[i].id);
            i = i + 1;
            assert(r@ =~= self.ids().subrange(0, i as int));
        }
        assert(self.ids().subrange(0, self.ids().len() as int) =~= self.ids());
        r
    }

    /// Get root tasks (tasks with no dependencies), in node order
    pub fn get_root_tasks(&self) -> (r: Vec<u128>)
        requires
            self.wf(),
        ensures
            r@ == pick(self.ids(), |i: int| incoming(self.deps(), i as usize).len() == 0, self.tasks().len()),
    {
        proof {
            self.lemma_wf();
        }
        let ghost keep = |i: int| incoming(self.deps(), i as usize).len() == 0;
        let mut r: Vec<u128> = Vec::new();
        let mut i: usize = 0;
        while i < self.tasks.len()
            invariant
                self.wf(),
                i <= self.tasks@.len(),
                self.tasks@.len() < index_end(),
                graph_nodes(self.graph).len() == self.tasks@.len(),
                keep == (|i: int| incoming(self.deps(), i as usize).len() == 0),
                r@ == pick(self.ids(), keep, i as nat),
            decreases self.tasks.len() - i,
        {
            let into = graph_incoming(&self.graph, i);
            assert(into@ == incoming(self.deps(), i));
            if into.len() == 0 {
                r.push(self.tasks[i].id);
            }
            i = i + 1;
        }
        r
    }

    /// Get leaf tasks (tasks with no dependents), in node order
    pub fn get_leaf_tasks(&self) -> (r: Vec<u128>)
        requires
            self.wf(),
        ensures
            r@ == pick(self.ids(), |i: int| outgoing(self.deps(), i as usize).len() == 0, self.tasks().len()),
    {
        proof {
            self.lemma_wf();
        }
        let ghost keep = |i: int| outgoing(self.deps(), i as usize).len() == 0;
        let mut r: Vec<u128> = Vec::new();
        let mut i: usize = 0;
        while i < self.tasks.len()
            invariant
                self.wf(),
                i <= self.tasks@.len(),
                self.tasks@.len() < index_end(),
                graph_nodes(self.graph).len() == self.tasks@.len(),
                keep == (|i: int| outgoing(self.deps(), i as usize).len() == 0),
                r@ == pick(self.ids(), keep, i as nat),
            decreases self.tasks.len() - i,
        {
            let out = graph_outgoing(&self.graph, i);
            assert(out@ == outgoing(self.deps(), i));
            if out.len() == 0 {
                r.push(self.tasks[i].id);
            }
            i = i + 1;
        }
        r
    }

    /// Check if all tasks are complete (terminal state)
    pub fn is_complete(&self) -> (b: bool)
        requires
            self.wf(),
        ensures
            b == forall|i: int| 0 <= i < self.tasks().len() ==> terminal_status(#[trigger] self.statuses()[i]),
    {
        let mut i: usize = 0;
        while i < self.tasks.len()
            invariant
                i <= self.tasks@.len(),
                forall|k: int| 0 <= k < i ==> terminal_status(#[trigger] self.statuses()[k]),
            decreases self.tasks.len() - i,
        {
            if !self.tasks[i].status.is_terminal() {
                assert(!terminal_status(self.statuses()[i as int]));
                return false;
            }
            i = i + 1;
        }
        true
    }

    /// Get completion statistics: how many tasks have each status
    pub fn statistics(&self) -> (r: TaskStatistics)
        requires
            self.wf(),
        ensures
            r == statistics_spec(self.statuses()),
    {
        let mut st: Vec<TaskStatus> = Vec::new();
        let mut i: usize = 0;
        while i < self.tasks.len()
            invariant
                i <= self.tasks@.len(),
                st@ == self.statuses().subrange(0, i as int),
            decreases self.tasks.len() - i,
        {
            st.push(self.tasks[i].status);
            i = i + 1;
            assert(st@ =~= self.statuses().subrange(0, i as int));
        }
        assert(self.statuses().subrange(0, self.statuses().len() as int) =~= self.statuses());
        TaskStatistics::of_statuses(&st)
    }

    /// Start a task on a PTY: only a pending task can start
    pub fn start_task(&mut self, task_id: &u128, pty_id: u128) -> (r: Result<(), TaskError>)
        requires
            old(self).wf(),
        ensures
            final(self).wf(),
            final(self).index() == old(self).index(),
            final(self).deps() == old(self).deps(),
            match old(self).task_of(*task_id) {
                None => (r matches Err(TaskError::NotFound { id }) && id == *task_id) && final(self).tasks() == old(self).tasks(),
                Some(t) => if t.status == TaskStatus::Pending {
                    let p = old(self).index()[*task_id] as int;
                    &&& r is Ok
                    &&& final(self).tasks()[p].started_at is Some
                    &&& final(self).tasks() == old(self).tasks().update(p, TaskNode {
                        status: TaskStatus::Running,
                        pty_id: Some(pty_id),
                        started_at: final(self).tasks()[p].started_at,
                        ..t
                    })
                } else {
                    &&& r matches Err(TaskError::InvalidStateTransition { from, to })
                        && from@ == status_text(t.status) && to@ == status_text(TaskStatus::Running)
                    &&& final(self).tasks() == old(self).tasks()
                },
            },
    {
        let ghost t0 = self.tasks@;
        let task = match self.get_task_mut(task_id) {
            Some(t) => t,
            None => {
                return Err(TaskError::NotFound { id: *task_id });
            },
        };
        if !task.status.is_runnable() {
            let from = owned(task.status.display_text());
            let to = owned(TaskStatus::Running.display_text());
            return Err(TaskError::InvalidStateTransition { from, to });
        }
        task.start(pty_id);
        Ok(())
    }

    /// Complete a task with a result: completed when it succeeded, failed
    /// otherwise
    pub fn complete_task(&mut self, task_id: &u128, result: TaskResult) -> (r: Result<(), TaskError>)
        requires
            old(self).wf(),
        ensures
            final(self).wf(),
            final(self).index() == old(self).index(),
            final(self).deps() == old(self).deps(),
            match old(self).task_of(*task_id) {
                None => (r matches Err(TaskError::NotFound { id }) && id == *task_id) && final(self).tasks() == old(self).tasks(),
                Some(t) => {
                    let p = old(self).index()[*task_id] as int;
                    &&& r is Ok
                    &&& final(self).tasks()[p].completed_at is Some
                    &&& final(self).tasks() == old(self).tasks().update(p, TaskNode {
                        status: if result.exit_code == 0 { TaskStatus::Completed } else { TaskStatus::Failed },
                        result: Some(result),
                        completed_at: final(self).tasks()[p].completed_at,
                        ..t
                    })
                },
            },
    {
        let task = match self.get_task_mut(task_id) {
            Some(t) => t,
            None => {
                return Err(TaskError::NotFound { id: *task_id });
            },
        };
        task.complete(result);
        Ok(())
    }

    /// Cancel a task that has not finished
    pub fn cancel_task(&mut self, task_id: &u128) -> (r: Result<(), TaskError>)
        requires
            old(self).wf(),
        ensures
            final(self).wf(),
            final(self).index() == old(self).index(),
            final(self).deps() == old(self).deps(),
            match old(self).task_of(*task_id) {
                None => (r matches Err(TaskError::NotFound { id }) && id == *task_id) && final(self).tasks() == old(self).tasks(),
                Some(t) => if terminal_status(t.status) {
                    &&& r matches Err(TaskError::CannotCancel { id, state }) && id == *task_id && state@ == status_text(t.status)
                    &&& final(self).tasks() == old(self).tasks()
                } else {
                    let p = old(self).index()[*task_id] as int;
                    &&& r is Ok
                    &&& final(self).tasks().len() == old(self).tasks().len()
                    &&& forall|i: int| 0 <= i < old(self).tasks().len() && i != p ==> #[trigger] final(self).tasks()[i] == old(self).tasks()[i]
                    &&& final(self).tasks()[p].status == TaskStatus::Cancelled
                    &&& final(self).tasks()[p].completed_at is Some
                    &&& only_status_changed(t, final(self).tasks()[p])
                },
            },
    {
        let task = match self.get_task_mut(task_id) {
            Some(t) => t,
            None => {
                return Err(TaskError::NotFound { id: *task_id });
            },
        };
        if task.status.is_terminal() {
            let state = owned(task.status.display_text());
            return Err(TaskError::CannotCancel { id: *task_id, state });
        }
        task.cancel();
        Ok(())
    }

    /// Skip a task (due to dependency failure)
    pub fn skip_task(&mut self, task_id: &u128) -> (r: Result<(), TaskError>)
        requires
            old(self).wf(),
        ensures
            final(self).wf(),
            final(self).index() == old(self).index(),
            final(self).deps() == old(self).deps(),
            match old(self).task_of(*task_id) {
                None => (r matches Err(TaskError::NotFound { id }) && id == *task_id) && final(self).tasks() == old(self).tasks(),
                Some(t) => {
                    let p = old(self).index()[*task_id] as int;
                    &&& r is Ok
                    &&& final(self).tasks().len() == old(self).tasks().len()
                    &&& forall|i: int| 0 <= i < old(self).tasks().len() && i != p ==> #[trigger] final(self).tasks()[i] == old(self).tasks()[i]
                    &&& final(self).tasks()[p].status == TaskStatus::Skipped
                    &&& final(self).tasks()[p].completed_at is Some
                    &&& only_status_changed(t, final(self).tasks()[p])
                },
            },
    {
        let task = match self.get_task_mut(task_id) {
            Some(t) => t,
            None => {
                return Err(TaskError::NotFound { id: *task_id });
            },
        };
        task.skip();
        Ok(())
    }

    /// Update blocked/unblocked status of every task in turn, by node
    /// order, each judged on the statuses as they stand when its turn comes
    pub fn update_blocked_status(&mut self)
        requires
            old(self).wf(),
        ensures
            blocked_updated(*old(self), *final(self)),
    {
        let ids = self.all_task_ids();
        let ghost ids0 = ids@;
        let ghost st0 = self.statuses();
        let ghost t0 = self.tasks();
        let ghost deps0 = self.deps();
        let ghost index0 = self.index();
        let mut k: usize = 0;
        while k < ids.len()
            invariant
                self.wf(),
                k <= ids@.len(),
                ids@ == ids0,
                ids0 == task_ids(t0),
                st0 == task_statuses(t0),
                self.index() == index0,
                self.deps() == deps0,
                self.tasks().len() == t0.len(),
                self.ids() == ids0,
                self.statuses() == blocked_fold(ids0, st0, deps0, index0, ids0.subrange(0, k as int)),
                forall|i: int| 0 <= i < t0.len() ==> only_status_changed(t0[i], #[trigger] self.tasks()[i])
                    && (self.tasks()[i].completed_at == t0[i].completed_at || self.tasks()[i].completed_at is Some),
            decreases ids.len() - k,
        {
            let id = ids[k];
            let ghost st1 = self.statuses();
            let ghost ts1 = self.tasks();
            assert(ids0.subrange(0, k + 1).drop_last() =~= ids0.subrange(0, k as int));
            assert(ids0.subrange(0, k + 1).last() == id);
            let should_block = !self.dependencies_satisfied(&id);
            let has_failed = self.has_failed_dependency(&id);
            let ghost p = index0[id] as int;
            match self.get_task_mut(&id) {
                Some(task) => {
                    let ghost before = *task;
                    if task.status == TaskStatus::Pending && should_block {
                        task.block();
                    } else if task.status == TaskStatus::Blocked && !should_block && !has_failed {
                        task.unblock();
                    } else if (task.status == TaskStatus::Pending || task.status == TaskStatus::Blocked) && has_failed {
                        task.skip();
                    }
                    assert(only_status_changed(before, *task));
                    assert(task.completed_at == before.completed_at || task.completed_at is Some);
                    assert(task.status == blocked_step(ids0, st1, deps0, index0, id)[p]);
                },
                None => {},
            }
            proof {
                let next = blocked_step(ids0, st1, deps0, index0, id);
                assert(self.statuses() =~= next);
                assert forall|i: int| 0 <= i < t0.len() implies only_status_changed(t0[i], #[trigger] self.tasks()[i])
                    && (self.tasks()[i].completed_at == t0[i].completed_at || self.tasks()[i].completed_at is Some) by {
                    assert(only_status_changed(t0[i], ts1[i]));
                }
                assert(self.ids() =~= ids0);
            }
            k = k + 1;
        }
        assert(ids0.subrange(0, ids0.len() as int) =~= ids0);
    }
}

impl Default for TaskGraph {
    fn default() -> (g: Self)
        ensures
            g.wf(),
            g.tasks().len() == 0,
            g.index() == Map::<u128, usize>::empty(),
            g.deps().len() == 0,
    {
        Self::new()
    }
}

/// A task added to the graph is found again by its identifier, and every
/// other identifier finds what it found before, unless it was filed at the
/// new task's index.
pub proof fn lemma_add_then_get(tasks: Seq<TaskNode>, index: Map<u128, usize>, task: TaskNode, other: u128)
    requires
        tasks.len() + 1 < index_end(),
    ensures
        found(index.insert(task.id, tasks.len() as usize), tasks.len() + 1, task.id),
        tasks.push(task)[index.insert(task.id, tasks.len() as usize)[task.id] as int] == task,
        other != task.id && found(index, tasks.len(), other) ==> found(index.insert(task.id, tasks.len() as usize), tasks.len() + 1, other)
            && tasks.push(task)[index.insert(task.id, tasks.len() as usize)[other] as int] == tasks[index[other] as int],
{
}

/// The edges into a node come from nodes of the graph.
proof fn lemma_incoming_sources(es: Seq<(usize, usize, u8)>, a: usize, n: nat)
    requires
        forall|k: int| 0 <= k < es.len() ==> (#[trigger] es[k]).0 < n && es[k].1 < n,
    ensures
        forall|q: int| 0 <= q < incoming(es, a).len() ==> (#[trigger] incoming(es, a)[q]).0 < n,
    decreases es.len(),
{
    if es.len() > 0 {
        let d = es.drop_last();
        assert forall|k: int| 0 <= k < d.len() implies (#[trigger] d[k]).0 < n && d[k].1 < n by {
            assert(d[k] == es[k]);
        }
        lemma_incoming_sources(d, a, n);
        assert(es[es.len() - 1].0 < n);
        if es.last().1 == a {
            assert forall|q: int| 0 <= q < incoming(es, a).len() implies (#[trigger] incoming(es, a)[q]).0 < n by {
                if q > 0 {
                    assert(incoming(es, a)[q] == incoming(d, a)[q - 1]);
                }
            }
        }
    }
}

/// The edges out of a node go to nodes of the graph.
proof fn lemma_outgoing_targets(es: Seq<(usize, usize, u8)>, a: usize, n: nat)
    requires
        forall|k: int| 0 <= k < es.len() ==> (#[trigger] es[k]).0 < n && es[k].1 < n,
    ensures
        forall|q: int| 0 <= q < outgoing(es, a).len() ==> (#[trigger] outgoing(es, a)[q]) < n,
    decreases es.len(),
{
    if es.len() > 0 {
        let d = es.drop_last();
        assert forall|k: int| 0 <= k < d.len() implies (#[trigger] d[k]).0 < n && d[k].1 < n by {
            assert(d[k] == es[k]);
        }
        lemma_outgoing_targets(d, a, n);
        assert(es[es.len() - 1].1 < n);
        if es.last().0 == a {
            assert forall|q: int| 0 <= q < outgoing(es, a).len() implies (#[trigger] outgoing(es, a)[q]) < n by {
                if q > 0 {
                    assert(outgoing(es, a)[q] == outgoing(d, a)[q - 1]);
                }
            }
        }
    }
}

} // verus!
